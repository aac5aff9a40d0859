//! What sorting asks of the order of the items.

use core::cmp::Ordering;
use vstd::prelude::*;
use vstd::std_specs::cmp::PartialOrdSpec;

verus! {

/// Whether `a` comes strictly before `b`.
pub open spec fn less<T: PartialOrd>(a: T, b: T) -> bool {
    a.partial_cmp_spec(&b) == Some(Ordering::Less)
}

/// Whether comparing two items computes what [`less`] says.
pub open spec fn compares_as_specified<T: PartialOrd>() -> bool {
    T::obeys_partial_cmp_spec()
}

/// Whether the items are weakly ordered: comparisons compute [`less`], no two items come
/// before each other, and "not after" is transitive.
pub open spec fn is_weak_order<T: PartialOrd>() -> bool {
    &&& compares_as_specified::<T>()
    &&& forall|a: T, b: T| #[trigger] less(a, b) ==> !less(b, a)
    &&& forall|a: T, b: T, c: T|
        #![trigger less(b, a), less(c, b)]
        !less(b, a) && !less(c, b) ==> !less(c, a)
}

/// Whether no item of `s` comes strictly before an earlier one.
pub open spec fn in_order<T: PartialOrd>(s: Seq<T>) -> bool {
    forall|i: int, j: int| 0 <= i < j < s.len() ==> !less(#[trigger] s[j], #[trigger] s[i])
}

/// The merge of two sequences, item by item: the head of `left` goes first where it
/// comes strictly before the head of `right`; otherwise, also where neither comes before
/// the other, the head of `right` goes first.
pub open spec fn merged<T: PartialOrd>(left: Seq<T>, right: Seq<T>) -> Seq<T>
    decreases left.len() + right.len(),
{
    if left.len() == 0 {
        right
    } else if right.len() == 0 {
        left
    } else if less(left[0], right[0]) {
        seq![left[0]] + merged(left.drop_first(), right)
    } else {
        seq![right[0]] + merged(left, right.drop_first())
    }
}

} // verus!
