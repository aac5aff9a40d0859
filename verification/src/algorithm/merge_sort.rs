//! Merge sort.

use crate::algorithm::order::{compares_as_specified, in_order, is_weak_order, less, merged};
use vstd::prelude::*;

verus! {

/// Merges two vectors: the result holds the items of both, and is in order where both
/// were and the items are weakly ordered. Where comparing computes the order, the result
/// is the merge item by item: of two heads that do not come before each other the one of
/// `right` goes first.
pub fn merge<T>(left: &Vec<T>, right: &Vec<T>) -> (result: Vec<T>) where T: Ord + Copy
    ensures
        result@.to_multiset() == left@.to_multiset().add(right@.to_multiset()),
        result@.len() == left@.len() + right@.len(),
        is_weak_order::<T>() && in_order(left@) && in_order(right@) ==> in_order(result@),
        compares_as_specified::<T>() ==> result@ == merged(left@, right@),
{
    broadcast use {vstd::seq_lib::to_multiset_build, vstd::multiset::group_multiset_axioms};

    let ghost sorted = is_weak_order::<T>() && in_order(left@) && in_order(right@);
    let ghost exact = compares_as_specified::<T>();
    assert(left@.skip(0) =~= left@);
    assert(right@.skip(0) =~= right@);
    assert(Seq::<T>::empty() + merged(left@, right@) =~= merged(left@, right@));
    let mut result: Vec<T> = Vec::new();
    let mut i: usize = 0;
    let mut j: usize = 0;
    proof {
        let none = Seq::<T>::empty();
        assert(left@.subrange(0, 0) =~= none);
        assert(right@.subrange(0, 0) =~= none);
        assert(result@ =~= none);
        none.to_multiset_ensures();
        assert(none.to_multiset() =~= none.to_multiset().add(none.to_multiset()));
    }

    while i < left.len() && j < right.len()
        invariant
            i <= left@.len(),
            j <= right@.len(),
            result@.len() == i + j,
            exact == compares_as_specified::<T>(),
            exact ==> result@ + merged(left@.skip(i as int), right@.skip(j as int)) == merged(
                left@,
                right@,
            ),
            sorted == (is_weak_order::<T>() && in_order(left@) && in_order(right@)),
            result@.to_multiset() == left@.subrange(0, i as int).to_multiset().add(
                right@.subrange(0, j as int).to_multiset(),
            ),
            sorted ==> in_order(result@),
            sorted ==> forall|x: int, k: int|
                0 <= x < result@.len() && i <= k < left@.len() ==> !less(
                    #[trigger] left@[k],
                    #[trigger] result@[x],
                ),
            sorted ==> forall|x: int, k: int|
                0 <= x < result@.len() && j <= k < right@.len() ==> !less(
                    #[trigger] right@[k],
                    #[trigger] result@[x],
                ),
        decreases left@.len() - i + right@.len() - j,
    {
        let ghost before = result@;
        if left[i] < right[j] {
            let item = left[i];
            result.push(item);
            proof {
                if exact {
                    lemma_merged_step(before, left@, i as int, right@, j as int, true);
                }
                assert(left@.subrange(0, i + 1) =~= left@.subrange(0, i as int).push(item));
                lemma_counted(before, left@.subrange(0, i as int), right@.subrange(0, j as int), item, true);
                lemma_pushed_stays_below(before, item, left@, i as int, right@, j as int, sorted, true);
            }
            i += 1;
        } else {
            let item = right[j];
            result.push(item);
            proof {
                if exact {
                    lemma_merged_step(before, left@, i as int, right@, j as int, false);
                }
                assert(right@.subrange(0, j + 1) =~= right@.subrange(0, j as int).push(item));
                lemma_counted(before, left@.subrange(0, i as int), right@.subrange(0, j as int), item, false);
                lemma_pushed_stays_below(before, item, left@, i as int, right@, j as int, sorted, false);
            }
            j += 1;
        }
    }

    while i < left.len()
        invariant
            i <= left@.len(),
            j <= right@.len(),
            i < left@.len() ==> j == right@.len(),
            result@.len() == i + j,
            exact == compares_as_specified::<T>(),
            exact ==> result@ + merged(left@.skip(i as int), right@.skip(j as int)) == merged(
                left@,
                right@,
            ),
            sorted == (is_weak_order::<T>() && in_order(left@) && in_order(right@)),
            result@.to_multiset() == left@.subrange(0, i as int).to_multiset().add(
                right@.subrange(0, j as int).to_multiset(),
            ),
            sorted ==> in_order(result@),
            sorted ==> forall|x: int, k: int|
                0 <= x < result@.len() && i <= k < left@.len() ==> !less(
                    #[trigger] left@[k],
                    #[trigger] result@[x],
                ),
            sorted ==> forall|x: int, k: int|
                0 <= x < result@.len() && j <= k < right@.len() ==> !less(
                    #[trigger] right@[k],
                    #[trigger] result@[x],
                ),
        decreases left@.len() - i,
    {
        let ghost before = result@;
        let item = left[i];
        result.push(item);
        proof {
            lemma_merged_step(before, left@, i as int, right@, j as int, true);
            assert(left@.subrange(0, i + 1) =~= left@.subrange(0, i as int).push(item));
            lemma_counted(before, left@.subrange(0, i as int), right@.subrange(0, j as int), item, true);
            lemma_tail_stays_below(before, item, left@, i as int, sorted);
        }
        i += 1;
    }
    while j < right.len()
        invariant
            i == left@.len(),
            j <= right@.len(),
            result@.len() == i + j,
            exact == compares_as_specified::<T>(),
            exact ==> result@ + merged(left@.skip(i as int), right@.skip(j as int)) == merged(
                left@,
                right@,
            ),
            sorted == (is_weak_order::<T>() && in_order(left@) && in_order(right@)),
            result@.to_multiset() == left@.subrange(0, i as int).to_multiset().add(
                right@.subrange(0, j as int).to_multiset(),
            ),
            sorted ==> in_order(result@),
            sorted ==> forall|x: int, k: int|
                0 <= x < result@.len() && j <= k < right@.len() ==> !less(
                    #[trigger] right@[k],
                    #[trigger] result@[x],
                ),
        decreases right@.len() - j,
    {
        let ghost before = result@;
        let item = right[j];
        result.push(item);
        proof {
            lemma_merged_step(before, left@, i as int, right@, j as int, false);
            assert(right@.subrange(0, j + 1) =~= right@.subrange(0, j as int).push(item));
            lemma_counted(before, left@.subrange(0, i as int), right@.subrange(0, j as int), item, false);
            lemma_tail_stays_below(before, item, right@, j as int, sorted);
        }
        j += 1;
    }
    assert(left@.subrange(0, i as int) =~= left@);
    assert(right@.subrange(0, j as int) =~= right@);
    assert(result@ + merged(left@.skip(i as int), right@.skip(j as int)) =~= result@);
    result
}

/// Taking the head that the merge puts first from its side onto the result leaves the
/// whole merge as it is: the head of `left` where it comes strictly before the head of
/// `right` or nothing is left of `right`, the head of `right` otherwise.
proof fn lemma_merged_step<T: PartialOrd>(
    before: Seq<T>,
    left: Seq<T>,
    i: int,
    right: Seq<T>,
    j: int,
    from_left: bool,
)
    requires
        0 <= i <= left.len(),
        0 <= j <= right.len(),
        from_left ==> i < left.len() && (j == right.len() || less(left[i], right[j])),
        !from_left ==> j < right.len() && (i == left.len() || !less(left[i], right[j])),
    ensures
        from_left ==> before.push(left[i]) + merged(left.skip(i + 1), right.skip(j)) == before
            + merged(left.skip(i), right.skip(j)),
        !from_left ==> before.push(right[j]) + merged(left.skip(i), right.skip(j + 1)) == before
            + merged(left.skip(i), right.skip(j)),
{
    let l = left.skip(i);
    let r = right.skip(j);
    if from_left {
        assert(l.drop_first() =~= left.skip(i + 1));
        if r.len() == 0 {
            assert(merged(l.drop_first(), r) =~= l.drop_first()) by {
                if l.drop_first().len() == 0 {
                }
            }
            assert(l =~= seq![left[i]] + l.drop_first());
        }
        assert(before.push(left[i]) + merged(left.skip(i + 1), r) =~= before + merged(l, r));
    } else {
        assert(r.drop_first() =~= right.skip(j + 1));
        if l.len() == 0 {
            assert(r =~= seq![right[j]] + r.drop_first());
        }
        assert(before.push(right[j]) + merged(l, right.skip(j + 1)) =~= before + merged(l, r));
    }
}

/// Pushing one item onto the result and onto one of the two parts keeps the counts equal.
proof fn lemma_counted<T>(result: Seq<T>, a: Seq<T>, b: Seq<T>, item: T, onto_first: bool)
    requires
        result.to_multiset() == a.to_multiset().add(b.to_multiset()),
    ensures
        onto_first ==> result.push(item).to_multiset() == a.push(item).to_multiset().add(
            b.to_multiset(),
        ),
        !onto_first ==> result.push(item).to_multiset() == a.to_multiset().add(
            b.push(item).to_multiset(),
        ),
{
    broadcast use {vstd::seq_lib::to_multiset_build, vstd::multiset::group_multiset_axioms};

    if onto_first {
        assert(result.push(item).to_multiset() =~= a.push(item).to_multiset().add(
            b.to_multiset(),
        ));
    } else {
        assert(result.push(item).to_multiset() =~= a.to_multiset().add(
            b.push(item).to_multiset(),
        ));
    }
}

/// After the smaller of the two heads was pushed, the result is in order and nothing that
/// is left comes before any item of it.
proof fn lemma_pushed_stays_below<T: PartialOrd>(
    before: Seq<T>,
    item: T,
    left: Seq<T>,
    i: int,
    right: Seq<T>,
    j: int,
    sorted: bool,
    from_left: bool,
)
    requires
        0 <= i < left.len(),
        0 <= j < right.len(),
        sorted == (is_weak_order::<T>() && in_order(left) && in_order(right)),
        sorted ==> in_order(before),
        sorted ==> forall|x: int, k: int|
            0 <= x < before.len() && i <= k < left.len() ==> !less(
                #[trigger] left[k],
                #[trigger] before[x],
            ),
        sorted ==> forall|x: int, k: int|
            0 <= x < before.len() && j <= k < right.len() ==> !less(
                #[trigger] right[k],
                #[trigger] before[x],
            ),
        from_left ==> item == left[i] && (sorted ==> less(left[i], right[j])),
        !from_left ==> item == right[j] && (sorted ==> !less(left[i], right[j])),
    ensures
        sorted ==> in_order(before.push(item)),
        sorted ==> forall|x: int, k: int|
            0 <= x < before.len() + 1 && (if from_left {
                i + 1
            } else {
                i
            }) <= k < left.len() ==> !less(#[trigger] left[k], #[trigger] before.push(item)[x]),
        sorted ==> forall|x: int, k: int|
            0 <= x < before.len() + 1 && (if from_left {
                j
            } else {
                j + 1
            }) <= k < right.len() ==> !less(#[trigger] right[k], #[trigger] before.push(item)[x]),
{
    if sorted {
        let after = before.push(item);
        assert forall|x: int, y: int| 0 <= x < y < after.len() implies !less(
            #[trigger] after[y],
            #[trigger] after[x],
        ) by {
            if y < before.len() {
                assert(!less(before[y], before[x]));
            } else if from_left {
                assert(!less(left[i], before[x]));
            } else {
                assert(!less(right[j], before[x]));
            }
        }
        assert forall|x: int, k: int|
            0 <= x < before.len() + 1 && (if from_left {
                i + 1
            } else {
                i
            }) <= k < left.len() implies !less(#[trigger] left[k], #[trigger] after[x]) by {
            if x < before.len() {
                assert(!less(left[k], before[x]));
            } else if from_left {
                assert(!less(left[k], left[i]));
            } else {
                // right[j] is not after left[i], which is not after left[k]
                assert(!less(left[i], right[j]));
                if i < k {
                    assert(!less(left[k], left[i]));
                }
                assert(!less(left[k], right[j]));
            }
        }
        assert forall|x: int, k: int|
            0 <= x < before.len() + 1 && (if from_left {
                j
            } else {
                j + 1
            }) <= k < right.len() implies !less(#[trigger] right[k], #[trigger] after[x]) by {
            if x < before.len() {
                assert(!less(right[k], before[x]));
            } else if from_left {
                assert(less(left[i], right[j]));
                assert(!less(right[j], left[i]));
                if j < k {
                    assert(!less(right[k], right[j]));
                }
                assert(!less(right[k], left[i]));
            } else {
                assert(!less(right[k], right[j]));
            }
        }
    }
}

/// After the head of the one side that is left was pushed, the result is in order and
/// nothing that is left of that side comes before any item of it.
proof fn lemma_tail_stays_below<T: PartialOrd>(
    before: Seq<T>,
    item: T,
    side: Seq<T>,
    i: int,
    sorted: bool,
)
    requires
        0 <= i < side.len(),
        item == side[i],
        sorted ==> is_weak_order::<T>() && in_order(side),
        sorted ==> in_order(before),
        sorted ==> forall|x: int, k: int|
            0 <= x < before.len() && i <= k < side.len() ==> !less(
                #[trigger] side[k],
                #[trigger] before[x],
            ),
    ensures
        sorted ==> in_order(before.push(item)),
        sorted ==> forall|x: int, k: int|
            0 <= x < before.len() + 1 && i + 1 <= k < side.len() ==> !less(
                #[trigger] side[k],
                #[trigger] before.push(item)[x],
            ),
{
    if sorted {
        let after = before.push(item);
        assert forall|x: int, y: int| 0 <= x < y < after.len() implies !less(
            #[trigger] after[y],
            #[trigger] after[x],
        ) by {
            if y < before.len() {
                assert(!less(before[y], before[x]));
            } else {
                assert(!less(side[i], before[x]));
            }
        }
        assert forall|x: int, k: int|
            0 <= x < before.len() + 1 && i + 1 <= k < side.len() implies !less(
            #[trigger] side[k],
            #[trigger] after[x],
        ) by {
            if x < before.len() {
                assert(!less(side[k], before[x]));
            } else {
                assert(!less(side[k], side[i]));
            }
        }
    }
}

/// Copies the items from `from` up to `to`.
fn copy_range<T: Copy>(arr: &Vec<T>, from: usize, to: usize) -> (part: Vec<T>)
    requires
        from <= to <= arr@.len(),
    ensures
        part@ == arr@.subrange(from as int, to as int),
{
    let mut part: Vec<T> = Vec::new();
    let mut k: usize = from;
    while k < to
        invariant
            from <= k <= to <= arr@.len(),
            part@ == arr@.subrange(from as int, k as int),
        decreases to - k,
    {
        part.push(arr[k]);
        k += 1;
        assert(part@ =~= arr@.subrange(from as int, k as int));
    }
    part
}

/// Sorts a vector that holds at least one item: the result holds the same items, and is
/// in order where the items are weakly ordered.
pub fn merge_sort<T>(arr: &Vec<T>) -> (sorted: Vec<T>) where T: Ord + Copy
    requires
        arr@.len() >= 1,
    ensures
        sorted@.to_multiset() == arr@.to_multiset(),
        sorted@.len() == arr@.len(),
        is_weak_order::<T>() ==> in_order(sorted@),
    decreases arr@.len(),
{
    if arr.len() == 1 {
        let copy = copy_range(arr, 0, 1);
        assert(copy@ =~= arr@);
        return copy;
    }
    let mid = arr.len() / 2;
    let left = merge_sort(&copy_range(arr, 0, mid));
    let right = merge_sort(&copy_range(arr, mid, arr.len()));
    proof {
        vstd::seq_lib::lemma_multiset_commutative(
            arr@.subrange(0, mid as int),
            arr@.subrange(mid as int, arr@.len() as int),
        );
        assert(arr@.subrange(0, mid as int) + arr@.subrange(mid as int, arr@.len() as int)
            =~= arr@);
    }
    merge(&left, &right)
}

} // verus!
