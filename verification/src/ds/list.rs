//! A singly linked list.

use vstd::prelude::*;

verus! {

/// A node of the list: its item and the node behind it.
#[allow(dead_code)]
#[derive(Debug)]
pub struct ListNode<T> {
    data: T,
    next: Option<Box<ListNode<T>>>,
}

} // verus!
