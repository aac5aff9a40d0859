//! The skeleton of a binary search tree map.

use vstd::prelude::*;

verus! {

/// A trait for Binary Search Tree (e.g. AVL, splay, b-tree, rb-tree, ...).
pub trait BST<T> {
    type NodePtr;

    /// Find the target value and return the node.
    fn search(&self, value: &T) -> &Self::NodePtr;

    /// Insert the value and return the node inserted.
    fn insert(&mut self, value: T) -> &Self::NodePtr;

    /// Return `TRUE` iff delete the target node successfully.
    fn remove(&mut self, value: &T) -> bool;
}

#[derive(Debug, PartialEq, Eq)]
pub struct BinTreeMap<K, V> {
    root: Option<Box<TreeNode<K, V>>>,
    size: usize,
}

#[derive(Debug, PartialEq, Eq)]
pub struct TreeNode<K, V> {
    rank: K,
    data: V,
    left: Option<Box<TreeNode<K, V>>>,
    right: Option<Box<TreeNode<K, V>>>,
}

impl<K, V> BinTreeMap<K, V> {
    /// Number of entries.
    pub closed spec fn spec_size(&self) -> nat {
        self.size as nat
    }

    /// Whether the tree has no node.
    pub closed spec fn is_leafless(&self) -> bool {
        self.root is None
    }

    /// An empty tree.
    pub fn new() -> (tree: Self)
        ensures
            tree.spec_size() == 0,
            tree.is_leafless(),
    {
        BinTreeMap { root: None, size: 0 }
    }
}

impl<K, V> Default for BinTreeMap<K, V> {
    /// An empty tree.
    fn default() -> (tree: Self)
        ensures
            tree.spec_size() == 0,
            tree.is_leafless(),
    {
        BinTreeMap { root: None, size: 0 }
    }
}

impl<K, V> TreeNode<K, V> {
    /// Whether the node has neither a left nor a right child.
    pub closed spec fn is_leaf(&self) -> bool {
        self.left is None && self.right is None
    }
}

impl<K: Default, V: Default> Default for TreeNode<K, V> {
    /// A node without children.
    fn default() -> (node: Self)
        ensures
            node.is_leaf(),
    {
        TreeNode { rank: K::default(), data: V::default(), left: None, right: None }
    }
}

} // verus!
