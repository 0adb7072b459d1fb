//! The contract that trees and their nodes share
//!
//! Provides the queries that every tree answers in the same way from its
//! root, and names what every node has to answer for them.

use crate::order::total_order;
use std::fmt::{Debug, Display};
use vstd::prelude::*;

verus! {

/// The keys that the subtree `link` holds.
pub open spec fn key_set_of<T: Ord + Copy + Debug + Display, TreeNode: CommonTreeNodeTrait<T>>(
    link: Option<Box<TreeNode>>,
) -> Set<T> {
    match link {
        None => Set::empty(),
        Some(node) => node.key_set(),
    }
}

/// The keys of the subtree `link`: left subtree, node, right subtree.
pub open spec fn in_order_keys_of<
    T: Ord + Copy + Debug + Display,
    TreeNode: CommonTreeNodeTrait<T>,
>(link: Option<Box<TreeNode>>) -> Seq<T> {
    match link {
        None => Seq::empty(),
        Some(node) => node.in_order_keys(),
    }
}

/// The keys of the subtree `link`: node, left subtree, right subtree.
pub open spec fn pre_order_keys_of<
    T: Ord + Copy + Debug + Display,
    TreeNode: CommonTreeNodeTrait<T>,
>(link: Option<Box<TreeNode>>) -> Seq<T> {
    match link {
        None => Seq::empty(),
        Some(node) => node.pre_order_keys(),
    }
}

/// Every node of the subtree `link` lies between the keys to its left and
/// the keys to its right.
pub open spec fn in_search_order_of<
    T: Ord + Copy + Debug + Display,
    TreeNode: CommonTreeNodeTrait<T>,
>(link: Option<Box<TreeNode>>) -> bool {
    match link {
        None => true,
        Some(node) => node.in_search_order(),
    }
}

/// Whether the search for `value` finds it in the subtree `link`.
pub open spec fn finds_in<T: Ord + Copy + Debug + Display, TreeNode: CommonTreeNodeTrait<T>>(
    link: Option<Box<TreeNode>>,
    value: T,
) -> bool {
    match link {
        None => false,
        Some(node) => node.finds(value),
    }
}

/// Number of leaves of a tree with the root `link`, none in an empty tree.
pub open spec fn leaf_count_of<T: Ord + Copy + Debug + Display, TreeNode: CommonTreeNodeTrait<T>>(
    link: Option<Box<TreeNode>>,
) -> nat {
    match link {
        None => 0,
        Some(node) => node.leaf_count(),
    }
}

/// Number of levels of a tree with the root `link`, none in an empty tree.
pub open spec fn level_count_of<
    T: Ord + Copy + Debug + Display,
    TreeNode: CommonTreeNodeTrait<T>,
>(link: Option<Box<TreeNode>>) -> nat {
    match link {
        None => 0,
        Some(node) => node.level_count(),
    }
}

/// The nodes of the subtree `link`: left subtree, node, right subtree.
pub open spec fn in_order_nodes_of<
    T: Ord + Copy + Debug + Display,
    TreeNode: CommonTreeNodeTrait<T>,
>(link: Option<Box<TreeNode>>) -> Seq<TreeNode> {
    match link {
        None => Seq::empty(),
        Some(node) => node.in_order_nodes(),
    }
}

/// The nodes of the subtree `link`: node, left subtree, right subtree.
pub open spec fn pre_order_nodes_of<
    T: Ord + Copy + Debug + Display,
    TreeNode: CommonTreeNodeTrait<T>,
>(link: Option<Box<TreeNode>>) -> Seq<TreeNode> {
    match link {
        None => Seq::empty(),
        Some(node) => node.pre_order_nodes(),
    }
}

/// `after` is `before` with one label more for each of `nodes`, in their
/// order.
pub open spec fn labels_appended<
    T: Ord + Copy + Debug + Display,
    TreeNode: CommonTreeNodeTrait<T>,
>(before: Seq<String>, after: Seq<String>, nodes: Seq<TreeNode>) -> bool {
    &&& after.len() == before.len() + nodes.len()
    &&& forall|i: int| 0 <= i < before.len() ==> after[i] == before[i]
    &&& forall|i: int|
        0 <= i < nodes.len() ==> (#[trigger] nodes[i]).is_label(after[before.len() + i]@)
}

/// Provide common functions for trees
pub trait CommonTreeTrait<
    T: Ord + Copy + Debug + Display,
    TreeNode: CommonTreeNodeTrait<T>,
> {
    /// The root of the tree, `None` where the tree is empty.
    spec fn root(&self) -> Option<Box<TreeNode>>;

    /// The root of the tree.
    fn get_root(&self) -> (root: &Option<Box<TreeNode>>)
        ensures
            *root == self.root(),
    ;

    /// Counts leaves(None nodes) of the Tree
    fn count_leaves(&self) -> (count: u32)
        requires
            leaf_count_of(self.root()) <= u32::MAX,
        ensures
            count == leaf_count_of(self.root()),
    {
        match self.get_root() {
            None => 0,
            Some(node) => node.count_leaves(),
        }
    }

    /// Gets height of the Tree (from root to leaves)
    fn height(&self) -> (height: u32)
        requires
            level_count_of(self.root()) <= u32::MAX,
        ensures
            height == level_count_of(self.root()),
    {
        match self.get_root() {
            None => 0,
            Some(node) => node.get_height(),
        }
    }

    /// Appends the keys of the tree to `container`, in order.
    fn in_order_traversal_for_test(&self, container: &mut Vec<T>)
        ensures
            final(container)@ == old(container)@ + in_order_keys_of(self.root()),
    {
        match self.get_root() {
            None => {},
            Some(node) => {
                node.in_order_traversal_for_test(container);
            },
        }
    }

    /// Appends the keys of the tree to `container`, every node before its
    /// subtrees.
    fn pre_order_traversal_for_test(&self, container: &mut Vec<T>)
        ensures
            final(container)@ == old(container)@ + pre_order_keys_of(self.root()),
    {
        match self.get_root() {
            None => {},
            Some(node) => {
                node.pre_order_traversal_for_test(container);
            },
        }
    }

    /// The labels of the nodes of the tree in order, as they are shown for
    /// an in-order traversal; none for an empty tree.
    fn in_order_traversal(&self) -> (labels: Vec<String>)
        ensures
            labels_appended(Seq::empty(), labels@, in_order_nodes_of(self.root())),
    {
        let mut labels = Vec::new();
        match self.get_root() {
            None => {},
            Some(node) => {
                node.in_order_traversal(&mut labels);
            },
        }
        labels
    }

    /// The labels of the nodes of the tree, every node before its subtrees,
    /// as they are shown for a pre-order traversal; none for an empty tree.
    fn pre_order_traversal(&self) -> (labels: Vec<String>)
        ensures
            labels_appended(Seq::empty(), labels@, pre_order_nodes_of(self.root())),
    {
        let mut labels = Vec::new();
        match self.get_root() {
            None => {},
            Some(node) => {
                node.pre_order_traversal(&mut labels);
            },
        }
        labels
    }

    /// Determine whether the tree contains given value
    fn contains(&self, value: T) -> (found: bool)
        requires
            total_order::<T>(),
        ensures
            found == finds_in(self.root(), value),
            in_search_order_of(self.root()) ==> found == key_set_of(self.root()).contains(value),
    {
        match self.get_root() {
            None => false,
            Some(node) => node.contains(value),
        }
    }

    /// Whether the tree holds no key.
    fn is_tree_empty(&self) -> (empty: bool)
        ensures
            empty == (self.root() is None),
    {
        self.get_root().is_none()
    }

    /// The smallest key of the tree, `None` where the tree is empty.
    fn min(&self) -> (min: Option<T>)
        ensures
            min == match self.root() {
                None => None,
                Some(node) => Some(node.leftmost_key()),
            },
    {
        match self.get_root() {
            None => None,
            Some(node) => Some(node.get_min_value_in_children()),
        }
    }

    /// The largest key of the tree, `None` where the tree is empty.
    fn max(&self) -> (max: Option<T>)
        ensures
            max == match self.root() {
                None => None,
                Some(node) => Some(node.rightmost_key()),
            },
    {
        match self.get_root() {
            None => None,
            Some(node) => Some(node.get_max_value_in_children()),
        }
    }
}

/// Provide common functions for nodes
pub trait CommonTreeNodeTrait<T: Ord + Copy + Debug + Display>: Sized {
    /// The left subtree of the node.
    spec fn left_link(&self) -> Option<Box<Self>>;

    /// The right subtree of the node.
    spec fn right_link(&self) -> Option<Box<Self>>;

    /// The key that the node holds.
    spec fn key(&self) -> T;

    /// The keys of the node and of the nodes below it.
    spec fn key_set(&self) -> Set<T>;

    /// The keys of the node and of the nodes below it: left subtree, node,
    /// right subtree.
    spec fn in_order_keys(&self) -> Seq<T>;

    /// The keys of the node and of the nodes below it: node, left subtree,
    /// right subtree.
    spec fn pre_order_keys(&self) -> Seq<T>;

    /// The node and every node below it lie between the keys to their left
    /// and the keys to their right.
    spec fn in_search_order(&self) -> bool;

    /// Whether the search for `value` finds it at the node or below it: the
    /// search goes on to the left of a larger key and to the right of a
    /// smaller one.
    spec fn finds(&self, value: T) -> bool;

    /// Number of leaves below the node, as the kind of tree counts them.
    spec fn leaf_count(&self) -> nat;

    /// Number of levels from the node down, as the kind of tree counts them.
    spec fn level_count(&self) -> nat;

    /// The node and the nodes below it: left subtree, node, right subtree.
    spec fn in_order_nodes(&self) -> Seq<Self>;

    /// The node and the nodes below it: node, left subtree, right subtree.
    spec fn pre_order_nodes(&self) -> Seq<Self>;

    /// `text` is a label under which the node is shown.
    spec fn is_label(&self, text: Seq<char>) -> bool;

    /// The key of the node that is reached by going left as long as there is
    /// a left child.
    spec fn leftmost_key(&self) -> T;

    /// The key of the node that is reached by going right as long as there is
    /// a right child.
    spec fn rightmost_key(&self) -> T;

    /// Get left child node
    fn get_left(&self) -> (left: &Option<Box<Self>>)
        ensures
            *left == self.left_link(),
    ;

    /// Get right child node
    fn get_right(&self) -> (right: &Option<Box<Self>>)
        ensures
            *right == self.right_link(),
    ;

    /// Get value from current node
    fn get_value(&self) -> (value: T)
        ensures
            value == self.key(),
    ;

    /// Get value string from current node
    fn get_value_to_print(&self) -> (text: String)
        ensures
            self.is_label(text@),
    ;

    /// Return the leaves number of current node
    fn count_leaves(&self) -> (count: u32)
        requires
            self.leaf_count() <= u32::MAX,
        ensures
            count == self.leaf_count(),
    ;

    /// Return the height of current node
    fn get_height(&self) -> (height: u32)
        requires
            self.level_count() <= u32::MAX,
        ensures
            height == self.level_count(),
    ;

    /// Appends the keys of the node and of the nodes below it to `container`,
    /// in order.
    fn in_order_traversal_for_test(&self, container: &mut Vec<T>)
        ensures
            final(container)@ == old(container)@ + self.in_order_keys(),
    ;

    /// Appends the keys of the node and of the nodes below it to `container`,
    /// every node before its subtrees.
    fn pre_order_traversal_for_test(&self, container: &mut Vec<T>)
        ensures
            final(container)@ == old(container)@ + self.pre_order_keys(),
    ;

    /// Appends the labels of the node and of the nodes below it to
    /// `container`, in order.
    fn in_order_traversal(&self, container: &mut Vec<String>)
        ensures
            final(container)@.len() == old(container)@.len() + self.in_order_nodes().len(),
            forall|i: int|
                0 <= i < old(container)@.len() ==> final(container)@[i] == old(container)@[i],
            forall|i: int|
                #![trigger self.in_order_nodes()[i]]
                0 <= i < self.in_order_nodes().len() ==> self.in_order_nodes()[i].is_label(
                    final(container)@[old(container)@.len() + i]@,
                ),
    ;

    /// Appends the labels of the node and of the nodes below it to
    /// `container`, every node before its subtrees.
    fn pre_order_traversal(&self, container: &mut Vec<String>)
        ensures
            final(container)@.len() == old(container)@.len() + self.pre_order_nodes().len(),
            forall|i: int|
                0 <= i < old(container)@.len() ==> final(container)@[i] == old(container)@[i],
            forall|i: int|
                #![trigger self.pre_order_nodes()[i]]
                0 <= i < self.pre_order_nodes().len() ==> self.pre_order_nodes()[i].is_label(
                    final(container)@[old(container)@.len() + i]@,
                ),
    ;

    /// Determine whether the node and its successors contains given value
    fn contains(&self, value: T) -> (found: bool)
        requires
            total_order::<T>(),
        ensures
            found == self.finds(value),
            self.in_search_order() ==> found == self.key_set().contains(value),
    ;

    /// Find the min value in its children
    fn get_min_value_in_children(&self) -> (min: T)
        ensures
            min == self.leftmost_key(),
    ;

    /// Find the max value in its children
    fn get_max_value_in_children(&self) -> (max: T)
        ensures
            max == self.rightmost_key(),
    ;
}

} // verus!
