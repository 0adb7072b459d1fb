//! Red-black tree
//!
//! You can generate a red-black tree, and insert or delete nodes.

pub use crate::common_trait::{CommonTreeNodeTrait, CommonTreeTrait};
use crate::order::{lemma_operators, lemma_total_order, lt, total_order};
use crate::proofs::{
    lemma_leftmost, lemma_levels, lemma_rightmost, lemma_searched, lemma_tree_deleted,
    lemma_tree_inserted,
};
use crate::shape::{
    balanced, black_height, color_letter, color_of, in_order, in_order_nodes, keys, label_of,
    leaves, left_of, leftmost, levels, ordered, pre_order, pre_order_nodes, red, red_black,
    rightmost, searched, size,
};
use crate::steps::{
    deleted, flipped, inserted, leaf, lemma_opened_size, maintained, moved_red_left,
    moved_red_right, pushed_down, rotated_left, rotated_right, tree_deleted, tree_inserted,
};
use std::fmt::{Debug, Display};
use vstd::prelude::*;
use vstd::string::StringExecFns;

verus! {

/// Color of a [`TreeNode`]. An absent child reads as `Black`.
#[derive(Clone, Copy, Debug, PartialEq, Eq, Structural)]
pub enum NodeColor {
    /// Red color
    Red,
    /// Black color, the root of a [`FastRBTree`] is always Black
    Black,
}

impl NodeColor {
    /// The letter that stands for the color: `r` for Red, `b` for Black.
    pub fn to_string(&self) -> (letter: &'static str)
        ensures
            letter@ == color_letter(*self),
    {
        if *self == NodeColor::Red {
            "r"
        } else {
            "b"
        }
    }
}

/// Structure of FastRBTree: an ordered set of keys, kept in a red-black tree
/// that is rebalanced on the way back from every insertion and deletion.
#[derive(Debug, PartialEq)]
pub struct FastRBTree<T: Ord + Copy + Debug + Display> {
    root: OptionFastRBTreeNode<T>,
}

/// A node of a [`FastRBTree`]; it owns its two subtrees.
#[derive(Debug, PartialEq)]
pub struct TreeNode<T: Ord + Copy + Debug + Display> {
    /// The color of the node
    pub color: NodeColor,
    /// Key stored in the node
    pub value: T,
    /// Subtree of the smaller keys
    pub left: OptionFastRBTreeNode<T>,
    /// Subtree of the larger keys
    pub right: OptionFastRBTreeNode<T>,
}

/// An owned node.
pub type FastRBTreeNode<T> = Box<TreeNode<T>>;

/// An owned subtree, `None` where it is empty.
pub type OptionFastRBTreeNode<T> = Option<Box<TreeNode<T>>>;

impl<T: Ord + Copy + Debug + Display> Clone for TreeNode<T> {
    /// A copy of the node and of every node below it, which shares no node
    /// with the subtree that it was made from.
    fn clone(&self) -> (copy: Self)
        ensures
            copy == *self,
        decreases self,
    {
        TreeNode {
            color: self.color,
            value: self.value,
            left: match &self.left {
                Some(node) => Some(Box::new((&**node).clone())),
                None => None,
            },
            right: match &self.right {
                Some(node) => Some(Box::new((&**node).clone())),
                None => None,
            },
        }
    }
}

impl<T: Ord + Copy + Debug + Display> Clone for FastRBTree<T> {
    /// A copy of the whole tree, which shares no node with the tree that it
    /// was made from.
    fn clone(&self) -> (copy: Self)
        ensures
            copy == *self,
    {
        proof {
            use_type_invariant(self);
        }
        FastRBTree {
            root: match &self.root {
                Some(node) => Some(Box::new((&**node).clone())),
                None => None,
            },
        }
    }
}

// extend from common tree trait
impl<T: Ord + Copy + Debug + Display> CommonTreeTrait<T, TreeNode<T>> for FastRBTree<T> {
    closed spec fn root(&self) -> OptionFastRBTreeNode<T> {
        self.root
    }

    // the root of a tree is the root of a tree at rest
    fn get_root(&self) -> (root: &OptionFastRBTreeNode<T>)
        ensures
            red_black(*root),
    {
        proof {
            use_type_invariant(self);
        }
        &self.root
    }

    // an absent child counts as one level, an empty tree as none
    fn height(&self) -> (height: u32) {
        match self.get_root() {
            None => 0,
            Some(node) => node.get_height(),
        }
    }

    // the keys of a tree are in search order
    fn contains(&self, value: T) -> (found: bool)
        ensures
            found == self@.contains(value),
    {
        proof {
            use_type_invariant(self);
            lemma_searched(self.root, value);
        }
        match self.get_root() {
            None => false,
            Some(node) => node.contains(value),
        }
    }

    // the leftmost key of a tree is its smallest
    fn min(&self) -> (min: Option<T>)
        ensures
            total_order::<T>() ==> match min {
                None => self@ == Set::<T>::empty(),
                Some(least) => self@.contains(least) && forall|key: T|
                    #[trigger] self@.contains(key) ==> !lt(key, least),
            },
    {
        proof {
            use_type_invariant(self);
            if total_order::<T>() && self.root is Some {
                lemma_total_order::<T>();
                lemma_leftmost(*self.root.unwrap());
            }
        }
        match self.get_root() {
            None => None,
            Some(node) => Some(node.get_min_value_in_children()),
        }
    }

    // the rightmost key of a tree is its largest
    fn max(&self) -> (max: Option<T>)
        ensures
            total_order::<T>() ==> match max {
                None => self@ == Set::<T>::empty(),
                Some(greatest) => self@.contains(greatest) && forall|key: T|
                    #[trigger] self@.contains(key) ==> !lt(greatest, key),
            },
    {
        proof {
            use_type_invariant(self);
            if total_order::<T>() && self.root is Some {
                lemma_total_order::<T>();
                lemma_rightmost(*self.root.unwrap());
            }
        }
        match self.get_root() {
            None => None,
            Some(node) => Some(node.get_max_value_in_children()),
        }
    }
}

// extend from common tree node trait
impl<T: Ord + Copy + Debug + Display> CommonTreeNodeTrait<T> for TreeNode<T> {
    open spec fn left_link(&self) -> OptionFastRBTreeNode<T> {
        self.left
    }

    open spec fn right_link(&self) -> OptionFastRBTreeNode<T> {
        self.right
    }

    open spec fn key(&self) -> T {
        self.value
    }

    open spec fn key_set(&self) -> Set<T> {
        keys(Some(Box::new(*self)))
    }

    open spec fn in_order_keys(&self) -> Seq<T> {
        in_order(Some(Box::new(*self)))
    }

    open spec fn pre_order_keys(&self) -> Seq<T> {
        pre_order(Some(Box::new(*self)))
    }

    open spec fn in_search_order(&self) -> bool {
        ordered(Some(Box::new(*self)))
    }

    open spec fn finds(&self, value: T) -> bool {
        searched(Some(Box::new(*self)), value)
    }

    /// The absent children below the node: two below a node without
    /// children.
    open spec fn leaf_count(&self) -> nat {
        leaves(Some(Box::new(*self)))
    }

    /// An absent child counts as one level, so that a node without children
    /// has two.
    open spec fn level_count(&self) -> nat {
        levels(Some(Box::new(*self)))
    }

    open spec fn in_order_nodes(&self) -> Seq<Self> {
        in_order_nodes(Some(Box::new(*self)))
    }

    open spec fn pre_order_nodes(&self) -> Seq<Self> {
        pre_order_nodes(Some(Box::new(*self)))
    }

    /// The key as it is displayed, then the letter of the color.
    open spec fn is_label(&self, text: Seq<char>) -> bool {
        label_of(self.value, self.color, text)
    }

    open spec fn leftmost_key(&self) -> T {
        leftmost(*self)
    }

    open spec fn rightmost_key(&self) -> T {
        rightmost(*self)
    }

    fn get_left(&self) -> (left: &OptionFastRBTreeNode<T>) {
        &self.left
    }

    fn get_right(&self) -> (right: &OptionFastRBTreeNode<T>) {
        &self.right
    }

    fn get_value(&self) -> (value: T) {
        self.value
    }

    fn get_value_to_print(&self) -> (text: String) {
        let value = self.value.to_string();
        let color = self.color.to_string();
        value.concat(color)
    }

    fn get_height(&self) -> (height: u32)
        decreases self,
    {
        proof {
            reveal_with_fuel(levels, 2);
        }
        let left_height = match self.get_left() {
            None => 1,
            Some(l) => l.get_height(),
        };
        let right_height = match self.get_right() {
            None => 1,
            Some(r) => r.get_height(),
        };
        if left_height >= right_height {
            left_height + 1
        } else {
            right_height + 1
        }
    }

    fn count_leaves(&self) -> (count: u32)
        decreases self,
    {
        proof {
            reveal_with_fuel(leaves, 2);
        }
        match (self.get_left(), self.get_right()) {
            (None, None) => 2,
            (None, Some(right)) => 1 + right.count_leaves(),
            (Some(left), None) => 1 + left.count_leaves(),
            (Some(left), Some(right)) => right.count_leaves() + left.count_leaves(),
        }
    }

    fn in_order_traversal_for_test(&self, container: &mut Vec<T>)
        decreases self,
    {
        proof {
            reveal_with_fuel(in_order, 2);
        }
        match self.get_left() {
            Some(left) => {
                left.in_order_traversal_for_test(container);
            },
            None => {},
        }
        container.push(self.get_value());
        match self.get_right() {
            Some(right) => {
                right.in_order_traversal_for_test(container);
            },
            None => {},
        }
        assert(final(container)@ =~= old(container)@ + self.in_order_keys());
    }

    fn pre_order_traversal_for_test(&self, container: &mut Vec<T>)
        decreases self,
    {
        proof {
            reveal_with_fuel(pre_order, 2);
        }
        container.push(self.get_value());
        match self.get_left() {
            Some(left) => {
                left.pre_order_traversal_for_test(container);
            },
            None => {},
        }
        match self.get_right() {
            Some(right) => {
                right.pre_order_traversal_for_test(container);
            },
            None => {},
        }
        assert(final(container)@ =~= old(container)@ + self.pre_order_keys());
    }

    fn in_order_traversal(&self, container: &mut Vec<String>)
        decreases self,
    {
        proof {
            reveal_with_fuel(in_order_nodes, 2);
        }
        match self.get_left() {
            Some(left) => {
                left.in_order_traversal(container);
            },
            None => {},
        }
        container.push(self.get_value_to_print());
        match self.get_right() {
            Some(right) => {
                right.in_order_traversal(container);
            },
            None => {},
        }
    }

    fn pre_order_traversal(&self, container: &mut Vec<String>)
        decreases self,
    {
        proof {
            reveal_with_fuel(pre_order_nodes, 2);
        }
        container.push(self.get_value_to_print());
        match self.get_left() {
            Some(left) => {
                left.pre_order_traversal(container);
            },
            None => {},
        }
        match self.get_right() {
            Some(right) => {
                right.pre_order_traversal(container);
            },
            None => {},
        }
    }

    fn contains(&self, value: T) -> (found: bool)
        decreases self,
    {
        proof {
            lemma_operators::<T>();
            reveal_with_fuel(searched, 2);
            if self.in_search_order() {
                lemma_searched(Some(Box::new(*self)), value);
            }
        }
        let current_value = self.get_value();
        if current_value == value {
            true
        } else if current_value > value {
            match self.get_left() {
                None => false,
                Some(node) => node.contains(value),
            }
        } else {
            match self.get_right() {
                None => false,
                Some(node) => node.contains(value),
            }
        }
    }

    fn get_min_value_in_children(&self) -> (min: T)
        decreases self,
    {
        match self.get_left() {
            Some(left) => left.get_min_value_in_children(),
            None => self.get_value(),
        }
    }

    fn get_max_value_in_children(&self) -> (max: T)
        decreases self,
    {
        match self.get_right() {
            Some(right) => right.get_max_value_in_children(),
            None => self.get_value(),
        }
    }
}

impl<T: Ord + Copy + Debug + Display> View for FastRBTree<T> {
    type V = Set<T>;

    /// The keys that the tree holds.
    open spec fn view(&self) -> Set<T> {
        keys(self.root())
    }
}

/// Implementations of FastRBTree
impl<T: Ord + Copy + Debug + Display> FastRBTree<T> {
    /// The tree is at rest: its keys are in search order, every path from
    /// the root down passes the same number of Black nodes, no Red link
    /// leans to the right or follows a Red link, and the root is Black.
    pub open spec fn well_formed(&self) -> bool {
        red_black(self.root())
    }

    /// Every tree is at rest whenever it can be looked at.
    #[verifier::type_invariant]
    spec fn at_rest(self) -> bool {
        red_black(self.root)
    }

    /// Create a new red-black Tree
    pub fn new() -> (tree: Self)
        ensures
            tree.root() is None,
            tree.well_formed(),
            tree@ == Set::<T>::empty(),
    {
        FastRBTree { root: None }
    }

    /// Insert a new value to the red-black Tree
    pub fn insert(&mut self, insert_value: T)
        requires
            total_order::<T>(),
        ensures
            final(self).root() == tree_inserted(old(self).root(), insert_value),
            final(self).well_formed(),
            final(self)@ == old(self)@.insert(insert_value),
    {
        proof {
            use_type_invariant(&*self);
            lemma_tree_inserted(self.root, insert_value);
        }
        let mut root = None;
        std::mem::swap(&mut root, &mut self.root);
        let mut new_root = TreeNode::node_insert(root, insert_value);
        match &mut new_root {
            Some(node) => {
                node.color = NodeColor::Black;
            },
            None => {},
        }
        self.root = new_root;
    }

    /// Delete a value from the red-black Tree
    pub fn delete(&mut self, delete_value: T)
        requires
            total_order::<T>(),
        ensures
            final(self).root() == tree_deleted(old(self).root(), delete_value),
            final(self).well_formed(),
            final(self)@ == old(self)@.remove(delete_value),
    {
        proof {
            use_type_invariant(&*self);
            lemma_tree_deleted(self.root, delete_value);
        }
        let mut root = None;
        std::mem::swap(&mut root, &mut self.root);
        match root {
            None => (),
            Some(mut root) => {
                if TreeNode::is_black(root.get_left()) && TreeNode::is_black(root.get_right()) {
                    root.color = NodeColor::Red;
                }
                let mut new_root = TreeNode::node_delete(Some(root), delete_value);
                match &mut new_root {
                    Some(node) => {
                        node.color = NodeColor::Black;
                    },
                    None => {},
                }
                self.root = new_root;
            },
        }
    }

    /// Appends the keys of `node` and of the nodes below it to `container`,
    /// every node before its subtrees.
    pub fn pre_order_traverse(&self, node: &FastRBTreeNode<T>, container: &mut Vec<T>)
        ensures
            final(container)@ == old(container)@ + pre_order(Some(*node)),
        decreases node,
    {
        proof {
            reveal_with_fuel(pre_order, 2);
        }
        container.push(node.value);
        match &node.left {
            Some(left) => {
                self.pre_order_traverse(left, container);
            },
            None => {},
        }
        match &node.right {
            Some(right) => {
                self.pre_order_traverse(right, container);
            },
            None => {},
        }
        assert(final(container)@ =~= old(container)@ + pre_order(Some(*node)));
    }

    /// Return true if every path from any node to all of its descendent Nil
    /// nodes has the same number of black nodes.
    pub fn is_valid_red_black_tree(root: &OptionFastRBTreeNode<T>) -> (valid: bool)
        requires
            levels(*root) <= usize::MAX,
        ensures
            valid == balanced(*root),
    {
        let result = TreeNode::calculate_black_height(root);
        match result {
            Some(_) => true,
            None => false,
        }
    }
}

impl<T: Ord + Copy + Debug + Display> TreeNode<T> {
    /// Create a new Red node without children.
    pub fn new(value: T) -> (node: Self)
        ensures
            node == leaf(value),
    {
        TreeNode { color: NodeColor::Red, value: value, left: None, right: None }
    }

    /// Insert `insert_value` into the subtree, fix up every node on the way
    /// back, and return the new root of the subtree.
    pub fn node_insert(node: OptionFastRBTreeNode<T>, insert_value: T) -> (res:
        OptionFastRBTreeNode<T>)
        requires
            total_order::<T>(),
        ensures
            res == Some(Box::new(inserted(node, insert_value))),
        decreases node,
    {
        match node {
            None => Some(Box::new(TreeNode::new(insert_value))),
            Some(mut n) => {
                proof {
                    lemma_operators::<T>();
                }
                let node_value = n.value;
                if insert_value < node_value {
                    let left = n.left.take();
                    n.left = Self::node_insert(left, insert_value);
                } else if insert_value > node_value {
                    let right = n.right.take();
                    n.right = Self::node_insert(right, insert_value);
                } else {
                    n.value = insert_value;
                }
                Self::maintain(n)
            },
        }
    }

    /// Delete `delete_value` from the subtree, fix up every node on the way
    /// back, and return the new root of the subtree.
    pub fn node_delete(node: OptionFastRBTreeNode<T>, delete_value: T) -> (res:
        OptionFastRBTreeNode<T>)
        requires
            total_order::<T>(),
        ensures
            res == deleted(node, delete_value),
        decreases size(node),
    {
        match node {
            None => None,
            Some(mut n) => {
                proof {
                    lemma_operators::<T>();
                    lemma_opened_size(*n);
                }
                if delete_value < n.value {
                    if n.left.is_some() && Self::is_black(&n.left) && Self::is_black(
                        Self::left_child(&n.left),
                    ) {
                        n = Self::move_red_left(Some(n));
                    }
                    let left = n.left.take();
                    n.left = Self::node_delete(left, delete_value);
                } else {
                    if Self::is_red(&n.left) {
                        n = Self::right_rotate(n);
                    }
                    if delete_value == n.value && n.right.is_none() {
                        return None;
                    }
                    proof {
                        lemma_opened_size(*n);
                    }
                    if n.right.is_some() && Self::is_black(&n.right) && Self::is_black(
                        Self::left_child(&n.right),
                    ) {
                        n = Self::move_red_right(Some(n));
                    }
                    if delete_value == n.value {
                        // the smallest key of the right subtree takes the place
                        // of the deleted one, and is deleted there
                        let min_value = match &n.right {
                            Some(right) => right.get_min_value_in_children(),
                            None => n.value,
                        };
                        n.value = min_value;
                        let right = n.right.take();
                        n.right = Self::node_delete(right, min_value);
                    } else {
                        let right = n.right.take();
                        n.right = Self::node_delete(right, delete_value);
                    }
                }
                Self::maintain(n)
            },
        }
    }

    /// Repair the coloring at `node` after a change below it, and return the
    /// root that the subtree then has.
    pub fn maintain(node: FastRBTreeNode<T>) -> (res: OptionFastRBTreeNode<T>)
        ensures
            res == Some(Box::new(maintained(*node))),
    {
        // if right is red and left is black, then left rotate
        if Self::is_red(&node.right) && Self::is_black(&node.left) {
            let temp1 = Self::left_rotate(node);
            // if left and left's left are both red, then right rotate; the
            // left child is the node that came down, above its Black left
            // child, so that there is nothing to rotate
            if Self::is_red(&temp1.left) && Self::is_red(Self::left_child(&temp1.left)) {
                let mut temp2 = Self::right_rotate(temp1);
                if Self::is_red(&temp2.left) && Self::is_red(&temp2.right) {
                    Self::flip_color(&mut *temp2);
                }
                return Some(temp2);
            }
            return Some(temp1);
        }
        // if left and left's left are both red, then right rotate
        if Self::is_red(&node.left) && Self::is_red(Self::left_child(&node.left)) {
            let mut temp1 = Self::right_rotate(node);
            // if left and right are both red, then change color
            if Self::is_red(&temp1.left) && Self::is_red(&temp1.right) {
                Self::flip_color(&mut *temp1);
            }
            return Some(temp1);
        }
        // if left and right are both red, then change color
        let mut node = node;
        if Self::is_red(&node.left) && Self::is_red(&node.right) {
            Self::flip_color(&mut *node);
        }
        Some(node)
    }

    /// Move a Red link into the left subtree of `node`, where a deletion is
    /// about to go on, and return the new root of the subtree.
    pub fn move_red_left(node: OptionFastRBTreeNode<T>) -> (res: FastRBTreeNode<T>)
        requires
            node is Some,
        ensures
            *res == moved_red_left(*node.unwrap()),
    {
        let mut n = node.unwrap();
        Self::push_red_down(&mut *n);
        if Self::is_red(Self::left_child(&n.right)) {
            let right = n.right.take();
            n.right = Some(Self::right_rotate(right.unwrap()));
            n = Self::left_rotate(n);
            Self::flip_color(&mut *n);
        }
        n
    }

    /// Move a Red link into the right subtree of `node`, where a deletion is
    /// about to go on, and return the new root of the subtree.
    pub fn move_red_right(node: OptionFastRBTreeNode<T>) -> (res: FastRBTreeNode<T>)
        requires
            node is Some,
        ensures
            *res == moved_red_right(*node.unwrap()),
    {
        let mut n = node.unwrap();
        Self::push_red_down(&mut *n);
        if Self::is_red(Self::left_child(&n.left)) {
            n = Self::right_rotate(n);
            Self::flip_color(&mut *n);
        }
        n
    }

    /// Rotate the subtree rooted at this node to the left and
    /// return the new root of the subtree.
    pub fn left_rotate(node: FastRBTreeNode<T>) -> (res: FastRBTreeNode<T>)
        requires
            node.right is Some,
        ensures
            *res == rotated_left(*node),
    {
        let mut node = node;
        let mut node_right = node.right.take().unwrap();
        node.right = node_right.left.take();
        node_right.color = node.color;
        node.color = NodeColor::Red;
        node_right.left = Some(node);
        node_right
    }

    /// Rotate the subtree rooted at this node to the right and
    /// return the new root of the subtree.
    pub fn right_rotate(node: FastRBTreeNode<T>) -> (res: FastRBTreeNode<T>)
        requires
            node.left is Some,
        ensures
            *res == rotated_right(*node),
    {
        let mut node = node;
        let mut node_left = node.left.take().unwrap();
        node.left = node_left.right.take();
        node_left.color = node.color;
        node.color = NodeColor::Red;
        node_left.right = Some(node);
        node_left
    }

    /// Whether a possibly absent node is Red.
    pub fn is_red(node: &OptionFastRBTreeNode<T>) -> (r: bool)
        ensures
            r == red(*node),
    {
        Self::get_color(node) == NodeColor::Red
    }

    /// Whether a possibly absent node is Black; an absent one is.
    pub fn is_black(node: &OptionFastRBTreeNode<T>) -> (r: bool)
        ensures
            r == !red(*node),
    {
        Self::get_color(node) == NodeColor::Black
    }

    /// Make `node` Red and both its children Black.
    pub fn flip_color(node: &mut TreeNode<T>)
        ensures
            *final(node) == flipped(*old(node)),
    {
        match &mut node.left {
            Some(l) => {
                l.color = NodeColor::Black;
            },
            None => {},
        }
        match &mut node.right {
            Some(r) => {
                r.color = NodeColor::Black;
            },
            None => {},
        }
        node.color = NodeColor::Red;
    }

    /// Make `node` Black and both its children Red: the node lends its Red
    /// color to the subtrees below it.
    pub fn push_red_down(node: &mut TreeNode<T>)
        ensures
            *final(node) == pushed_down(*old(node)),
    {
        match &mut node.left {
            Some(l) => {
                l.color = NodeColor::Red;
            },
            None => {},
        }
        match &mut node.right {
            Some(r) => {
                r.color = NodeColor::Red;
            },
            None => {},
        }
        node.color = NodeColor::Black;
    }

    /// The black-height of the subtree where it is the same on every path
    /// down, and `None` where two paths differ.
    pub fn calculate_black_height(node: &OptionFastRBTreeNode<T>) -> (res: Option<usize>)
        requires
            levels(*node) <= usize::MAX,
        ensures
            match res {
                Some(height) => balanced(*node) && height == black_height(*node),
                None => !balanced(*node),
            },
        decreases *node,
    {
        match node {
            None => Some(1),
            Some(node) => {
                proof {
                    lemma_levels(node.left);
                    lemma_levels(node.right);
                }
                let left_height = Self::calculate_black_height(&node.left);
                let right_height = Self::calculate_black_height(&node.right);
                match (left_height, right_height) {
                    (Some(left_height), Some(right_height)) => {
                        if left_height != right_height {
                            // the two children have unequal black-heights
                            None
                        } else {
                            // the black-height of the children, plus 1 if the node is black
                            match node.color {
                                NodeColor::Red => Some(left_height),
                                NodeColor::Black => Some(left_height + 1),
                            }
                        }
                    },
                    _ => None,
                }
            },
        }
    }

    /// Release both subtrees of the node.
    pub fn clear(&mut self)
        ensures
            final(self).left is None,
            final(self).right is None,
            final(self).color == old(self).color,
            final(self).value == old(self).value,
    {
        self.left = None;
        self.right = None;
    }

    /// Color of a possibly absent node: an absent one is a Black leaf.
    pub fn get_color(node: &OptionFastRBTreeNode<T>) -> (c: NodeColor)
        ensures
            c == color_of(*node),
    {
        match node {
            None => NodeColor::Black,
            Some(n) => n.color,
        }
    }

    /// The left subtree of a possibly absent node.
    fn left_child(node: &OptionFastRBTreeNode<T>) -> (l: &OptionFastRBTreeNode<T>)
        ensures
            *l == left_of(*node),
    {
        match node {
            None => node,
            Some(n) => &n.left,
        }
    }
}

} // verus!
