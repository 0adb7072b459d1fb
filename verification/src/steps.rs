//! The balancing engine as functions on values: what each step of an
//! insertion or a deletion makes of a subtree.

use crate::order::lt;
use crate::rb_tree_fast::{NodeColor, OptionFastRBTreeNode, TreeNode};
use crate::shape::{left_of, leftmost, red, size};
use std::fmt::{Debug, Display};
use vstd::prelude::*;

verus! {

/// A fresh Red node without children.
pub open spec fn leaf<T: Ord + Copy + Debug + Display>(value: T) -> TreeNode<T> {
    TreeNode { color: NodeColor::Red, value, left: None, right: None }
}

/// `n` with its color replaced by `color`.
pub open spec fn painted<T: Ord + Copy + Debug + Display>(
    n: TreeNode<T>,
    color: NodeColor,
) -> TreeNode<T> {
    TreeNode { color, value: n.value, left: n.left, right: n.right }
}

/// `link` with the color of its root, if it has one, replaced by `color`.
pub open spec fn painted_link<T: Ord + Copy + Debug + Display>(
    link: OptionFastRBTreeNode<T>,
    color: NodeColor,
) -> OptionFastRBTreeNode<T> {
    match link {
        None => None,
        Some(n) => Some(Box::new(painted(*n, color))),
    }
}

/// Left rotation: the right child of `n` becomes the root and takes the
/// color of `n`; `n` becomes its Red left child and adopts the former left
/// subtree of the new root as its right subtree.
pub open spec fn rotated_left<T: Ord + Copy + Debug + Display>(n: TreeNode<T>) -> TreeNode<T>
    recommends
        n.right is Some,
{
    let r = n.right.unwrap();
    TreeNode {
        color: n.color,
        value: r.value,
        left: Some(
            Box::new(
                TreeNode { color: NodeColor::Red, value: n.value, left: n.left, right: r.left },
            ),
        ),
        right: r.right,
    }
}

/// Right rotation, the mirror image of [`rotated_left`].
pub open spec fn rotated_right<T: Ord + Copy + Debug + Display>(n: TreeNode<T>) -> TreeNode<T>
    recommends
        n.left is Some,
{
    let l = n.left.unwrap();
    TreeNode {
        color: n.color,
        value: l.value,
        left: l.left,
        right: Some(
            Box::new(
                TreeNode { color: NodeColor::Red, value: n.value, left: l.right, right: n.right },
            ),
        ),
    }
}

/// Color flip: `n` becomes Red and both its children Black.
pub open spec fn flipped<T: Ord + Copy + Debug + Display>(n: TreeNode<T>) -> TreeNode<T> {
    TreeNode {
        color: NodeColor::Red,
        value: n.value,
        left: painted_link(n.left, NodeColor::Black),
        right: painted_link(n.right, NodeColor::Black),
    }
}

/// The reverse of a color flip: `n` becomes Black and both its children Red.
pub open spec fn pushed_down<T: Ord + Copy + Debug + Display>(n: TreeNode<T>) -> TreeNode<T> {
    TreeNode {
        color: NodeColor::Black,
        value: n.value,
        left: painted_link(n.left, NodeColor::Red),
        right: painted_link(n.right, NodeColor::Red),
    }
}

/// The fixup of one node. Of the three shapes that may not stay, the first
/// that is found at `n` is repaired:
/// a Red right child beside a Black left child is rotated to the left, which
/// brings `n` down above its Black left child, so that no second rotation
/// follows;
/// a Red left child with a Red left child of its own is rotated to the right,
/// which leaves two Red children, and these are flipped;
/// two Red children are flipped.
pub open spec fn maintained<T: Ord + Copy + Debug + Display>(n: TreeNode<T>) -> TreeNode<T> {
    if red(n.right) && !red(n.left) {
        rotated_left(n)
    } else if red(n.left) && red(left_of(n.left)) {
        flipped(rotated_right(n))
    } else if red(n.left) && red(n.right) {
        flipped(n)
    } else {
        n
    }
}

/// The subtree that an insertion of `value` makes of `link`: a fresh Red
/// leaf where `link` is empty; else the insertion goes on in the left or the
/// right subtree, or overwrites the key that equals `value`, and the node is
/// fixed up on the way back.
pub open spec fn inserted<T: Ord + Copy + Debug + Display>(
    link: OptionFastRBTreeNode<T>,
    value: T,
) -> TreeNode<T>
    decreases link,
{
    match link {
        None => leaf(value),
        Some(n) => if lt(value, n.value) {
            maintained(
                TreeNode {
                    color: n.color,
                    value: n.value,
                    left: Some(Box::new(inserted(n.left, value))),
                    right: n.right,
                },
            )
        } else if lt(n.value, value) {
            maintained(
                TreeNode {
                    color: n.color,
                    value: n.value,
                    left: n.left,
                    right: Some(Box::new(inserted(n.right, value))),
                },
            )
        } else {
            maintained(TreeNode { color: n.color, value, left: n.left, right: n.right })
        },
    }
}

/// The root after `value` was inserted into the tree under `root`: the
/// subtree that the insertion made, its root forced Black.
pub open spec fn tree_inserted<T: Ord + Copy + Debug + Display>(
    root: OptionFastRBTreeNode<T>,
    value: T,
) -> OptionFastRBTreeNode<T> {
    Some(Box::new(painted(inserted(root, value), NodeColor::Black)))
}

/// Before a deletion goes on in a Black left child whose own left child is
/// Black too, a Red link is moved there: the node lends its color to both its
/// children, and where the right child has a Red left child that one is
/// rotated up to the root, which hands the Red color from the right child
/// back.
pub open spec fn moved_red_left<T: Ord + Copy + Debug + Display>(n: TreeNode<T>) -> TreeNode<T> {
    let m = pushed_down(n);
    if red(left_of(m.right)) {
        flipped(
            rotated_left(
                TreeNode {
                    color: m.color,
                    value: m.value,
                    left: m.left,
                    right: Some(Box::new(rotated_right(*m.right.unwrap()))),
                },
            ),
        )
    } else {
        m
    }
}

/// Before a deletion goes on in a Black right child whose left child is
/// Black too, a Red link is moved there: the node lends its color to both its
/// children, and where the left child has a Red left child of its own the
/// node is rotated to the right and flipped.
pub open spec fn moved_red_right<T: Ord + Copy + Debug + Display>(n: TreeNode<T>) -> TreeNode<T> {
    let m = pushed_down(n);
    if red(left_of(m.left)) {
        flipped(rotated_right(m))
    } else {
        m
    }
}

/// The node as it is when a deletion goes on in its left subtree.
pub open spec fn opened_left<T: Ord + Copy + Debug + Display>(n: TreeNode<T>) -> TreeNode<T> {
    if n.left is Some && !red(n.left) && !red(left_of(n.left)) {
        moved_red_left(n)
    } else {
        n
    }
}

/// The node as it is when a deletion turns to its right: a Red left child is
/// rotated to the right first.
pub open spec fn turned_right<T: Ord + Copy + Debug + Display>(n: TreeNode<T>) -> TreeNode<T> {
    if red(n.left) {
        rotated_right(n)
    } else {
        n
    }
}

/// The node as it is when a deletion goes on in its right subtree.
pub open spec fn opened_right<T: Ord + Copy + Debug + Display>(n: TreeNode<T>) -> TreeNode<T> {
    if n.right is Some && !red(n.right) && !red(left_of(n.right)) {
        moved_red_right(n)
    } else {
        n
    }
}

/// None of the steps that open a node for a deletion changes the number of
/// its nodes.
pub proof fn lemma_opened_size<T: Ord + Copy + Debug + Display>(n: TreeNode<T>)
    ensures
        size(Some(Box::new(opened_left(n)))) == size(Some(Box::new(n))),
        size(Some(Box::new(turned_right(n)))) == size(Some(Box::new(n))),
        size(Some(Box::new(opened_right(n)))) == size(Some(Box::new(n))),
{
    reveal_with_fuel(size, 4);
}

/// The subtree that a deletion of `key` makes of `link`.
///
/// Where `key` is smaller than the key of the root, the deletion goes on in
/// the left subtree, opened by [`opened_left`]. Else a Red left child is
/// rotated to the right; a node that holds `key` and has no right subtree is
/// removed; the right subtree is opened by [`opened_right`]; a node that holds
/// `key` takes the smallest key of its right subtree in its place, and that
/// key is deleted there; any other deletion goes on in the right subtree.
/// Every node is fixed up on the way back. A `key` that is not stored changes
/// no key.
pub open spec fn deleted<T: Ord + Copy + Debug + Display>(
    link: OptionFastRBTreeNode<T>,
    key: T,
) -> OptionFastRBTreeNode<T>
    decreases size(link),
{
    match link {
        None => None,
        Some(n) => if lt(key, n.value) {
            let n1 = opened_left(*n);
            proof {
                lemma_opened_size(*n);
            }
            Some(
                Box::new(
                    maintained(
                        TreeNode {
                            color: n1.color,
                            value: n1.value,
                            left: deleted(n1.left, key),
                            right: n1.right,
                        },
                    ),
                ),
            )
        } else {
            let n1 = turned_right(*n);
            if key == n1.value && n1.right is None {
                None
            } else {
                let n2 = opened_right(n1);
                proof {
                    lemma_opened_size(*n);
                    lemma_opened_size(n1);
                }
                if key == n2.value {
                    let successor = leftmost(*n2.right.unwrap());
                    Some(
                        Box::new(
                            maintained(
                                TreeNode {
                                    color: n2.color,
                                    value: successor,
                                    left: n2.left,
                                    right: deleted(n2.right, successor),
                                },
                            ),
                        ),
                    )
                } else {
                    Some(
                        Box::new(
                            maintained(
                                TreeNode {
                                    color: n2.color,
                                    value: n2.value,
                                    left: n2.left,
                                    right: deleted(n2.right, key),
                                },
                            ),
                        ),
                    )
                }
            }
        },
    }
}

/// The root after `key` was deleted from the tree under `root`: a root with
/// two Black children is made Red before the deletion, and the root that the
/// deletion leaves is forced Black.
pub open spec fn tree_deleted<T: Ord + Copy + Debug + Display>(
    root: OptionFastRBTreeNode<T>,
    key: T,
) -> OptionFastRBTreeNode<T> {
    match root {
        None => None,
        Some(r) => {
            let start = if !red(r.left) && !red(r.right) {
                painted(*r, NodeColor::Red)
            } else {
                *r
            };
            painted_link(deleted(Some(Box::new(start)), key), NodeColor::Black)
        },
    }
}

} // verus!
