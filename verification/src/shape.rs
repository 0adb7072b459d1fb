//! What a subtree is, read off its nodes: its keys, its colors, its heights.

use crate::order::lt;
use crate::rb_tree_fast::{NodeColor, OptionFastRBTreeNode, TreeNode};
use std::fmt::{Debug, Display};
use vstd::prelude::*;

verus! {

/// Color of the root of `link`; an empty subtree is Black.
pub open spec fn color_of<T: Ord + Copy + Debug + Display>(
    link: OptionFastRBTreeNode<T>,
) -> NodeColor {
    match link {
        None => NodeColor::Black,
        Some(n) => n.color,
    }
}

/// The root of `link` is a Red node.
pub open spec fn red<T: Ord + Copy + Debug + Display>(link: OptionFastRBTreeNode<T>) -> bool {
    color_of(link) == NodeColor::Red
}

/// Left subtree of the root of `link`, empty where `link` is.
pub open spec fn left_of<T: Ord + Copy + Debug + Display>(
    link: OptionFastRBTreeNode<T>,
) -> OptionFastRBTreeNode<T> {
    match link {
        None => None,
        Some(n) => n.left,
    }
}

/// Right subtree of the root of `link`, empty where `link` is.
pub open spec fn right_of<T: Ord + Copy + Debug + Display>(
    link: OptionFastRBTreeNode<T>,
) -> OptionFastRBTreeNode<T> {
    match link {
        None => None,
        Some(n) => n.right,
    }
}

/// Number of nodes in `link`.
pub open spec fn size<T: Ord + Copy + Debug + Display>(link: OptionFastRBTreeNode<T>) -> nat
    decreases link,
{
    match link {
        None => 0,
        Some(n) => 1 + size(n.left) + size(n.right),
    }
}

/// The keys stored in `link`.
pub open spec fn keys<T: Ord + Copy + Debug + Display>(link: OptionFastRBTreeNode<T>) -> Set<T>
    decreases link,
{
    match link {
        None => Set::empty(),
        Some(n) => keys(n.left).union(keys(n.right)).insert(n.value),
    }
}

/// Search-tree ordering: at every node the keys to the left are smaller and
/// the keys to the right are larger.
pub open spec fn ordered<T: Ord + Copy + Debug + Display>(link: OptionFastRBTreeNode<T>) -> bool
    decreases link,
{
    match link {
        None => true,
        Some(n) => {
            &&& ordered(n.left)
            &&& ordered(n.right)
            &&& forall|k: T| #[trigger] keys(n.left).contains(k) ==> lt(k, n.value)
            &&& forall|k: T| #[trigger] keys(n.right).contains(k) ==> lt(n.value, k)
        },
    }
}

/// Whether the search for `value` finds it in `link`: the search ends at a
/// node that holds `value`, goes on to the left of a node with a larger key
/// and to the right of a node with a smaller one, and fails at an empty
/// subtree.
pub open spec fn searched<T: Ord + Copy + Debug + Display>(
    link: OptionFastRBTreeNode<T>,
    value: T,
) -> bool
    decreases link,
{
    match link {
        None => false,
        Some(n) => if n.value == value {
            true
        } else if lt(value, n.value) {
            searched(n.left, value)
        } else {
            searched(n.right, value)
        },
    }
}

/// Number of Black nodes on the leftmost path of `link`, the closing empty
/// subtree counted as one.
pub open spec fn black_height<T: Ord + Copy + Debug + Display>(
    link: OptionFastRBTreeNode<T>,
) -> nat
    decreases link,
{
    match link {
        None => 1,
        Some(n) => black_height(n.left) + if n.color == NodeColor::Black {
            1nat
        } else {
            0nat
        },
    }
}

/// Uniform black-height: at every node both subtrees have the same
/// black-height, so that every path down to an empty subtree passes the same
/// number of Black nodes.
pub open spec fn balanced<T: Ord + Copy + Debug + Display>(link: OptionFastRBTreeNode<T>) -> bool
    decreases link,
{
    match link {
        None => true,
        Some(n) => {
            &&& balanced(n.left)
            &&& balanced(n.right)
            &&& black_height(n.left) == black_height(n.right)
        },
    }
}

/// The coloring at rest: no node has a Red right child, and no Red node has
/// a Red left child.
pub open spec fn left_leaning<T: Ord + Copy + Debug + Display>(
    link: OptionFastRBTreeNode<T>,
) -> bool
    decreases link,
{
    match link {
        None => true,
        Some(n) => {
            &&& left_leaning(n.left)
            &&& left_leaning(n.right)
            &&& !red(n.right)
            &&& n.color == NodeColor::Red ==> !red(n.left)
        },
    }
}

/// A whole tree at rest between two operations: ordered, balanced,
/// left-leaning, and its root Black.
pub open spec fn red_black<T: Ord + Copy + Debug + Display>(root: OptionFastRBTreeNode<T>) -> bool {
    &&& ordered(root)
    &&& balanced(root)
    &&& left_leaning(root)
    &&& !red(root)
}

/// The keys of `link`, left subtree first, then the root, then the right
/// subtree.
pub open spec fn in_order<T: Ord + Copy + Debug + Display>(link: OptionFastRBTreeNode<T>) -> Seq<T>
    decreases link,
{
    match link {
        None => Seq::empty(),
        Some(n) => in_order(n.left).push(n.value) + in_order(n.right),
    }
}

/// The keys of `link`, the root first, then the left subtree, then the right
/// subtree.
pub open spec fn pre_order<T: Ord + Copy + Debug + Display>(
    link: OptionFastRBTreeNode<T>,
) -> Seq<T>
    decreases link,
{
    match link {
        None => Seq::empty(),
        Some(n) => seq![n.value] + pre_order(n.left) + pre_order(n.right),
    }
}

/// The nodes of `link`, left subtree first, then the root, then the right
/// subtree.
pub open spec fn in_order_nodes<T: Ord + Copy + Debug + Display>(
    link: OptionFastRBTreeNode<T>,
) -> Seq<TreeNode<T>>
    decreases link,
{
    match link {
        None => Seq::empty(),
        Some(n) => in_order_nodes(n.left).push(*n) + in_order_nodes(n.right),
    }
}

/// The nodes of `link`, the root first, then the left subtree, then the
/// right subtree.
pub open spec fn pre_order_nodes<T: Ord + Copy + Debug + Display>(
    link: OptionFastRBTreeNode<T>,
) -> Seq<TreeNode<T>>
    decreases link,
{
    match link {
        None => Seq::empty(),
        Some(n) => seq![*n] + pre_order_nodes(n.left) + pre_order_nodes(n.right),
    }
}

/// The letter that stands for a color in a label: `r` for Red, `b` for
/// Black.
pub open spec fn color_letter(color: NodeColor) -> Seq<char> {
    match color {
        NodeColor::Red => "r"@,
        NodeColor::Black => "b"@,
    }
}

/// `text` is a label of a node with the key `value` and the color `color`:
/// the key as it is displayed, then the letter of the color.
pub open spec fn label_of<T: Display>(value: T, color: NodeColor, text: Seq<char>) -> bool {
    exists|shown: String| #[trigger]
        vstd::string::to_string_from_display_ensures::<T>(&value, shown) && text == shown@
            + color_letter(color)
}

/// Number of levels of `link`, an empty subtree counted as one level.
pub open spec fn levels<T: Ord + Copy + Debug + Display>(link: OptionFastRBTreeNode<T>) -> nat
    decreases link,
{
    match link {
        None => 1,
        Some(n) => 1 + if levels(n.left) >= levels(n.right) {
            levels(n.left)
        } else {
            levels(n.right)
        },
    }
}

/// Number of empty subtrees that hang below `link`; an empty `link` is one.
pub open spec fn leaves<T: Ord + Copy + Debug + Display>(link: OptionFastRBTreeNode<T>) -> nat
    decreases link,
{
    match link {
        None => 1,
        Some(n) => leaves(n.left) + leaves(n.right),
    }
}

/// Key of the leftmost node below `n`.
pub open spec fn leftmost<T: Ord + Copy + Debug + Display>(n: TreeNode<T>) -> T
    decreases n,
{
    match n.left {
        None => n.value,
        Some(l) => leftmost(*l),
    }
}

/// Key of the rightmost node below `n`.
pub open spec fn rightmost<T: Ord + Copy + Debug + Display>(n: TreeNode<T>) -> T
    decreases n,
{
    match n.right {
        None => n.value,
        Some(r) => rightmost(*r),
    }
}

} // verus!
