//! Why the steps of the balancing engine keep a tree ordered, balanced and
//! left-leaning.

use crate::order::{lemma_total_order, lt, total_order};
use crate::rb_tree_fast::{NodeColor, OptionFastRBTreeNode, TreeNode};
use crate::shape::{
    balanced, black_height, keys, left_leaning, left_of, leftmost, levels, ordered, red,
    red_black, rightmost, searched, size,
};
use crate::steps::{
    deleted, flipped, inserted, lemma_opened_size, maintained, moved_red_left, moved_red_right,
    opened_left, opened_right, painted, painted_link, pushed_down, rotated_left, rotated_right,
    tree_deleted, tree_inserted, turned_right,
};
use std::fmt::{Debug, Display};
use vstd::prelude::*;

verus! {

/// A new color at the root changes neither the keys nor their order.
pub proof fn lemma_painted_content<T: Ord + Copy + Debug + Display>(
    link: OptionFastRBTreeNode<T>,
    color: NodeColor,
)
    ensures
        keys(painted_link(link, color)) == keys(link),
        ordered(painted_link(link, color)) == ordered(link),
{
}

/// A rotation to the left changes neither the keys nor their order.
pub proof fn lemma_rotated_left_content<T: Ord + Copy + Debug + Display>(n: TreeNode<T>)
    requires
        total_order::<T>(),
        n.right is Some,
        ordered(Some(Box::new(n))),
    ensures
        ordered(Some(Box::new(rotated_left(n)))),
        keys(Some(Box::new(rotated_left(n)))) == keys(Some(Box::new(n))),
{
    lemma_total_order::<T>();
    reveal_with_fuel(keys, 3);
    reveal_with_fuel(ordered, 3);
    let r = n.right.unwrap();
    let below = Some(
        Box::new(TreeNode { color: NodeColor::Red, value: n.value, left: n.left, right: r.left }),
    );
    assert(keys(n.right).contains(r.value));
    assert forall|k: T| #[trigger] keys(r.left).contains(k) implies lt(n.value, k) by {
        assert(keys(n.right).contains(k));
    }
    assert forall|k: T| #[trigger] keys(r.right).contains(k) implies lt(n.value, k) by {
        assert(keys(n.right).contains(k));
    }
    assert(ordered(below));
    assert(lt(n.value, r.value));
    assert forall|k: T| #[trigger] keys(below).contains(k) implies lt(k, r.value) by {
        if keys(n.left).contains(k) {
            assert(lt(k, n.value));
            assert(lt(k, r.value));
        } else if keys(r.left).contains(k) {
            assert(lt(k, r.value));
        } else {
            assert(k == n.value);
        }
    }
    assert(keys(Some(Box::new(rotated_left(n)))) =~= keys(Some(Box::new(n))));
}

/// A rotation to the right changes neither the keys nor their order.
pub proof fn lemma_rotated_right_content<T: Ord + Copy + Debug + Display>(n: TreeNode<T>)
    requires
        total_order::<T>(),
        n.left is Some,
        ordered(Some(Box::new(n))),
    ensures
        ordered(Some(Box::new(rotated_right(n)))),
        keys(Some(Box::new(rotated_right(n)))) == keys(Some(Box::new(n))),
{
    lemma_total_order::<T>();
    reveal_with_fuel(keys, 3);
    reveal_with_fuel(ordered, 3);
    let l = n.left.unwrap();
    let below = Some(
        Box::new(TreeNode { color: NodeColor::Red, value: n.value, left: l.right, right: n.right }),
    );
    assert(keys(n.left).contains(l.value));
    assert forall|k: T| #[trigger] keys(l.right).contains(k) implies lt(k, n.value) by {
        assert(keys(n.left).contains(k));
    }
    assert forall|k: T| #[trigger] keys(l.left).contains(k) implies lt(k, n.value) by {
        assert(keys(n.left).contains(k));
    }
    assert(ordered(below));
    assert(lt(l.value, n.value));
    assert forall|k: T| #[trigger] keys(below).contains(k) implies lt(l.value, k) by {
        if keys(n.right).contains(k) {
            assert(lt(n.value, k));
            assert(lt(l.value, k));
        } else if keys(l.right).contains(k) {
            assert(lt(l.value, k));
        } else {
            assert(k == n.value);
        }
    }
    assert(keys(Some(Box::new(rotated_right(n)))) =~= keys(Some(Box::new(n))));
}

/// Neither a color flip nor its reverse changes the keys or their order.
pub proof fn lemma_recolored_content<T: Ord + Copy + Debug + Display>(n: TreeNode<T>)
    ensures
        keys(Some(Box::new(flipped(n)))) == keys(Some(Box::new(n))),
        ordered(Some(Box::new(flipped(n)))) == ordered(Some(Box::new(n))),
        keys(Some(Box::new(pushed_down(n)))) == keys(Some(Box::new(n))),
        ordered(Some(Box::new(pushed_down(n)))) == ordered(Some(Box::new(n))),
{
    lemma_painted_content(n.left, NodeColor::Black);
    lemma_painted_content(n.right, NodeColor::Black);
    lemma_painted_content(n.left, NodeColor::Red);
    lemma_painted_content(n.right, NodeColor::Red);
}

/// The fixup of a node changes neither the keys nor their order.
pub proof fn lemma_maintained_content<T: Ord + Copy + Debug + Display>(n: TreeNode<T>)
    requires
        total_order::<T>(),
        ordered(Some(Box::new(n))),
    ensures
        ordered(Some(Box::new(maintained(n)))),
        keys(Some(Box::new(maintained(n)))) == keys(Some(Box::new(n))),
{
    if red(n.right) && !red(n.left) {
        lemma_rotated_left_content(n);
    } else if red(n.left) && red(left_of(n.left)) {
        lemma_rotated_right_content(n);
        lemma_recolored_content(rotated_right(n));
    } else if red(n.left) && red(n.right) {
        lemma_recolored_content(n);
    }
}

/// The children of the root of `link` are left-leaning and the right one is
/// not Red: nothing is amiss below the root, while the root and its left
/// child may both be Red.
pub open spec fn leaning_below<T: Ord + Copy + Debug + Display>(
    link: OptionFastRBTreeNode<T>,
) -> bool {
    match link {
        None => true,
        Some(n) => left_leaning(n.left) && left_leaning(n.right) && !red(n.right),
    }
}

/// What holds of a node when it is handed to the fixup, on the way back from
/// an insertion or a deletion below it.
pub open spec fn fixable<T: Ord + Copy + Debug + Display>(n: TreeNode<T>) -> bool {
    &&& balanced(Some(Box::new(n)))
    &&& leaning_below(n.left)
    &&& left_leaning(n.right)
    &&& red(n.right) ==> left_leaning(n.left)
    &&& n.color == NodeColor::Red ==> left_leaning(n.left) && !(red(n.left) && red(n.right))
}

/// The fixup of a fixable node keeps its black-height and leaves nothing
/// amiss below the new root; under a Black node, and under a Red node with
/// left-leaning Black children, nothing is amiss at the new root either.
pub proof fn lemma_maintained_shape<T: Ord + Copy + Debug + Display>(n: TreeNode<T>)
    requires
        fixable(n),
    ensures
        balanced(Some(Box::new(maintained(n)))),
        black_height(Some(Box::new(maintained(n)))) == black_height(Some(Box::new(n))),
        leaning_below(Some(Box::new(maintained(n)))),
        n.color == NodeColor::Black ==> left_leaning(Some(Box::new(maintained(n)))),
        left_leaning(n.left) && (n.color == NodeColor::Red ==> !red(n.left) && !red(n.right))
            ==> left_leaning(Some(Box::new(maintained(n)))),
        n.color == NodeColor::Black && left_leaning(n.left) && !(red(n.left) && red(n.right))
            ==> !red(Some(Box::new(maintained(n)))),
{
    reveal_with_fuel(balanced, 3);
    reveal_with_fuel(black_height, 4);
    reveal_with_fuel(left_leaning, 3);
}

/// An insertion into an ordered, balanced and left-leaning subtree adds the
/// key and nothing else, keeps the order and the black-height, and leaves
/// nothing amiss below the new root; where the old root was not Red, nothing
/// is amiss at the new root either.
pub proof fn lemma_inserted<T: Ord + Copy + Debug + Display>(
    link: OptionFastRBTreeNode<T>,
    value: T,
)
    requires
        total_order::<T>(),
        ordered(link),
        balanced(link),
        left_leaning(link),
    ensures
        ordered(Some(Box::new(inserted(link, value)))),
        keys(Some(Box::new(inserted(link, value)))) == keys(link).insert(value),
        balanced(Some(Box::new(inserted(link, value)))),
        black_height(Some(Box::new(inserted(link, value)))) == black_height(link),
        leaning_below(Some(Box::new(inserted(link, value)))),
        !red(link) ==> left_leaning(Some(Box::new(inserted(link, value)))),
    decreases link,
{
    lemma_total_order::<T>();
    reveal_with_fuel(left_leaning, 2);
    match link {
        None => {
            assert(keys(Some(Box::new(inserted(link, value)))) =~= keys(link).insert(value));
        },
        Some(n) => {
            let grown = if lt(value, n.value) {
                lemma_inserted(n.left, value);
                TreeNode {
                    color: n.color,
                    value: n.value,
                    left: Some(Box::new(inserted(n.left, value))),
                    right: n.right,
                }
            } else if lt(n.value, value) {
                lemma_inserted(n.right, value);
                TreeNode {
                    color: n.color,
                    value: n.value,
                    left: n.left,
                    right: Some(Box::new(inserted(n.right, value))),
                }
            } else {
                TreeNode { color: n.color, value, left: n.left, right: n.right }
            };
            assert(inserted(link, value) == maintained(grown));
            assert(keys(Some(Box::new(grown))) =~= keys(link).insert(value));
            assert(ordered(Some(Box::new(grown))));
            assert(fixable(grown));
            assert(black_height(Some(Box::new(grown))) == black_height(link));
            lemma_maintained_content(grown);
            lemma_maintained_shape(grown);
        },
    }
}

/// An insertion into a tree at rest adds the key and nothing else, and
/// leaves the tree at rest.
pub proof fn lemma_tree_inserted<T: Ord + Copy + Debug + Display>(
    root: OptionFastRBTreeNode<T>,
    value: T,
)
    requires
        total_order::<T>(),
        red_black(root),
    ensures
        red_black(tree_inserted(root, value)),
        keys(tree_inserted(root, value)) == keys(root).insert(value),
{
    lemma_inserted(root, value);
    lemma_painted_content(Some(Box::new(inserted(root, value))), NodeColor::Black);
}

/// Moving a Red link to the left or to the right changes neither the keys
/// nor their order.
pub proof fn lemma_moved_red_content<T: Ord + Copy + Debug + Display>(n: TreeNode<T>)
    requires
        total_order::<T>(),
        ordered(Some(Box::new(n))),
    ensures
        ordered(Some(Box::new(moved_red_left(n)))),
        keys(Some(Box::new(moved_red_left(n)))) == keys(Some(Box::new(n))),
        ordered(Some(Box::new(moved_red_right(n)))),
        keys(Some(Box::new(moved_red_right(n)))) == keys(Some(Box::new(n))),
{
    let m = pushed_down(n);
    lemma_recolored_content(n);
    if red(left_of(m.right)) {
        let r = *m.right.unwrap();
        lemma_rotated_right_content(r);
        let turned = TreeNode {
            color: m.color,
            value: m.value,
            left: m.left,
            right: Some(Box::new(rotated_right(r))),
        };
        assert(keys(Some(Box::new(turned))) =~= keys(Some(Box::new(m))));
        assert(ordered(Some(Box::new(turned))));
        lemma_rotated_left_content(turned);
        lemma_recolored_content(rotated_left(turned));
    }
    if red(left_of(m.left)) {
        lemma_rotated_right_content(m);
        lemma_recolored_content(rotated_right(m));
    }
}

/// What a deletion of `key` asks of the subtree that it enters: the subtree
/// is ordered and balanced, its two subtrees are left-leaning, and its root
/// is Red above two Black children, or Black above a Red left child, or,
/// where `key` is not smaller than the key of the root, Black above a Red
/// right child.
pub open spec fn deletable<T: Ord + Copy + Debug + Display>(
    link: OptionFastRBTreeNode<T>,
    key: T,
) -> bool {
    match link {
        None => true,
        Some(n) => {
            &&& ordered(link)
            &&& balanced(link)
            &&& left_leaning(n.left)
            &&& left_leaning(n.right)
            &&& {
                ||| n.color == NodeColor::Red && !red(n.left) && !red(n.right)
                ||| n.color == NodeColor::Black && red(n.left) && !red(n.right)
                ||| n.color == NodeColor::Black && !red(n.left) && red(n.right) && !lt(
                    key,
                    n.value,
                )
            }
        },
    }
}

/// A node that a deletion may enter, opened for a deletion to its left: the
/// keys, their order and the black-height are kept, the deletion may enter
/// the left subtree, and the fixup will find the node fixable on the way
/// back.
pub proof fn lemma_opened_left<T: Ord + Copy + Debug + Display>(n: TreeNode<T>, key: T)
    requires
        total_order::<T>(),
        deletable(Some(Box::new(n)), key),
        lt(key, n.value),
    ensures
        ordered(Some(Box::new(opened_left(n)))),
        keys(Some(Box::new(opened_left(n)))) == keys(Some(Box::new(n))),
        balanced(Some(Box::new(opened_left(n)))),
        black_height(Some(Box::new(opened_left(n)))) == black_height(Some(Box::new(n))),
        deletable(opened_left(n).left, key),
        left_leaning(opened_left(n).right),
        opened_left(n).color == NodeColor::Red ==> !red(opened_left(n).left) && !red(
            opened_left(n).right,
        ),
        n.color == NodeColor::Black ==> opened_left(n).color == NodeColor::Black && !red(
            opened_left(n).right,
        ),
        lt(key, opened_left(n).value),
{
    lemma_total_order::<T>();
    lemma_moved_red_content(n);
    if red(left_of(n.right)) {
        // where the left child of the right child moves up to the root, its
        // key is larger than `key`
        let x = n.right.unwrap().left.unwrap();
        reveal_with_fuel(keys, 3);
        assert(keys(n.right).contains(x.value));
        assert(lt(n.value, x.value));
        assert(lt(key, x.value));
    }
    reveal_with_fuel(balanced, 4);
    reveal_with_fuel(black_height, 5);
    reveal_with_fuel(left_leaning, 4);
    reveal_with_fuel(ordered, 2);
}

/// A node that a deletion may enter, opened for a deletion to its right: the
/// keys, their order and the black-height are kept, the deletion may enter
/// the right subtree, with the smallest key there where the node itself
/// holds `key`, and the fixup will find the node fixable on the way back.
pub proof fn lemma_opened_right<T: Ord + Copy + Debug + Display>(n: TreeNode<T>, key: T)
    requires
        total_order::<T>(),
        deletable(Some(Box::new(n)), key),
        !lt(key, n.value),
        !(key == turned_right(n).value && turned_right(n).right is None),
    ensures
        ordered(Some(Box::new(opened_right(turned_right(n))))),
        keys(Some(Box::new(opened_right(turned_right(n))))) == keys(Some(Box::new(n))),
        balanced(Some(Box::new(opened_right(turned_right(n))))),
        black_height(Some(Box::new(opened_right(turned_right(n))))) == black_height(
            Some(Box::new(n)),
        ),
        left_leaning(opened_right(turned_right(n)).left),
        deletable(opened_right(turned_right(n)).right, key),
        key == opened_right(turned_right(n)).value ==> {
            &&& opened_right(turned_right(n)).right is Some
            &&& deletable(
                opened_right(turned_right(n)).right,
                leftmost(*opened_right(turned_right(n)).right.unwrap()),
            )
        },
        opened_right(turned_right(n)).color == NodeColor::Red ==> !red(
            opened_right(turned_right(n)).left,
        ) && !red(opened_right(turned_right(n)).right),
        n.color == NodeColor::Black ==> opened_right(turned_right(n)).color == NodeColor::Black
            && !red(opened_right(turned_right(n)).left),
        !lt(key, opened_right(turned_right(n)).value),
{
    lemma_total_order::<T>();
    let n1 = turned_right(n);
    if red(n.left) {
        lemma_rotated_right_content(n);
    }
    lemma_moved_red_content(n1);
    if n.left is Some {
        // whenever the left child moves up to the root, its key is smaller than `key`
        let l = n.left.unwrap();
        assert(keys(n.left).contains(l.value));
        assert(lt(l.value, n.value));
        assert(!lt(key, l.value));
        assert(key != l.value);
    }
    reveal_with_fuel(balanced, 4);
    reveal_with_fuel(black_height, 5);
    reveal_with_fuel(left_leaning, 4);
    reveal_with_fuel(ordered, 3);
    reveal_with_fuel(keys, 3);
}

/// In an ordered subtree the search finds exactly the keys of the subtree.
pub proof fn lemma_searched<T: Ord + Copy + Debug + Display>(
    link: OptionFastRBTreeNode<T>,
    value: T,
)
    requires
        total_order::<T>(),
        ordered(link),
    ensures
        searched(link, value) == keys(link).contains(value),
    decreases link,
{
    lemma_total_order::<T>();
    match link {
        None => {},
        Some(n) => {
            lemma_searched(n.left, value);
            lemma_searched(n.right, value);
            if keys(n.right).contains(value) {
                assert(lt(n.value, value));
            }
            if keys(n.left).contains(value) {
                assert(lt(value, n.value));
            }
        },
    }
}

/// In an ordered subtree the key of the leftmost node is the smallest key.
pub proof fn lemma_leftmost<T: Ord + Copy + Debug + Display>(n: TreeNode<T>)
    requires
        total_order::<T>(),
        ordered(Some(Box::new(n))),
    ensures
        keys(Some(Box::new(n))).contains(leftmost(n)),
        forall|k: T| #[trigger]
            keys(Some(Box::new(n))).contains(k) ==> k == leftmost(n) || lt(leftmost(n), k),
    decreases n,
{
    lemma_total_order::<T>();
    reveal_with_fuel(keys, 2);
    match n.left {
        None => {
            assert forall|k: T| #[trigger] keys(Some(Box::new(n))).contains(k) implies k
                == leftmost(n) || lt(leftmost(n), k) by {
                if keys(n.right).contains(k) {
                    assert(lt(n.value, k));
                }
            }
        },
        Some(l) => {
            lemma_leftmost(*l);
            assert(keys(n.left).contains(leftmost(*l)));
            assert(lt(leftmost(n), n.value));
            assert forall|k: T| #[trigger] keys(Some(Box::new(n))).contains(k) implies k
                == leftmost(n) || lt(leftmost(n), k) by {
                if keys(n.right).contains(k) {
                    assert(lt(n.value, k));
                }
            }
        },
    }
}

/// In an ordered subtree the key of the rightmost node is the largest key.
pub proof fn lemma_rightmost<T: Ord + Copy + Debug + Display>(n: TreeNode<T>)
    requires
        total_order::<T>(),
        ordered(Some(Box::new(n))),
    ensures
        keys(Some(Box::new(n))).contains(rightmost(n)),
        forall|k: T| #[trigger]
            keys(Some(Box::new(n))).contains(k) ==> k == rightmost(n) || lt(k, rightmost(n)),
    decreases n,
{
    lemma_total_order::<T>();
    reveal_with_fuel(keys, 2);
    match n.right {
        None => {
            assert forall|k: T| #[trigger] keys(Some(Box::new(n))).contains(k) implies k
                == rightmost(n) || lt(k, rightmost(n)) by {
                if keys(n.left).contains(k) {
                    assert(lt(k, n.value));
                }
            }
        },
        Some(r) => {
            lemma_rightmost(*r);
            assert(keys(n.right).contains(rightmost(*r)));
            assert(lt(n.value, rightmost(n)));
            assert forall|k: T| #[trigger] keys(Some(Box::new(n))).contains(k) implies k
                == rightmost(n) || lt(k, rightmost(n)) by {
                if keys(n.left).contains(k) {
                    assert(lt(k, n.value));
                }
            }
        },
    }
}

/// On the way back from a deletion in the left subtree: the node with the
/// subtree `below` that the deletion left, fixed up.
pub proof fn lemma_rebuilt_left<T: Ord + Copy + Debug + Display>(
    n: TreeNode<T>,
    below: OptionFastRBTreeNode<T>,
    key: T,
)
    requires
        total_order::<T>(),
        ordered(Some(Box::new(n))),
        balanced(Some(Box::new(n))),
        left_leaning(n.right),
        n.color == NodeColor::Red ==> !red(n.left) && !red(n.right),
        lt(key, n.value),
        ordered(below),
        keys(below) == keys(n.left).remove(key),
        balanced(below),
        left_leaning(below),
        black_height(below) == black_height(n.left),
        !red(n.left) ==> !red(below),
    ensures
        ({
            let rebuilt = Some(
                Box::new(
                    maintained(
                        TreeNode { color: n.color, value: n.value, left: below, right: n.right },
                    ),
                ),
            );
            &&& ordered(rebuilt)
            &&& keys(rebuilt) == keys(Some(Box::new(n))).remove(key)
            &&& balanced(rebuilt)
            &&& left_leaning(rebuilt)
            &&& black_height(rebuilt) == black_height(Some(Box::new(n)))
            &&& n.color == NodeColor::Black && !red(n.right) ==> !red(rebuilt)
        }),
{
    lemma_total_order::<T>();
    let shrunk = TreeNode { color: n.color, value: n.value, left: below, right: n.right };
    assert forall|k: T| #[trigger] keys(n.right).contains(k) implies k != key by {
        assert(lt(n.value, k));
        assert(lt(key, k));
    }
    assert(key != n.value);
    assert(keys(Some(Box::new(n))) == keys(n.left).union(keys(n.right)).insert(n.value));
    assert(keys(Some(Box::new(shrunk))) == keys(shrunk.left).union(keys(shrunk.right)).insert(
        shrunk.value,
    ));
    assert(keys(Some(Box::new(shrunk))) =~= keys(Some(Box::new(n))).remove(key));
    assert forall|k: T| #[trigger] keys(below).contains(k) implies lt(k, n.value) by {
        assert(keys(n.left).contains(k));
    }
    assert(ordered(Some(Box::new(shrunk))));
    assert(fixable(shrunk)) by {
        reveal_with_fuel(left_leaning, 2);
    }
    lemma_maintained_content(shrunk);
    lemma_maintained_shape(shrunk);
}

/// On the way back from a deletion in the right subtree: the node with the
/// subtree `below` that the deletion left, fixed up.
pub proof fn lemma_rebuilt_right<T: Ord + Copy + Debug + Display>(
    n: TreeNode<T>,
    below: OptionFastRBTreeNode<T>,
    key: T,
)
    requires
        total_order::<T>(),
        ordered(Some(Box::new(n))),
        balanced(Some(Box::new(n))),
        left_leaning(n.left),
        n.color == NodeColor::Red ==> !red(n.left) && !red(n.right),
        lt(n.value, key),
        ordered(below),
        keys(below) == keys(n.right).remove(key),
        balanced(below),
        left_leaning(below),
        black_height(below) == black_height(n.right),
        !red(n.right) ==> !red(below),
    ensures
        ({
            let rebuilt = Some(
                Box::new(
                    maintained(
                        TreeNode { color: n.color, value: n.value, left: n.left, right: below },
                    ),
                ),
            );
            &&& ordered(rebuilt)
            &&& keys(rebuilt) == keys(Some(Box::new(n))).remove(key)
            &&& balanced(rebuilt)
            &&& left_leaning(rebuilt)
            &&& black_height(rebuilt) == black_height(Some(Box::new(n)))
            &&& n.color == NodeColor::Black && !red(n.left) ==> !red(rebuilt)
        }),
{
    lemma_total_order::<T>();
    let shrunk = TreeNode { color: n.color, value: n.value, left: n.left, right: below };
    assert forall|k: T| #[trigger] keys(n.left).contains(k) implies k != key by {
        assert(lt(k, n.value));
        assert(lt(k, key));
    }
    assert(key != n.value);
    assert(keys(Some(Box::new(n))) == keys(n.left).union(keys(n.right)).insert(n.value));
    assert(keys(Some(Box::new(shrunk))) == keys(shrunk.left).union(keys(shrunk.right)).insert(
        shrunk.value,
    ));
    assert(keys(Some(Box::new(shrunk))) =~= keys(Some(Box::new(n))).remove(key));
    assert forall|k: T| #[trigger] keys(below).contains(k) implies lt(n.value, k) by {
        assert(keys(n.right).contains(k));
    }
    assert(ordered(Some(Box::new(shrunk))));
    assert(fixable(shrunk)) by {
        reveal_with_fuel(left_leaning, 2);
    }
    lemma_maintained_content(shrunk);
    lemma_maintained_shape(shrunk);
}

/// On the way back from the deletion of a key that the node itself held: the
/// node with the smallest key of its right subtree in place of its own, and
/// with the subtree `below` that the deletion of that key left, fixed up.
pub proof fn lemma_rebuilt_successor<T: Ord + Copy + Debug + Display>(
    n: TreeNode<T>,
    below: OptionFastRBTreeNode<T>,
)
    requires
        total_order::<T>(),
        ordered(Some(Box::new(n))),
        balanced(Some(Box::new(n))),
        left_leaning(n.left),
        n.color == NodeColor::Red ==> !red(n.left) && !red(n.right),
        n.right is Some,
        ordered(below),
        keys(below) == keys(n.right).remove(leftmost(*n.right.unwrap())),
        balanced(below),
        left_leaning(below),
        black_height(below) == black_height(n.right),
        !red(n.right) ==> !red(below),
    ensures
        ({
            let rebuilt = Some(
                Box::new(
                    maintained(
                        TreeNode {
                            color: n.color,
                            value: leftmost(*n.right.unwrap()),
                            left: n.left,
                            right: below,
                        },
                    ),
                ),
            );
            &&& ordered(rebuilt)
            &&& keys(rebuilt) == keys(Some(Box::new(n))).remove(n.value)
            &&& balanced(rebuilt)
            &&& left_leaning(rebuilt)
            &&& black_height(rebuilt) == black_height(Some(Box::new(n)))
            &&& n.color == NodeColor::Black && !red(n.left) ==> !red(rebuilt)
        }),
{
    lemma_total_order::<T>();
    let successor = leftmost(*n.right.unwrap());
    lemma_leftmost(*n.right.unwrap());
    let shrunk = TreeNode { color: n.color, value: successor, left: n.left, right: below };
    assert(keys(n.right).contains(successor));
    assert(lt(n.value, successor));
    assert forall|k: T| #[trigger] keys(n.left).contains(k) implies lt(k, successor) by {
        assert(lt(k, n.value));
    }
    assert forall|k: T| #[trigger] keys(below).contains(k) implies lt(successor, k) by {
        assert(keys(n.right).contains(k));
    }
    assert forall|k: T| #[trigger] keys(n.right).contains(k) implies k != n.value by {
        assert(lt(n.value, k));
    }
    assert forall|k: T| #[trigger] keys(n.left).contains(k) implies k != n.value by {
        assert(lt(k, n.value));
    }
    assert(keys(Some(Box::new(n))) == keys(n.left).union(keys(n.right)).insert(n.value));
    assert(keys(Some(Box::new(shrunk))) == keys(shrunk.left).union(keys(shrunk.right)).insert(
        shrunk.value,
    ));
    assert(keys(Some(Box::new(shrunk))) =~= keys(Some(Box::new(n))).remove(n.value));
    assert(ordered(Some(Box::new(shrunk))));
    assert(fixable(shrunk)) by {
        reveal_with_fuel(left_leaning, 2);
    }
    lemma_maintained_content(shrunk);
    lemma_maintained_shape(shrunk);
}

/// A deletion from a subtree that it may enter removes the key and nothing
/// else, keeps the order and the black-height, and leaves the subtree
/// left-leaning; under a root that was not Red the new root is not Red
/// either.
pub proof fn lemma_deleted<T: Ord + Copy + Debug + Display>(
    link: OptionFastRBTreeNode<T>,
    key: T,
)
    requires
        total_order::<T>(),
        deletable(link, key),
    ensures
        ordered(deleted(link, key)),
        keys(deleted(link, key)) == keys(link).remove(key),
        balanced(deleted(link, key)),
        left_leaning(deleted(link, key)),
        black_height(deleted(link, key)) == black_height(link),
        !red(link) ==> !red(deleted(link, key)),
    decreases size(link),
{
    match link {
        None => {
            assert(keys(deleted(link, key)) =~= keys(link).remove(key));
        },
        Some(n) => {
            lemma_opened_size(*n);
            if lt(key, n.value) {
                let n1 = opened_left(*n);
                lemma_opened_left(*n, key);
                lemma_deleted(n1.left, key);
                lemma_rebuilt_left(n1, deleted(n1.left, key), key);
            } else {
                let n1 = turned_right(*n);
                if key == n1.value && n1.right is None {
                    lemma_removed_leaf(*n, key);
                } else {
                    let n2 = opened_right(n1);
                    lemma_opened_right(*n, key);
                    lemma_opened_size(n1);
                    if key == n2.value {
                        let successor = leftmost(*n2.right.unwrap());
                        lemma_deleted(n2.right, successor);
                        lemma_rebuilt_successor(n2, deleted(n2.right, successor));
                    } else {
                        lemma_total_order::<T>();
                        lemma_deleted(n2.right, key);
                        lemma_rebuilt_right(n2, deleted(n2.right, key), key);
                    }
                }
            }
        },
    }
}

/// A deletion from a tree at rest removes the key and nothing else, and
/// leaves the tree at rest.
pub proof fn lemma_tree_deleted<T: Ord + Copy + Debug + Display>(
    root: OptionFastRBTreeNode<T>,
    key: T,
)
    requires
        total_order::<T>(),
        red_black(root),
    ensures
        red_black(tree_deleted(root, key)),
        keys(tree_deleted(root, key)) == keys(root).remove(key),
{
    match root {
        None => {
            assert(keys(root).remove(key) =~= keys(root));
        },
        Some(r) => {
            let start = if !red(r.left) && !red(r.right) {
                painted(*r, NodeColor::Red)
            } else {
                *r
            };
            lemma_painted_content(root, NodeColor::Red);
            assert(deletable(Some(Box::new(start)), key));
            lemma_deleted(Some(Box::new(start)), key);
            let left = deleted(Some(Box::new(start)), key);
            lemma_painted_content(left, NodeColor::Black);
        },
    }
}

/// A node that holds `key`, and has no right subtree once a Red left child
/// was rotated to the right, is a Red node without children.
proof fn lemma_removed_leaf<T: Ord + Copy + Debug + Display>(n: TreeNode<T>, key: T)
    requires
        total_order::<T>(),
        deletable(Some(Box::new(n)), key),
        !lt(key, n.value),
        key == turned_right(n).value,
        turned_right(n).right is None,
    ensures
        n.color == NodeColor::Red,
        keys(Some(Box::new(n))).remove(key) == Set::<T>::empty(),
        black_height(Some(Box::new(n))) == 1,
{
    reveal_with_fuel(balanced, 2);
    reveal_with_fuel(black_height, 3);
    reveal_with_fuel(keys, 2);
    assert(keys(Some(Box::new(n))).remove(key) =~= Set::<T>::empty());
}

/// A subtree has at least one level, and no more Black nodes on its leftmost
/// path than it has levels.
pub proof fn lemma_levels<T: Ord + Copy + Debug + Display>(link: OptionFastRBTreeNode<T>)
    ensures
        1 <= black_height(link) <= levels(link),
    decreases link,
{
    match link {
        None => {},
        Some(n) => {
            lemma_levels(n.left);
        },
    }
}

} // verus!
