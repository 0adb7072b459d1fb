//! What holds of a tree over a whole history of insertions and deletions.

use crate::common_trait::{
    finds_in, in_order_keys_of, in_order_nodes_of, in_search_order_of, key_set_of, leaf_count_of,
    level_count_of, pre_order_keys_of, pre_order_nodes_of,
};
use crate::order::{lemma_total_order, lt, total_order};
use crate::proofs::{lemma_leftmost, lemma_rightmost, lemma_tree_deleted, lemma_tree_inserted};
use crate::rb_tree_fast::{OptionFastRBTreeNode, TreeNode};
use crate::shape::{
    balanced, black_height, in_order, in_order_nodes, keys, leaves, left_leaning, leftmost,
    levels, ordered, pre_order, pre_order_nodes, red, red_black, rightmost, searched, size,
};
use crate::steps::{inserted, maintained, tree_deleted, tree_inserted};
use std::fmt::{Debug, Display};
use vstd::arithmetic::power2::{
    lemma2_to64, lemma_pow2_strictly_increases, lemma_pow2_unfold, pow2,
};
use vstd::prelude::*;

verus! {

/// One change to a tree: the insertion or the deletion of a key.
pub enum Edit<T> {
    /// The key is inserted.
    Insert(T),
    /// The key is deleted.
    Delete(T),
}

/// The root of the tree after the changes `edits` were made, one after the
/// other, to the tree under `root`.
pub open spec fn replayed<T: Ord + Copy + Debug + Display>(
    root: OptionFastRBTreeNode<T>,
    edits: Seq<Edit<T>>,
) -> OptionFastRBTreeNode<T>
    decreases edits.len(),
{
    if edits.len() == 0 {
        root
    } else {
        let before = replayed(root, edits.drop_last());
        match edits.last() {
            Edit::Insert(value) => tree_inserted(before, value),
            Edit::Delete(value) => tree_deleted(before, value),
        }
    }
}

/// `key` was inserted by one of `edits` and not deleted by a later one.
pub open spec fn live<T>(edits: Seq<Edit<T>>, key: T) -> bool {
    exists|i: int|
        0 <= i < edits.len() && #[trigger] edits[i] == Edit::Insert(key) && forall|j: int|
            i < j < edits.len() ==> #[trigger] edits[j] != Edit::Delete(key)
}

/// The insertions of `values`, in their order.
pub open spec fn insertions<T>(values: Seq<T>) -> Seq<Edit<T>> {
    Seq::new(values.len(), |i: int| Edit::Insert(values[i]))
}

/// The deletions of `values`, in their order.
pub open spec fn deletions<T>(values: Seq<T>) -> Seq<Edit<T>> {
    Seq::new(values.len(), |i: int| Edit::Delete(values[i]))
}

/// Every element of `s` is ordered strictly before the elements behind it.
pub open spec fn ascending<T: Ord>(s: Seq<T>) -> bool {
    forall|i: int, j: int| 0 <= i < j < s.len() ==> lt(#[trigger] s[i], #[trigger] s[j])
}

/// Whatever keys were inserted into and deleted from an empty tree, the tree
/// is at rest afterwards, with a Black root and the same number of Black
/// nodes on every path down, and it holds exactly the keys that were inserted
/// and not deleted since.
pub proof fn lemma_history<T: Ord + Copy + Debug + Display>(edits: Seq<Edit<T>>)
    requires
        total_order::<T>(),
    ensures
        red_black(replayed(None, edits)),
        balanced(replayed(None, edits)),
        !red(replayed(None, edits)),
        forall|key: T| #[trigger] keys(replayed(None, edits)).contains(key) <==> live(edits, key),
    decreases edits.len(),
{
    let root = replayed::<T>(None, edits);
    if edits.len() == 0 {
        assert forall|key: T| #[trigger] keys(root).contains(key) <==> live(edits, key) by {}
    } else {
        let earlier = edits.drop_last();
        let before = replayed::<T>(None, earlier);
        let last = edits.len() - 1;
        lemma_history(earlier);
        match edits.last() {
            Edit::Insert(value) => {
                lemma_tree_inserted(before, value);
            },
            Edit::Delete(value) => {
                lemma_tree_deleted(before, value);
            },
        }
        assert forall|key: T| #[trigger] keys(root).contains(key) <==> live(edits, key) by {
            assert(keys(before).contains(key) <==> live(earlier, key));
            if live(earlier, key) {
                let i = choose|i: int|
                    0 <= i < earlier.len() && #[trigger] earlier[i] == Edit::Insert(key)
                        && forall|j: int|
                        i < j < earlier.len() ==> #[trigger] earlier[j] != Edit::Delete(key);
                assert(edits[i] == earlier[i]);
                if edits[last] != Edit::Delete(key) {
                    assert forall|j: int| i < j < edits.len() implies #[trigger] edits[j]
                        != Edit::Delete(key) by {
                        if j < last {
                            assert(edits[j] == earlier[j]);
                        }
                    }
                    assert(live(edits, key));
                }
            }
            if live(edits, key) {
                let i = choose|i: int|
                    0 <= i < edits.len() && #[trigger] edits[i] == Edit::Insert(key)
                        && forall|j: int|
                        i < j < edits.len() ==> #[trigger] edits[j] != Edit::Delete(key);
                if i < last {
                    assert(earlier[i] == edits[i]);
                    assert forall|j: int| i < j < earlier.len() implies #[trigger] earlier[j]
                        != Edit::Delete(key) by {
                        assert(earlier[j] == edits[j]);
                    }
                    assert(live(earlier, key));
                    assert(edits[last] != Edit::Delete(key));
                }
            }
            if edits[last] == Edit::Insert(key) {
                assert(live(edits, key));
            }
        }
    }
}

/// The in-order sequence of an ordered subtree is strictly ascending, and it
/// holds exactly the keys of the subtree.
pub proof fn lemma_in_order<T: Ord + Copy + Debug + Display>(link: OptionFastRBTreeNode<T>)
    requires
        total_order::<T>(),
        ordered(link),
    ensures
        ascending(in_order(link)),
        forall|key: T| in_order(link).contains(key) <==> #[trigger] keys(link).contains(key),
    decreases link,
{
    lemma_total_order::<T>();
    match link {
        None => {},
        Some(n) => {
            lemma_in_order(n.left);
            lemma_in_order(n.right);
            let a = in_order(n.left);
            let b = in_order(n.right);
            let s = in_order(link);
            assert(s == a.push(n.value) + b);
            assert forall|i: int| 0 <= i < a.len() implies #[trigger] s[i] == a[i] && lt(
                a[i],
                n.value,
            ) by {
                assert(a.contains(a[i]));
                assert(keys(n.left).contains(a[i]));
            }
            assert forall|i: int| a.len() < i < s.len() implies #[trigger] s[i] == b[i - a.len()
                - 1] && lt(n.value, s[i]) by {
                let at = i - a.len() - 1;
                assert(b.contains(b[at]));
                assert(keys(n.right).contains(b[at]));
            }
            assert(s[a.len() as int] == n.value);
            assert forall|i: int, j: int| 0 <= i < j < s.len() implies lt(
                #[trigger] s[i],
                #[trigger] s[j],
            ) by {
                if j < a.len() {
                    assert(lt(a[i], a[j]));
                } else if i > a.len() {
                    assert(lt(b[i - a.len() - 1], b[j - a.len() - 1]));
                } else if i < a.len() && j > a.len() {
                    assert(lt(s[i], n.value));
                    assert(lt(n.value, s[j]));
                }
            }
            assert forall|key: T| s.contains(key) <==> #[trigger] keys(link).contains(key) by {
                if s.contains(key) {
                    let i = choose|i: int| 0 <= i < s.len() && s[i] == key;
                    if i < a.len() {
                        assert(a.contains(a[i]));
                    } else if i > a.len() {
                        assert(b.contains(b[i - a.len() - 1]));
                    }
                }
                if keys(n.left).contains(key) {
                    let i = choose|i: int| 0 <= i < a.len() && a[i] == key;
                    assert(s[i] == key);
                }
                if keys(n.right).contains(key) {
                    let i = choose|i: int| 0 <= i < b.len() && b[i] == key;
                    assert(s[i + a.len() + 1] == key);
                }
                if key == n.value {
                    assert(s[a.len() as int] == key);
                }
            }
        },
    }
}

/// There is one ascending sequence of given keys: two ascending sequences
/// that hold the same keys are equal.
pub proof fn lemma_ascending_unique<T: Ord>(a: Seq<T>, b: Seq<T>)
    requires
        total_order::<T>(),
        ascending(a),
        ascending(b),
        forall|key: T| a.contains(key) <==> b.contains(key),
    ensures
        a == b,
    decreases a.len(),
{
    lemma_total_order::<T>();
    if a.len() == 0 {
        if b.len() > 0 {
            assert(b.contains(b[0]));
        }
        assert(a =~= b);
    } else {
        assert(a.contains(a[0]));
        let at = choose|at: int| 0 <= at < b.len() && b[at] == a[0];
        assert(b.contains(b[0]));
        let back = choose|back: int| 0 <= back < a.len() && a[back] == b[0];
        // each first key stands somewhere in the other sequence, not before
        // its first key
        if at > 0 {
            assert(lt(b[0], b[at]));
        }
        if back > 0 {
            assert(lt(a[0], a[back]));
        }
        assert(a[0] == b[0]);
        let rest_a = a.drop_first();
        let rest_b = b.drop_first();
        assert forall|key: T| rest_a.contains(key) <==> rest_b.contains(key) by {
            if rest_a.contains(key) {
                let i = choose|i: int| 0 <= i < rest_a.len() && rest_a[i] == key;
                assert(a[i + 1] == key);
                assert(lt(a[0], a[i + 1]));
                assert(a.contains(key));
                let j = choose|j: int| 0 <= j < b.len() && b[j] == key;
                assert(rest_b[j - 1] == key);
            }
            if rest_b.contains(key) {
                let i = choose|i: int| 0 <= i < rest_b.len() && rest_b[i] == key;
                assert(b[i + 1] == key);
                assert(lt(b[0], b[i + 1]));
                assert(b.contains(key));
                let j = choose|j: int| 0 <= j < a.len() && a[j] == key;
                assert(rest_a[j - 1] == key);
            }
        }
        assert(ascending(rest_a)) by {
            assert forall|i: int, j: int| 0 <= i < j < rest_a.len() implies lt(
                #[trigger] rest_a[i],
                #[trigger] rest_a[j],
            ) by {
                assert(lt(a[i + 1], a[j + 1]));
            }
        }
        assert(ascending(rest_b)) by {
            assert forall|i: int, j: int| 0 <= i < j < rest_b.len() implies lt(
                #[trigger] rest_b[i],
                #[trigger] rest_b[j],
            ) by {
                assert(lt(b[i + 1], b[j + 1]));
            }
        }
        lemma_ascending_unique(rest_a, rest_b);
        assert(a =~= seq![a[0]] + rest_a);
        assert(b =~= seq![b[0]] + rest_b);
    }
}

/// After the insertion of any sequence of keys into an empty tree, the
/// in-order traversal is strictly ascending and holds exactly the keys that
/// were inserted, each of them once.
pub proof fn lemma_ordering_round_trip<T: Ord + Copy + Debug + Display>(values: Seq<T>)
    requires
        total_order::<T>(),
    ensures
        ascending(in_order(replayed(None, insertions(values)))),
        forall|key: T|
            in_order(replayed(None, insertions(values))).contains(key) <==> #[trigger]
            values.contains(key),
{
    let edits = insertions(values);
    let root = replayed::<T>(None, edits);
    lemma_history(edits);
    lemma_in_order(root);
    assert forall|key: T| in_order(root).contains(key) <==> #[trigger] values.contains(key) by {
        assert(in_order(root).contains(key) <==> keys(root).contains(key));
        assert(keys(root).contains(key) <==> live(edits, key));
        if values.contains(key) {
            let i = choose|i: int| 0 <= i < values.len() && values[i] == key;
            assert(edits[i] == Edit::Insert(key));
            assert(live(edits, key));
        }
        if live(edits, key) {
            let i = choose|i: int| 0 <= i < edits.len() && #[trigger] edits[i] == Edit::Insert(key);
            assert(values[i] == key);
        }
    }
}

/// After the insertion of any keys into an empty tree and the deletion of
/// every one of them, in any order, the tree is empty.
pub proof fn lemma_delete_emptiness<T: Ord + Copy + Debug + Display>(
    values: Seq<T>,
    removals: Seq<T>,
)
    requires
        total_order::<T>(),
        forall|key: T| values.contains(key) ==> #[trigger] removals.contains(key),
    ensures
        replayed::<T>(None, insertions(values) + deletions(removals)) is None,
{
    let edits = insertions(values) + deletions(removals);
    let root = replayed::<T>(None, edits);
    lemma_history(edits);
    match root {
        None => {},
        Some(n) => {
            let key = n.value;
            assert(keys(root).contains(key));
            assert(live(edits, key));
            let i = choose|i: int|
                0 <= i < edits.len() && #[trigger] edits[i] == Edit::Insert(key) && forall|j: int|
                    i < j < edits.len() ==> #[trigger] edits[j] != Edit::Delete(key);
            if i < values.len() {
                assert(values[i] == key);
                assert(values.contains(key));
                assert(removals.contains(key));
                let m = choose|m: int| 0 <= m < removals.len() && removals[m] == key;
                assert(edits[values.len() + m] == Edit::Delete(key));
            } else {
                assert(edits[i] == deletions(removals)[i - values.len()]);
            }
        },
    }
}

/// No key is stored twice: the insertion of a key that an ordered,
/// left-leaning subtree holds already leaves every node where it was.
pub proof fn lemma_inserted_present<T: Ord + Copy + Debug + Display>(
    link: OptionFastRBTreeNode<T>,
    value: T,
)
    requires
        total_order::<T>(),
        ordered(link),
        left_leaning(link),
        keys(link).contains(value),
    ensures
        link == Some(Box::new(inserted(link, value))),
    decreases link,
{
    lemma_total_order::<T>();
    reveal_with_fuel(left_leaning, 2);
    match link {
        None => {},
        Some(n) => {
            assert(maintained(*n) == *n);
            if lt(value, n.value) {
                if keys(n.right).contains(value) {
                    assert(lt(n.value, value));
                }
                lemma_inserted_present(n.left, value);
            } else if lt(n.value, value) {
                if keys(n.left).contains(value) {
                    assert(lt(value, n.value));
                }
                lemma_inserted_present(n.right, value);
            }
        },
    }
}

/// The insertion of a key that a tree at rest holds already changes nothing.
pub proof fn lemma_insert_present<T: Ord + Copy + Debug + Display>(
    root: OptionFastRBTreeNode<T>,
    value: T,
)
    requires
        total_order::<T>(),
        red_black(root),
        keys(root).contains(value),
    ensures
        tree_inserted(root, value) == root,
{
    lemma_inserted_present(root, value);
}

/// The deletion of a key that a tree at rest does not hold changes none of
/// its keys, and leaves it at rest, with the same number of Black nodes on
/// every path down.
pub proof fn lemma_absent_delete<T: Ord + Copy + Debug + Display>(
    root: OptionFastRBTreeNode<T>,
    key: T,
)
    requires
        total_order::<T>(),
        red_black(root),
        !keys(root).contains(key),
    ensures
        keys(tree_deleted(root, key)) == keys(root),
        red_black(tree_deleted(root, key)),
        balanced(tree_deleted(root, key)),
{
    lemma_tree_deleted(root, key);
    assert(keys(root).remove(key) =~= keys(root));
}

/// In an ordered subtree no key is smaller than the key of its leftmost
/// node, and none is larger than the key of its rightmost node; both are keys
/// of the subtree.
pub proof fn lemma_extremes<T: Ord + Copy + Debug + Display>(n: TreeNode<T>)
    requires
        total_order::<T>(),
        ordered(Some(Box::new(n))),
    ensures
        keys(Some(Box::new(n))).contains(leftmost(n)),
        keys(Some(Box::new(n))).contains(rightmost(n)),
        forall|key: T| #[trigger] keys(Some(Box::new(n))).contains(key) ==> !lt(key, leftmost(n)),
        forall|key: T| #[trigger] keys(Some(Box::new(n))).contains(key) ==> !lt(rightmost(n), key),
{
    lemma_total_order::<T>();
    lemma_leftmost(n);
    lemma_rightmost(n);
}

/// A balanced, left-leaning subtree has no more than twice as many levels as
/// its black-height, and at least as many nodes as two to the power of its
/// black-height, less one on either side. So a tree at rest with `n` keys has
/// no more than `2 * log2(n + 1) + 1` levels.
pub proof fn lemma_logarithmic_depth<T: Ord + Copy + Debug + Display>(
    link: OptionFastRBTreeNode<T>,
)
    requires
        balanced(link),
        left_leaning(link),
    ensures
        red(link) ==> levels(link) <= 2 * black_height(link),
        !red(link) ==> levels(link) <= 2 * black_height(link) - 1,
        pow2((black_height(link) - 1) as nat) <= size(link) + 1,
    decreases link,
{
    lemma2_to64();
    match link {
        None => {},
        Some(n) => {
            lemma_logarithmic_depth(n.left);
            lemma_logarithmic_depth(n.right);
            lemma_pow2_unfold(black_height(n.left));
        },
    }
}

/// A tree at rest whose nodes can be counted has no more than 129 levels, so
/// that its levels, and the Black nodes on its paths, can be counted too.
pub proof fn lemma_levels_fit<T: Ord + Copy + Debug + Display>(root: OptionFastRBTreeNode<T>)
    requires
        red_black(root),
        size(root) <= usize::MAX,
    ensures
        levels(root) <= 129,
{
    lemma2_to64();
    lemma_logarithmic_depth(root);
    if black_height(root) > 65 {
        lemma_pow2_strictly_increases(64, (black_height(root) - 1) as nat);
    }
}

/// The keys of an ordered subtree are as many as its nodes.
pub proof fn lemma_key_count<T: Ord + Copy + Debug + Display>(link: OptionFastRBTreeNode<T>)
    requires
        total_order::<T>(),
        ordered(link),
    ensures
        keys(link).finite(),
        keys(link).len() == size(link),
    decreases link,
{
    lemma_total_order::<T>();
    match link {
        None => {},
        Some(n) => {
            lemma_key_count(n.left);
            lemma_key_count(n.right);
            assert(keys(n.left).disjoint(keys(n.right))) by {
                assert forall|k: T| keys(n.left).contains(k) implies !keys(n.right).contains(
                    k,
                ) by {
                    if keys(n.right).contains(k) {
                        assert(lt(k, n.value) && lt(n.value, k));
                    }
                }
            }
            vstd::set_lib::lemma_set_disjoint_lens(keys(n.left), keys(n.right));
            assert(!keys(n.left).union(keys(n.right)).contains(n.value)) by {
                if keys(n.left).contains(n.value) {
                    assert(lt(n.value, n.value));
                }
                if keys(n.right).contains(n.value) {
                    assert(lt(n.value, n.value));
                }
            }
        },
    }
}

/// A subtree holds no key if and only if it is empty; it has one leaf more
/// than it has nodes, and as many keys in its traversals as it has nodes.
pub proof fn lemma_counts<T: Ord + Copy + Debug + Display>(link: OptionFastRBTreeNode<T>)
    ensures
        keys(link) == Set::<T>::empty() <==> link is None,
        leaves(link) == size(link) + 1,
        in_order(link).len() == size(link),
        pre_order(link).len() == size(link),
    decreases link,
{
    match link {
        None => {},
        Some(n) => {
            lemma_counts(n.left);
            lemma_counts(n.right);
            assert(keys(link).contains(n.value));
        },
    }
}

/// What the shared contract of trees and nodes says of a subtree of this
/// tree, in the terms in which the balancing engine is stated.
pub proof fn lemma_contract<T: Ord + Copy + Debug + Display>(link: OptionFastRBTreeNode<T>)
    ensures
        key_set_of(link) == keys(link),
        in_order_keys_of(link) == in_order(link),
        pre_order_keys_of(link) == pre_order(link),
        in_order_nodes_of(link) == in_order_nodes(link),
        pre_order_nodes_of(link) == pre_order_nodes(link),
        in_search_order_of(link) == ordered(link),
        forall|value: T| #[trigger] finds_in(link, value) == searched(link, value),
        leaf_count_of(link) == if link is None {
            0
        } else {
            leaves(link)
        },
        level_count_of(link) == if link is None {
            0
        } else {
            levels(link)
        },
{
}

} // verus!
