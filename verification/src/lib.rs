//! Ordered key sets on a red-black tree that is rebalanced in one pass.
//!
//! [`rb_tree_fast`] holds the tree, its nodes and the balancing engine:
//! insertion and deletion go down the tree by comparison of keys and repair
//! every node on the way back. [`common_trait`] is the contract that trees
//! and nodes share: membership, smallest and largest key, height, leaves and
//! traversals. [`chart`] lays a tree out on a grid of cells.
//!
//! What the engine does is stated twice. [`steps`] gives every step as a
//! function on values, and every operation of the engine returns exactly
//! what these functions say. [`shape`] reads off a tree what it is: its
//! keys, their order, its colors and heights. [`proofs`] and [`laws`] show
//! what follows: a tree stays ordered, balanced and left-leaning under a
//! Black root, holds the keys that were inserted and not deleted, and is no
//! taller than twice the logarithm of the number of its keys. [`order`]
//! says what is asked of the keys.

pub mod chart;
pub mod common_trait;
pub mod laws;
pub mod order;
pub mod proofs;
pub mod rb_tree_fast;
pub mod shape;
pub mod steps;
