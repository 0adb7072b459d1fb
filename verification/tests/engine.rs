use tree_collections::rb_tree_fast::{NodeColor, TreeNode};

type Link = Option<Box<TreeNode<i32>>>;

fn node(color: NodeColor, value: i32, left: Link, right: Link) -> TreeNode<i32> {
    TreeNode { color, value, left, right }
}

fn black(value: i32, left: Link, right: Link) -> Link {
    Some(Box::new(node(NodeColor::Black, value, left, right)))
}

fn red(value: i32, left: Link, right: Link) -> Link {
    Some(Box::new(node(NodeColor::Red, value, left, right)))
}

fn black_leaf(value: i32) -> Link {
    black(value, None, None)
}

fn red_leaf(value: i32) -> Link {
    red(value, None, None)
}

#[test]
fn left_rotate_promotes_the_right_child() {
    let start = node(
        NodeColor::Black,
        10,
        black_leaf(5),
        red(20, black_leaf(15), black_leaf(25)),
    );
    let rotated = TreeNode::left_rotate(Box::new(start));
    let expected = node(
        NodeColor::Black,
        20,
        red(10, black_leaf(5), black_leaf(15)),
        black_leaf(25),
    );
    assert_eq!(*rotated, expected);
}

#[test]
fn left_rotate_hands_the_color_of_the_node_up() {
    let start = node(NodeColor::Red, 1, None, black_leaf(2));
    let rotated = TreeNode::left_rotate(Box::new(start));
    assert_eq!(*rotated, node(NodeColor::Red, 2, red_leaf(1), None));
}

#[test]
fn right_rotate_promotes_the_left_child() {
    let start = node(
        NodeColor::Black,
        20,
        red(10, black_leaf(5), black_leaf(15)),
        black_leaf(25),
    );
    let rotated = TreeNode::right_rotate(Box::new(start));
    let expected = node(
        NodeColor::Black,
        10,
        black_leaf(5),
        red(20, black_leaf(15), black_leaf(25)),
    );
    assert_eq!(*rotated, expected);
}

#[test]
fn a_rotation_there_and_back_keeps_the_keys_in_place() {
    let start = node(
        NodeColor::Red,
        10,
        black_leaf(5),
        red(20, black_leaf(15), black_leaf(25)),
    );
    let back = TreeNode::right_rotate(TreeNode::left_rotate(Box::new(start)));
    let expected = node(
        NodeColor::Red,
        10,
        black_leaf(5),
        red(20, black_leaf(15), black_leaf(25)),
    );
    assert_eq!(*back, expected);
}

#[test]
fn flip_color_makes_the_node_red_above_black_children() {
    let mut start = node(NodeColor::Black, 2, red_leaf(1), red_leaf(3));
    TreeNode::flip_color(&mut start);
    assert_eq!(start, node(NodeColor::Red, 2, black_leaf(1), black_leaf(3)));
    // an absent child is Black already
    let mut start = node(NodeColor::Black, 2, red_leaf(1), None);
    TreeNode::flip_color(&mut start);
    assert_eq!(start, node(NodeColor::Red, 2, black_leaf(1), None));
}

#[test]
fn push_red_down_makes_the_node_black_above_red_children() {
    let mut start = node(NodeColor::Red, 2, black_leaf(1), black_leaf(3));
    TreeNode::push_red_down(&mut start);
    assert_eq!(start, node(NodeColor::Black, 2, red_leaf(1), red_leaf(3)));
    TreeNode::flip_color(&mut start);
    assert_eq!(start, node(NodeColor::Red, 2, black_leaf(1), black_leaf(3)));
}

#[test]
fn maintain_rotates_a_red_right_child_beside_a_black_left_child() {
    let start = node(NodeColor::Black, 1, None, red_leaf(2));
    assert_eq!(TreeNode::maintain(Box::new(start)), black(2, red_leaf(1), None));
    let start = node(NodeColor::Red, 10, black_leaf(5), red(20, black_leaf(15), black_leaf(25)));
    assert_eq!(
        TreeNode::maintain(Box::new(start)),
        red(20, red(10, black_leaf(5), black_leaf(15)), black_leaf(25))
    );
}

#[test]
fn maintain_rotates_two_red_left_links_and_flips() {
    let start = node(NodeColor::Black, 3, red(2, red_leaf(1), None), None);
    assert_eq!(TreeNode::maintain(Box::new(start)), red(2, black_leaf(1), black_leaf(3)));
}

#[test]
fn maintain_flips_two_red_children() {
    let start = node(NodeColor::Black, 2, red_leaf(1), red_leaf(3));
    assert_eq!(TreeNode::maintain(Box::new(start)), red(2, black_leaf(1), black_leaf(3)));
}

#[test]
fn maintain_takes_the_first_shape_that_it_finds() {
    // two Red left links beside a Red right child: the rotation comes first,
    // and the flip leaves the Red right child where it was
    let start = node(NodeColor::Black, 3, red(2, red_leaf(1), None), red_leaf(4));
    assert_eq!(
        TreeNode::maintain(Box::new(start)),
        red(2, black_leaf(1), black(3, None, red_leaf(4)))
    );
}

#[test]
fn maintain_leaves_a_node_at_rest_alone() {
    let start = node(NodeColor::Black, 2, red_leaf(1), None);
    assert_eq!(TreeNode::maintain(Box::new(start)), black(2, red_leaf(1), None));
    let start = node(NodeColor::Red, 2, black_leaf(1), black_leaf(3));
    assert_eq!(TreeNode::maintain(Box::new(start)), red(2, black_leaf(1), black_leaf(3)));
    let start = node(NodeColor::Red, 2, None, None);
    assert_eq!(TreeNode::maintain(Box::new(start)), red_leaf(2));
}

#[test]
fn move_red_left_lends_the_color_of_the_node() {
    let start = red(2, black_leaf(1), black_leaf(3));
    let moved = TreeNode::move_red_left(start);
    assert_eq!(Some(moved), black(2, red_leaf(1), red_leaf(3)));
}

#[test]
fn move_red_left_borrows_from_the_right_child() {
    let start = red(2, black_leaf(1), black(5, red_leaf(4), None));
    let moved = TreeNode::move_red_left(start);
    assert_eq!(Some(moved), red(4, black(2, red_leaf(1), None), black_leaf(5)));
}

#[test]
fn move_red_right_lends_the_color_of_the_node() {
    let start = red(4, black_leaf(2), black_leaf(5));
    let moved = TreeNode::move_red_right(start);
    assert_eq!(Some(moved), black(4, red_leaf(2), red_leaf(5)));
}

#[test]
fn move_red_right_borrows_from_the_left_child() {
    let start = red(4, black(2, red_leaf(1), None), black_leaf(5));
    let moved = TreeNode::move_red_right(start);
    assert_eq!(Some(moved), red(2, black_leaf(1), black(4, None, red_leaf(5))));
}

#[test]
fn node_insert_into_nothing_makes_a_red_leaf() {
    assert_eq!(TreeNode::node_insert(None, 9), red_leaf(9));
}

#[test]
fn node_insert_goes_left_right_or_stays() {
    let start = black(5, None, None);
    assert_eq!(TreeNode::node_insert(start, 3), black(5, red_leaf(3), None));
    let start = black(5, None, None);
    assert_eq!(TreeNode::node_insert(start, 7), black(7, red_leaf(5), None));
    let start = black(5, red_leaf(3), None);
    assert_eq!(TreeNode::node_insert(start, 5), black(5, red_leaf(3), None));
    let start = black(5, red_leaf(3), None);
    assert_eq!(TreeNode::node_insert(start, 7), red(5, black_leaf(3), black_leaf(7)));
}

#[test]
fn node_delete_from_nothing_is_nothing() {
    assert_eq!(TreeNode::node_delete(None, 9), None);
}

#[test]
fn node_delete_removes_a_red_leaf() {
    assert_eq!(TreeNode::node_delete(red_leaf(9), 9), None);
    assert_eq!(TreeNode::node_delete(red_leaf(9), 8), red_leaf(9));
    assert_eq!(TreeNode::node_delete(red_leaf(9), 10), red_leaf(9));
    assert_eq!(TreeNode::node_delete(black(5, red_leaf(3), None), 3), black_leaf(5));
}

#[test]
fn node_delete_turns_a_red_left_child_to_the_right() {
    // the key of the root goes down to the right, and is removed there
    assert_eq!(TreeNode::node_delete(black(5, red_leaf(3), None), 5), black_leaf(3));
    assert_eq!(TreeNode::node_delete(black(5, red_leaf(3), None), 6), black(5, red_leaf(3), None));
}

#[test]
fn node_delete_takes_the_successor() {
    let start = red(4, black_leaf(2), black(6, red_leaf(5), None));
    assert_eq!(TreeNode::node_delete(start, 4), red(5, black_leaf(2), black_leaf(6)));
}

#[test]
fn calculate_black_height_counts_the_empty_subtree() {
    assert_eq!(TreeNode::<i32>::calculate_black_height(&None), Some(1));
    assert_eq!(TreeNode::calculate_black_height(&red_leaf(1)), Some(1));
    assert_eq!(TreeNode::calculate_black_height(&black_leaf(1)), Some(2));
    assert_eq!(TreeNode::calculate_black_height(&black(2, black_leaf(1), black_leaf(3))), Some(3));
    assert_eq!(TreeNode::calculate_black_height(&red(2, black_leaf(1), black_leaf(3))), Some(2));
    assert_eq!(TreeNode::calculate_black_height(&black(2, black_leaf(1), None)), None);
    assert_eq!(
        TreeNode::calculate_black_height(&black(4, black(2, black_leaf(1), None), black_leaf(5))),
        None
    );
}

#[test]
fn clear_releases_the_subtrees() {
    let mut start = node(NodeColor::Black, 2, red_leaf(1), black(4, red_leaf(3), None));
    start.clear();
    assert_eq!(start, node(NodeColor::Black, 2, None, None));
}

#[test]
fn a_cloned_node_is_equal_and_apart() {
    let start = node(NodeColor::Black, 2, red_leaf(1), None);
    let mut copy = start.clone();
    assert_eq!(copy, start);
    copy.clear();
    assert_eq!(start, node(NodeColor::Black, 2, red_leaf(1), None));
}
