use tree_collections::rb_tree_fast::{
    CommonTreeNodeTrait, CommonTreeTrait, FastRBTree, NodeColor, TreeNode,
};

fn tree_of(keys: &[i32]) -> FastRBTree<i32> {
    let mut tree = FastRBTree::new();
    for key in keys {
        tree.insert(*key);
    }
    tree
}

fn pre_order(tree: &FastRBTree<i32>) -> Vec<i32> {
    let mut container = vec![];
    tree.pre_order_traversal_for_test(&mut container);
    container
}

fn in_order(tree: &FastRBTree<i32>) -> Vec<i32> {
    let mut container = vec![];
    tree.in_order_traversal_for_test(&mut container);
    container
}

fn is_valid(tree: &FastRBTree<i32>) -> bool {
    FastRBTree::is_valid_red_black_tree(tree.get_root())
}

fn root_is_black(tree: &FastRBTree<i32>) -> bool {
    TreeNode::is_black(tree.get_root())
}

type Link = Option<Box<TreeNode<i32>>>;

fn black(value: i32, left: Link, right: Link) -> Link {
    Some(Box::new(TreeNode { color: NodeColor::Black, value, left, right }))
}

fn red(value: i32, left: Link, right: Link) -> Link {
    Some(Box::new(TreeNode { color: NodeColor::Red, value, left, right }))
}

#[test]
fn tree_traversal() {
    // Test the pre-order traversal after insertions with a repeated key.
    let mut tree = FastRBTree::new();
    tree.insert(0);
    vec![16, 16, 8, 24, 20, 22].iter().for_each(|v| {
        tree.insert(*v);
    });
    let mut container = vec![];
    tree.pre_order_traversal_for_test(&mut container);
    assert_eq!(container, vec![20, 8, 0, 16, 24, 22]);
}

#[test]
fn test_insert() {
    let mut rb_tree = FastRBTree::new();
    rb_tree.insert(12);
    rb_tree.insert(1);
    rb_tree.insert(9);
    rb_tree.insert(2);
    rb_tree.insert(0);
    rb_tree.insert(11);
    rb_tree.insert(7);
    rb_tree.insert(19);
    rb_tree.insert(4);
    rb_tree.insert(15);
    rb_tree.insert(18);
    rb_tree.insert(5);
    rb_tree.insert(14);
    rb_tree.insert(13);
    rb_tree.insert(10);
    rb_tree.insert(16);
    rb_tree.insert(6);
    rb_tree.insert(3);
    rb_tree.insert(8);
    rb_tree.insert(17);

    let result = FastRBTree::is_valid_red_black_tree(rb_tree.get_root());
    assert_eq!(result, true);
}

#[test]
fn empty_tree() {
    let mut tree: FastRBTree<i32> = FastRBTree::new();
    assert_eq!(tree.contains(1), false);
    assert_eq!(tree.min(), None);
    assert_eq!(tree.max(), None);
    assert!(tree.is_tree_empty());
    assert_eq!(tree.height(), 0);
    assert_eq!(tree.count_leaves(), 0);
    assert_eq!(in_order(&tree), Vec::<i32>::new());
    assert_eq!(pre_order(&tree), Vec::<i32>::new());
    assert!(is_valid(&tree));
    tree.delete(1);
    assert!(tree.is_tree_empty());
    assert!(tree.get_root().is_none());
    assert_eq!(tree.min(), None);
    assert_eq!(tree.max(), None);
    assert!(is_valid(&tree));
}

#[test]
fn single_node() {
    let tree = tree_of(&[7]);
    assert_eq!(tree.height(), 2);
    assert_eq!(tree.count_leaves(), 2);
    assert_eq!(tree.min(), Some(7));
    assert_eq!(tree.max(), Some(7));
    assert!(!tree.is_tree_empty());
    assert!(tree.contains(7));
    assert!(!tree.contains(6));
    assert!(!tree.contains(8));
    assert_eq!(tree.get_root().as_ref().unwrap().color, NodeColor::Black);
    assert_eq!(tree.get_root().as_ref().unwrap().get_value(), 7);
}

#[test]
fn new_node_is_a_red_leaf() {
    let node = TreeNode::new(5);
    assert_eq!(node.color, NodeColor::Red);
    assert_eq!(node.value, 5);
    assert!(node.left.is_none());
    assert!(node.right.is_none());
    assert!(node.get_left().is_none());
    assert!(node.get_right().is_none());
    assert_eq!(node.get_height(), 2);
    assert_eq!(node.count_leaves(), 2);
}

#[test]
fn heights_and_leaves() {
    // two keys: a Black root above a Red left child
    let tree = tree_of(&[1, 2]);
    assert_eq!(pre_order(&tree), vec![2, 1]);
    assert_eq!(tree.height(), 3);
    assert_eq!(tree.count_leaves(), 3);
    // three keys fill two levels
    let tree = tree_of(&[1, 2, 3]);
    assert_eq!(pre_order(&tree), vec![2, 1, 3]);
    assert_eq!(tree.height(), 3);
    assert_eq!(tree.count_leaves(), 4);
    // the leaves are one more than the keys
    let tree = tree_of(&[12, 1, 9, 2, 0, 11, 7, 19, 4, 15]);
    assert_eq!(tree.count_leaves(), 11);
}

#[test]
fn a_node_with_one_child_counts_its_own_empty_side() {
    let node = *black(2, red(1, None, None), None).unwrap();
    assert_eq!(node.count_leaves(), 3);
    assert_eq!(node.get_height(), 3);
    let node = *black(2, None, red(3, None, None)).unwrap();
    assert_eq!(node.count_leaves(), 3);
    assert_eq!(node.get_height(), 3);
}

#[test]
fn insert_rotates_a_red_right_child_to_the_left() {
    let tree = tree_of(&[1, 2]);
    let root = tree.get_root().as_ref().unwrap();
    assert_eq!(root.value, 2);
    assert_eq!(root.color, NodeColor::Black);
    let left = root.left.as_ref().unwrap();
    assert_eq!(left.value, 1);
    assert_eq!(left.color, NodeColor::Red);
    assert!(root.right.is_none());
}

#[test]
fn insert_flips_two_red_children() {
    let tree = tree_of(&[2, 1, 3]);
    let root = tree.get_root().as_ref().unwrap();
    assert_eq!(root.value, 2);
    assert_eq!(root.color, NodeColor::Black);
    assert_eq!(root.left.as_ref().unwrap().color, NodeColor::Black);
    assert_eq!(root.right.as_ref().unwrap().color, NodeColor::Black);
}

#[test]
fn insert_rotates_two_red_left_links_to_the_right() {
    let tree = tree_of(&[3, 2, 1]);
    assert_eq!(pre_order(&tree), vec![2, 1, 3]);
    let root = tree.get_root().as_ref().unwrap();
    assert_eq!(root.left.as_ref().unwrap().color, NodeColor::Black);
    assert_eq!(root.right.as_ref().unwrap().color, NodeColor::Black);
}

#[test]
fn insert_of_a_stored_key_changes_nothing() {
    let mut tree = tree_of(&[0, 16, 8, 24, 20, 22]);
    let before = tree.clone();
    tree.insert(16);
    assert_eq!(tree, before);
    assert_eq!(in_order(&tree), vec![0, 8, 16, 20, 22, 24]);
}

#[test]
fn in_order_is_ascending_without_repeats() {
    let tree = tree_of(&[5, 3, 9, 3, 1, 9, 7, 5, 5, 2]);
    assert_eq!(in_order(&tree), vec![1, 2, 3, 5, 7, 9]);
    let tree = tree_of(&[12, 1, 9, 2, 0, 11, 7, 19, 4, 15, 18, 5, 14, 13, 10, 16, 6, 3, 8, 17]);
    assert_eq!(in_order(&tree), (0..20).collect::<Vec<i32>>());
}

#[test]
fn valid_with_a_black_root_after_every_insert_and_delete() {
    let keys = [12, 1, 9, 2, 0, 11, 7, 19, 4, 15, 18, 5, 14, 13, 10, 16, 6, 3, 8, 17];
    let mut tree = FastRBTree::new();
    for key in keys.iter() {
        tree.insert(*key);
        assert!(is_valid(&tree));
        assert!(root_is_black(&tree));
    }
    for key in [9, 0, 19, 12, 100, 5, 17, 1, 2, 4, 15, 18, 14, 13, 10, 16, 6, 3, 8, 11, 7].iter() {
        tree.delete(*key);
        assert!(is_valid(&tree));
        assert!(root_is_black(&tree));
    }
    assert!(tree.is_tree_empty());
}

#[test]
fn membership_follows_inserts_and_deletes() {
    let mut tree = FastRBTree::new();
    for key in [10, 20, 30, 40, 50, 25, 35].iter() {
        tree.insert(*key);
    }
    tree.delete(20);
    tree.delete(40);
    tree.insert(40);
    tree.delete(99);
    for key in [10, 30, 40, 50, 25, 35].iter() {
        assert!(tree.contains(*key));
    }
    for key in [20, 99, 0, 15, 45, 60].iter() {
        assert!(!tree.contains(*key));
    }
    assert_eq!(in_order(&tree), vec![10, 25, 30, 35, 40, 50]);
}

#[test]
fn deleting_every_key_empties_the_tree() {
    let keys = [12, 1, 9, 2, 0, 11, 7, 19, 4, 15, 18, 5, 14, 13, 10, 16, 6, 3, 8, 17];
    let mut tree = tree_of(&keys);
    for key in keys.iter().rev() {
        tree.delete(*key);
    }
    assert!(tree.is_tree_empty());
    assert_eq!(tree.min(), None);
    assert_eq!(tree.max(), None);
    assert_eq!(tree, FastRBTree::new());
}

#[test]
fn deleting_an_absent_key_changes_no_key() {
    let keys = [12, 1, 9, 2, 0, 11, 7, 19, 4, 15];
    let mut tree = tree_of(&keys);
    for absent in [-5, 3, 5, 8, 10, 13, 16, 100].iter() {
        tree.delete(*absent);
        assert_eq!(in_order(&tree), vec![0, 1, 2, 4, 7, 9, 11, 12, 15, 19]);
        assert!(is_valid(&tree));
        assert!(root_is_black(&tree));
        for key in keys.iter() {
            assert!(tree.contains(*key));
        }
        assert!(!tree.contains(*absent));
    }
}

#[test]
fn deleting_an_absent_key_may_move_nodes() {
    // the Red links that were moved down on the way to the key stay where
    // the fixup on the way back leaves them
    let mut tree = tree_of(&[24, 2, 18, 4]);
    assert_eq!(pre_order(&tree), vec![18, 4, 2, 24]);
    tree.delete(19);
    assert_eq!(pre_order(&tree), vec![4, 2, 24, 18]);
    assert_eq!(in_order(&tree), vec![2, 4, 18, 24]);
    assert!(is_valid(&tree));
    assert!(root_is_black(&tree));
}

#[test]
fn delete_the_smallest_of_three() {
    let mut tree = tree_of(&[1, 2, 3]);
    tree.delete(1);
    assert_eq!(pre_order(&tree), vec![3, 2]);
    let root = tree.get_root().as_ref().unwrap();
    assert_eq!(root.color, NodeColor::Black);
    assert_eq!(root.left.as_ref().unwrap().color, NodeColor::Red);
    assert!(is_valid(&tree));
}

#[test]
fn delete_the_largest_of_three() {
    let mut tree = tree_of(&[1, 2, 3]);
    tree.delete(3);
    assert_eq!(pre_order(&tree), vec![2, 1]);
    let root = tree.get_root().as_ref().unwrap();
    assert_eq!(root.color, NodeColor::Black);
    assert_eq!(root.left.as_ref().unwrap().color, NodeColor::Red);
    assert!(is_valid(&tree));
}

#[test]
fn delete_the_root_of_three_puts_its_successor_in_its_place() {
    let mut tree = tree_of(&[1, 2, 3]);
    tree.delete(2);
    assert_eq!(pre_order(&tree), vec![3, 1]);
    assert_eq!(in_order(&tree), vec![1, 3]);
    assert!(is_valid(&tree));
}

#[test]
fn delete_the_key_above_a_red_left_child() {
    // the root holds 2 above a Red 1
    let mut tree = tree_of(&[2, 1]);
    tree.delete(2);
    assert_eq!(pre_order(&tree), vec![1]);
    assert!(tree.contains(1));
    assert!(!tree.contains(2));
    assert_eq!(tree.get_root().as_ref().unwrap().color, NodeColor::Black);
}

#[test]
fn delete_the_only_key() {
    let mut tree = tree_of(&[4]);
    tree.delete(4);
    assert!(tree.is_tree_empty());
    assert!(is_valid(&tree));
}

#[test]
fn delete_borrows_from_the_right_sibling() {
    // 4 and 6 share the right node, so that the left node can borrow a key
    let mut tree = tree_of(&[2, 1, 4, 6]);
    assert_eq!(pre_order(&tree), vec![2, 1, 6, 4]);
    tree.delete(1);
    assert_eq!(in_order(&tree), vec![2, 4, 6]);
    assert_eq!(pre_order(&tree), vec![4, 2, 6]);
    assert!(is_valid(&tree));
}

#[test]
fn delete_borrows_from_the_left_sibling() {
    let mut tree = tree_of(&[5, 7, 3, 1]);
    assert_eq!(pre_order(&tree), vec![5, 3, 1, 7]);
    tree.delete(7);
    assert_eq!(in_order(&tree), vec![1, 3, 5]);
    assert_eq!(pre_order(&tree), vec![3, 1, 5]);
    assert!(is_valid(&tree));
}

#[test]
fn min_and_max_are_the_ends_of_the_order() {
    let mut tree = tree_of(&[12, 1, 9, 2, 0, 11, 7, 19, 4, 15]);
    assert_eq!(tree.min(), Some(0));
    assert_eq!(tree.max(), Some(19));
    tree.delete(0);
    tree.delete(19);
    assert_eq!(tree.min(), Some(1));
    assert_eq!(tree.max(), Some(15));
    let root = tree.get_root().as_ref().unwrap();
    assert_eq!(root.get_min_value_in_children(), 1);
    assert_eq!(root.get_max_value_in_children(), 15);
}

#[test]
fn node_queries() {
    let tree = tree_of(&[0, 16, 16, 8, 24, 20, 22]);
    let root = tree.get_root().as_ref().unwrap();
    assert_eq!(root.get_value(), 20);
    assert_eq!(root.get_left().as_ref().unwrap().get_value(), 8);
    assert_eq!(root.get_right().as_ref().unwrap().get_value(), 24);
    assert!(root.contains(22));
    assert!(!root.contains(23));
    let mut keys = vec![100];
    root.in_order_traversal_for_test(&mut keys);
    assert_eq!(keys, vec![100, 0, 8, 16, 20, 22, 24]);
    let mut keys = vec![100];
    root.get_left().as_ref().unwrap().pre_order_traversal_for_test(&mut keys);
    assert_eq!(keys, vec![100, 8, 0, 16]);
}

#[test]
fn contains_follows_the_search_path() {
    // 9 stands to the left of 5, where the search for it does not go
    let node = *black(5, red(9, None, None), None).unwrap();
    assert!(!node.contains(9));
    assert!(node.contains(5));
    let node = *black(5, red(3, None, None), red(9, None, None)).unwrap();
    assert!(node.contains(9));
    assert!(node.contains(3));
    assert!(!node.contains(4));
}

#[test]
fn pre_order_traverse_appends_below_a_node() {
    let tree = tree_of(&[0, 16, 16, 8, 24, 20, 22]);
    let mut container = vec![-1];
    tree.pre_order_traverse(tree.get_root().as_ref().unwrap(), &mut container);
    assert_eq!(container, vec![-1, 20, 8, 0, 16, 24, 22]);
    let mut container = vec![];
    let right = tree.get_root().as_ref().unwrap().get_right().as_ref().unwrap();
    tree.pre_order_traverse(right, &mut container);
    assert_eq!(container, vec![24, 22]);
}

#[test]
fn colors_of_nodes() {
    assert_eq!(TreeNode::<i32>::get_color(&None), NodeColor::Black);
    assert!(TreeNode::<i32>::is_black(&None));
    assert!(!TreeNode::<i32>::is_red(&None));
    let node = red(1, None, None);
    assert_eq!(TreeNode::get_color(&node), NodeColor::Red);
    assert!(TreeNode::is_red(&node));
    assert!(!TreeNode::is_black(&node));
    let node = black(1, None, None);
    assert_eq!(TreeNode::get_color(&node), NodeColor::Black);
    assert!(TreeNode::is_black(&node));
    assert_eq!(NodeColor::Red.to_string(), "r");
    assert_eq!(NodeColor::Black.to_string(), "b");
}

#[test]
fn validator_counts_black_nodes() {
    // a Black child on one side only
    assert!(!FastRBTree::is_valid_red_black_tree(&black(2, black(1, None, None), None)));
    assert!(!FastRBTree::is_valid_red_black_tree(&black(2, None, black(3, None, None))));
    // a Red child adds no Black node
    assert!(FastRBTree::is_valid_red_black_tree(&black(2, red(1, None, None), None)));
    assert!(FastRBTree::is_valid_red_black_tree(&black(2, None, red(3, None, None))));
    let three = black(2, black(1, None, None), black(3, None, None));
    assert!(FastRBTree::is_valid_red_black_tree(&three));
    // a mismatch far below the root
    let deep = black(
        4,
        black(2, black(1, None, None), black(3, None, None)),
        black(6, black(5, None, None), red(7, None, None)),
    );
    assert!(!FastRBTree::is_valid_red_black_tree(&deep));
    let even = black(
        4,
        black(2, black(1, None, None), black(3, None, None)),
        black(6, black(5, None, None), black(7, None, None)),
    );
    assert!(FastRBTree::is_valid_red_black_tree(&even));
    assert!(FastRBTree::<i32>::is_valid_red_black_tree(&None));
}

#[test]
fn a_clone_shares_no_node() {
    let mut tree = tree_of(&[3, 1, 2]);
    let copy = tree.clone();
    assert_eq!(copy, tree);
    tree.insert(4);
    tree.delete(1);
    assert_eq!(in_order(&copy), vec![1, 2, 3]);
    assert_eq!(in_order(&tree), vec![2, 3, 4]);
    assert!(copy != tree);
}

#[test]
fn keys_of_other_types() {
    let mut tree = FastRBTree::new();
    for key in ['m', 'z', 'a', 'q', 'm', 'b'].iter() {
        tree.insert(*key);
    }
    let mut keys = vec![];
    tree.in_order_traversal_for_test(&mut keys);
    assert_eq!(keys, vec!['a', 'b', 'm', 'q', 'z']);
    assert_eq!(tree.min(), Some('a'));
    assert_eq!(tree.max(), Some('z'));
    tree.delete('m');
    assert!(!tree.contains('m'));
    assert!(tree.contains('q'));
    assert!(FastRBTree::is_valid_red_black_tree(tree.get_root()));
    let mut tree = FastRBTree::new();
    for key in [-3i64, 7, -10, 0].iter() {
        tree.insert(*key);
    }
    assert_eq!(tree.min(), Some(-10));
    assert_eq!(tree.max(), Some(7));
}

#[test]
fn many_keys_up_and_down() {
    let mut tree = FastRBTree::new();
    let mut key: u64 = 1;
    let mut keys = vec![];
    for _ in 0..500 {
        key = (key * 6364136223846793005 + 1442695040888963407) % 1000003;
        keys.push(key);
        tree.insert(key);
    }
    assert!(FastRBTree::is_valid_red_black_tree(tree.get_root()));
    let mut sorted = keys.clone();
    sorted.sort();
    sorted.dedup();
    let mut stored = vec![];
    tree.in_order_traversal_for_test(&mut stored);
    assert_eq!(stored, sorted);
    assert_eq!(tree.count_leaves() as usize, sorted.len() + 1);
    assert!(tree.height() <= 2 * 10 + 2);
    for (i, key) in keys.iter().enumerate() {
        tree.delete(*key);
        assert!(!tree.contains(*key));
        if i % 25 == 0 {
            assert!(FastRBTree::is_valid_red_black_tree(tree.get_root()));
            assert!(TreeNode::is_black(tree.get_root()));
        }
    }
    assert!(tree.is_tree_empty());
}

#[test]
fn labels_show_key_and_color() {
    let tree = tree_of(&[0, 16, 16, 8, 24, 20, 22]);
    let root = tree.get_root().as_ref().unwrap();
    assert_eq!(root.get_value_to_print(), "20b");
    assert_eq!(tree.in_order_traversal(), vec!["0b", "8r", "16b", "20b", "22r", "24b"]);
    assert_eq!(tree.pre_order_traversal(), vec!["20b", "8r", "0b", "16b", "24b", "22r"]);
    let mut labels = vec![String::from("x")];
    root.get_right().as_ref().unwrap().in_order_traversal(&mut labels);
    assert_eq!(labels, vec!["x", "22r", "24b"]);
    let mut labels = vec![String::from("x")];
    root.get_right().as_ref().unwrap().pre_order_traversal(&mut labels);
    assert_eq!(labels, vec!["x", "24b", "22r"]);
    let empty: FastRBTree<i32> = FastRBTree::new();
    assert_eq!(empty.in_order_traversal(), Vec::<String>::new());
    assert_eq!(empty.pre_order_traversal(), Vec::<String>::new());
    assert_eq!(TreeNode::new(-7).get_value_to_print(), "-7r");
}

fn lines(rows: Vec<Vec<String>>) -> Vec<String> {
    rows.iter().map(|row| row.concat()).collect()
}

#[test]
fn chart_of_one_node() {
    let tree = tree_of(&[5]);
    let rows = tree.get_root().as_ref().unwrap().chart().unwrap();
    assert_eq!(rows.len(), 3);
    for row in rows.iter() {
        assert_eq!(row.len(), 7);
    }
    assert_eq!(rows[0][3], "5b");
    assert_eq!(lines(rows), vec!["   5b   ", "       ", "       "]);
}

#[test]
fn chart_of_three_nodes() {
    let tree = tree_of(&[1, 2, 3]);
    let rows = tree.get_root().as_ref().unwrap().chart().unwrap();
    assert_eq!(rows.len(), 5);
    for row in rows.iter() {
        assert_eq!(row.len(), 13);
    }
    assert_eq!(rows[0][6], "2b");
    assert_eq!(rows[1][4], "/");
    assert_eq!(rows[1][8], "\\");
    assert_eq!(rows[2][2], "1b");
    assert_eq!(rows[2][10], "3b");
    assert_eq!(
        lines(rows),
        vec![
            "      2b      ",
            "    /   \\    ",
            "  1b       3b  ",
            "             ",
            "             ",
        ]
    );
}

#[test]
fn chart_of_a_left_leaning_pair() {
    let tree = tree_of(&[10, 20]);
    let rows = tree.get_root().as_ref().unwrap().chart().unwrap();
    assert_eq!(
        lines(rows),
        vec![
            "      20b      ",
            "    /        ",
            "  10r          ",
            "             ",
            "             ",
        ]
    );
}

#[test]
fn chart_of_four_levels() {
    let tree = tree_of(&[0, 16, 16, 8, 24, 20, 22]);
    let root = tree.get_root().as_ref().unwrap();
    assert_eq!(root.get_height(), 4);
    let rows = root.chart().unwrap();
    assert_eq!(rows.len(), 7);
    for row in rows.iter() {
        assert_eq!(row.len(), 25);
    }
    assert_eq!(rows[0][12], "20b");
    assert_eq!(rows[1][9], "/");
    assert_eq!(rows[1][15], "\\");
    assert_eq!(rows[2][6], "8r");
    assert_eq!(rows[2][18], "24b");
    assert_eq!(rows[3][4], "/");
    assert_eq!(rows[3][8], "\\");
    assert_eq!(rows[3][16], "/");
    assert_eq!(rows[4][2], "0b");
    assert_eq!(rows[4][10], "16b");
    assert_eq!(rows[4][14], "22r");
    let marked: usize =
        rows.iter().map(|row| row.iter().filter(|cell| cell.as_str() != " ").count()).sum();
    assert_eq!(marked, 11);
}

#[test]
fn chart_needs_cells_that_can_be_counted() {
    // a chain of seventy nodes would need more cells in a row than there are numbers
    let mut chain: Link = None;
    for key in 0..70 {
        chain = black(key, chain, None);
    }
    let top = chain.unwrap();
    assert_eq!(top.get_height(), 71);
    assert!(top.chart().is_none());
    assert_eq!(top.count_leaves(), 71);
    assert_eq!(top.get_min_value_in_children(), 0);
    assert_eq!(top.get_max_value_in_children(), 69);
}

fn at_rest(link: &Link, above_is_red: bool) -> bool {
    match link {
        None => true,
        Some(node) => {
            let is_red = node.color == NodeColor::Red;
            let left_is_red = TreeNode::is_red(&node.left);
            !TreeNode::is_red(&node.right)
                && !(above_is_red && is_red)
                && !(is_red && left_is_red)
                && at_rest(&node.left, is_red)
                && at_rest(&node.right, false)
        }
    }
}

#[test]
fn follows_an_ordered_set_through_inserts_and_deletes() {
    let mut tree = FastRBTree::new();
    let mut model = std::collections::BTreeSet::new();
    let mut state: u64 = 7;
    for step in 0..4000 {
        state = state.wrapping_mul(6364136223846793005).wrapping_add(1442695040888963407);
        let key = ((state >> 33) % 97) as i32;
        if (state >> 20) % 3 == 0 {
            tree.delete(key);
            model.remove(&key);
        } else {
            tree.insert(key);
            model.insert(key);
        }
        assert_eq!(tree.contains(key), model.contains(&key));
        assert_eq!(tree.min(), model.iter().next().copied());
        assert_eq!(tree.max(), model.iter().next_back().copied());
        assert!(is_valid(&tree), "step {}", step);
        assert!(root_is_black(&tree), "step {}", step);
        assert!(at_rest(tree.get_root(), false), "step {}", step);
        if step % 50 == 0 {
            assert_eq!(in_order(&tree), model.iter().copied().collect::<Vec<i32>>());
            let expected_leaves = if model.is_empty() { 0 } else { model.len() as u32 + 1 };
            assert_eq!(tree.count_leaves(), expected_leaves);
        }
    }
}
