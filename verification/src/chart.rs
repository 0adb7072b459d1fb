//! The picture of a tree: the grid of cells on which its nodes and the links
//! between them are drawn.

use crate::common_trait::CommonTreeNodeTrait;
use crate::proofs::lemma_levels;
use crate::rb_tree_fast::{NodeColor, TreeNode};
use crate::shape::{label_of, levels};
use std::fmt::{Debug, Display};
use vstd::arithmetic::power2::{lemma2_to64, lemma_pow2_pos, lemma_pow2_unfold, pow2};
use vstd::prelude::*;
use vstd::string::StringExecFns;

verus! {

/// What a cell of the grid holds.
pub enum Mark<T> {
    /// Nothing.
    Blank,
    /// The link from a node down to its left child.
    LeftLink,
    /// The link from a node down to its right child.
    RightLink,
    /// A node, with its key and its color.
    Node(T, NodeColor),
}

/// `text` is what a cell with `mark` shows: a space, a slash, a backslash,
/// or a label of the node.
pub open spec fn shows<T: Display>(mark: Mark<T>, text: Seq<char>) -> bool {
    match mark {
        Mark::Blank => text == " "@,
        Mark::LeftLink => text == "/"@,
        Mark::RightLink => text == "\\"@,
        Mark::Node(value, color) => label_of(value, color, text),
    }
}

/// The cells `cells` show the grid `marks`, cell by cell.
pub open spec fn pictures<T: Display>(marks: Seq<Seq<Mark<T>>>, cells: Seq<Vec<String>>) -> bool {
    &&& cells.len() == marks.len()
    &&& forall|row: int|
        0 <= row < marks.len() ==> (#[trigger] cells[row])@.len() == marks[row].len()
    &&& forall|row: int, col: int|
        0 <= row < marks.len() && 0 <= col < marks[row].len() ==> shows(
            #[trigger] marks[row][col],
            cells[row]@[col]@,
        )
}

/// `marks` is a grid of `rows` rows of `width` cells each.
pub open spec fn grid_of<T>(marks: Seq<Seq<Mark<T>>>, rows: int, width: int) -> bool {
    &&& marks.len() == rows
    &&& forall|row: int| 0 <= row < rows ==> (#[trigger] marks[row]).len() == width
}

/// The grid of `rows` rows of `width` cells that holds nothing.
pub open spec fn blank_grid<T>(rows: nat, width: nat) -> Seq<Seq<Mark<T>>> {
    Seq::new(rows, |row: int| Seq::new(width, |col: int| Mark::Blank))
}

/// The grid `marks` with `mark` in the cell at `row` and `col`.
pub open spec fn put<T>(marks: Seq<Seq<Mark<T>>>, row: int, col: int, mark: Mark<T>) -> Seq<
    Seq<Mark<T>>,
> {
    marks.update(row, marks[row].update(col, mark))
}

/// The grid `marks` with the subtree of `n` drawn into it, for a picture of
/// `height` levels: `n` stands at `row` and `col`; a child stands two rows
/// further down, to the left or to the right by twice the number of levels
/// that are left below `n`, and the link to it stands halfway between the
/// two.
pub open spec fn drawn<T: Ord + Copy + Debug + Display>(
    marks: Seq<Seq<Mark<T>>>,
    n: TreeNode<T>,
    row: int,
    col: int,
    height: int,
) -> Seq<Seq<Mark<T>>>
    decreases n,
{
    let gap = height - row / 2 - 1;
    let with_node = put(marks, row, col, Mark::Node(n.value, n.color));
    let with_left = match n.left {
        None => with_node,
        Some(l) => drawn(
            put(with_node, row + 1, col - gap, Mark::LeftLink),
            *l,
            row + 2,
            col - gap * 2,
            height,
        ),
    };
    match n.right {
        None => with_left,
        Some(r) => drawn(
            put(with_left, row + 1, col + gap, Mark::RightLink),
            *r,
            row + 2,
            col + gap * 2,
            height,
        ),
    }
}

/// Number of rows of the picture of a tree of `height` levels: one for the
/// nodes of each level, and one for the links between two levels.
pub open spec fn chart_rows(height: nat) -> int {
    2 * height - 1
}

/// Number of cells in each row of the picture of a tree of `height` levels.
pub open spec fn chart_width(height: nat) -> int
    recommends
        height >= 2,
{
    (3 * pow2((height - 1) as nat) + 1) as int
}

/// The picture of the tree below `n`: its root stands in the middle of the
/// first row of a blank grid.
pub open spec fn chart_of<T: Ord + Copy + Debug + Display>(n: TreeNode<T>) -> Seq<Seq<Mark<T>>> {
    let height = levels(Some(Box::new(n)));
    drawn(
        blank_grid(chart_rows(height) as nat, chart_width(height) as nat),
        n,
        0,
        chart_width(height) / 2,
        height as int,
    )
}

/// How far to one side the nodes of a subtree of `remaining` levels can
/// stand from its root.
pub open spec fn reach(remaining: int) -> int
    decreases remaining,
{
    if remaining <= 2 {
        0
    } else {
        reach(remaining - 1) + 2 * (remaining - 1)
    }
}

/// A subtree can be drawn at `row` and `col` of a grid of `width` cells in
/// each row, for a picture of `height` levels: the row is that of a level
/// which leaves room for the levels of the subtree, and the column leaves
/// room for its reach to both sides.
pub open spec fn fits<T: Ord + Copy + Debug + Display>(
    n: TreeNode<T>,
    row: int,
    col: int,
    width: int,
    height: int,
) -> bool {
    &&& 0 <= row
    &&& row % 2 == 0
    &&& levels(Some(Box::new(n))) + row / 2 <= height
    &&& reach(height - row / 2) <= col
    &&& col + reach(height - row / 2) < width
}

/// A node has at least two levels: its own, and that of an empty subtree.
pub proof fn lemma_two_levels<T: Ord + Copy + Debug + Display>(n: TreeNode<T>)
    ensures
        levels(Some(Box::new(n))) >= 2,
{
    lemma_levels(n.left);
}

/// Drawing a subtree that fits keeps the rows and the width of the grid.
pub proof fn lemma_drawn_grid<T: Ord + Copy + Debug + Display>(
    marks: Seq<Seq<Mark<T>>>,
    n: TreeNode<T>,
    row: int,
    col: int,
    width: int,
    height: int,
)
    requires
        grid_of(marks, 2 * height - 1, width),
        fits(n, row, col, width, height),
    ensures
        grid_of(drawn(marks, n, row, col, height), 2 * height - 1, width),
    decreases n,
{
    lemma_two_levels(n);
    lemma_room_below(n, row, col, width, height);
    let with_node = put(marks, row, col, Mark::Node(n.value, n.color));
    let gap = height - row / 2 - 1;
    let with_left = match n.left {
        None => with_node,
        Some(l) => {
            let linked = put(with_node, row + 1, col - gap, Mark::LeftLink);
            lemma_drawn_grid(linked, *l, row + 2, col - gap * 2, width, height);
            drawn(linked, *l, row + 2, col - gap * 2, height)
        },
    };
    match n.right {
        None => {},
        Some(r) => {
            let linked = put(with_left, row + 1, col + gap, Mark::RightLink);
            lemma_drawn_grid(linked, *r, row + 2, col + gap * 2, width, height);
        },
    }
}

/// Where a subtree fits, its own cell lies on the grid, and so do the links
/// to its children; the children fit where they are drawn.
pub proof fn lemma_room_below<T: Ord + Copy + Debug + Display>(
    n: TreeNode<T>,
    row: int,
    col: int,
    width: int,
    height: int,
)
    requires
        fits(n, row, col, width, height),
    ensures
        row < 2 * height - 1,
        0 <= col < width,
        row / 2 < height,
        n.left is Some ==> {
            &&& row + 2 < 2 * height - 1
            &&& 0 <= col - (height - row / 2 - 1) < width
            &&& 0 <= col - (height - row / 2 - 1) * 2
            &&& fits(*n.left.unwrap(), row + 2, col - (height - row / 2 - 1) * 2, width, height)
        },
        n.right is Some ==> {
            &&& row + 2 < 2 * height - 1
            &&& 0 <= col + (height - row / 2 - 1) < width
            &&& col + (height - row / 2 - 1) * 2 < width
            &&& fits(*n.right.unwrap(), row + 2, col + (height - row / 2 - 1) * 2, width, height)
        },
{
    reveal_with_fuel(reach, 2);
    lemma_two_levels(n);
    lemma_reach(height - row / 2);
    lemma_reach(height - row / 2 - 1);
    lemma_reach(height - row / 2 - 2);
    assert((row + 2) / 2 == row / 2 + 1);
    assert((row + 2) % 2 == 0);
    match n.left {
        None => {},
        Some(l) => {
            lemma_two_levels(*l);
        },
    }
    match n.right {
        None => {},
        Some(r) => {
            lemma_two_levels(*r);
        },
    }
}

/// The reach is never negative.
pub proof fn lemma_reach(remaining: int)
    ensures
        reach(remaining) >= 0,
    decreases remaining,
{
    if remaining > 2 {
        lemma_reach(remaining - 1);
    }
}

/// The middle of the first row leaves room for the reach of a tree of
/// `height` levels to both sides.
pub proof fn lemma_reach_fits(height: nat)
    requires
        height >= 2,
    ensures
        chart_width(height) / 2 == 3 * pow2((height - 2) as nat),
        reach(height as int) <= chart_width(height) / 2,
        chart_width(height) / 2 + reach(height as int) < chart_width(height),
        height >= 4 ==> 2 * height <= 3 * pow2((height - 2) as nat),
    decreases height,
{
    lemma2_to64();
    lemma_pow2_unfold((height - 1) as nat);
    reveal_with_fuel(reach, 4);
    if height > 4 {
        lemma_reach_fits((height - 1) as nat);
        lemma_pow2_unfold((height - 2) as nat);
        lemma_pow2_pos((height - 3) as nat);
    }
}

/// With a text that shows `mark` in the cell at `row` and `col`, the cells
/// show the grid with `mark` put there.
proof fn lemma_put_shown<T: Display>(
    marks: Seq<Seq<Mark<T>>>,
    before: Seq<Vec<String>>,
    after: Seq<Vec<String>>,
    row: int,
    col: int,
    mark: Mark<T>,
)
    requires
        pictures(marks, before),
        0 <= row < marks.len(),
        0 <= col < marks[row].len(),
        after == before.update(row, after[row]),
        after[row]@ == before[row]@.update(col, after[row]@[col]),
        shows(mark, after[row]@[col]@),
    ensures
        pictures(put(marks, row, col, mark), after),
{
    let next = put(marks, row, col, mark);
    assert forall|r: int, c: int| 0 <= r < next.len() && 0 <= c < next[r].len() implies shows(
        #[trigger] next[r][c],
        after[r]@[c]@,
    ) by {
        if r == row && c == col {
        } else {
            assert(next[r][c] == marks[r][c]);
            assert(after[r]@[c] == before[r]@[c]);
        }
    }
}

impl<T: Ord + Copy + Debug + Display> TreeNode<T> {
    /// The grid of cells on which the tree below the node is drawn, row by
    /// row: the node stands in the middle of the first row, every other node
    /// two rows below its parent, and a slash or a backslash between the two.
    /// `None` where a row of the grid would have more cells than can be
    /// counted.
    pub fn chart(&self) -> (rows: Option<Vec<Vec<String>>>)
        ensures
            match rows {
                Some(rows) => pictures(chart_of(*self), rows@),
                None => chart_width(levels(Some(Box::new(*self)))) > usize::MAX,
            },
    {
        proof {
            lemma2_to64();
            lemma_two_levels(*self);
        }
        let ghost tall = levels(Some(Box::new(*self)));
        // a row for more than 64 levels has more cells than a word can count
        let height: usize = match self.height_within(64) {
            Some(height) => height as usize,
            None => {
                proof {
                    lemma_pow2_grows(64, (tall - 1) as nat);
                }
                return None;
            },
        };
        // three cells for each pair of nodes that the lowest level can hold
        let mut half: usize = 3;
        let mut level: usize = 2;
        while level < height
            invariant
                2 <= level <= height,
                half == 3 * pow2((level - 2) as nat),
                height == levels(Some(Box::new(*self))),
            decreases height - level,
        {
            proof {
                lemma_pow2_unfold((level - 1) as nat);
                lemma_pow2_grows((level - 1) as nat, (height - 1) as nat);
            }
            match half.checked_mul(2) {
                Some(doubled) => {
                    half = doubled;
                },
                None => {
                    return None;
                },
            }
            level = level + 1;
        }
        proof {
            lemma_pow2_unfold((height - 1) as nat);
            lemma_reach_fits(height as nat);
        }
        let array_width: usize = match half.checked_mul(2) {
            Some(doubled) => match doubled.checked_add(1) {
                Some(width) => width,
                None => {
                    return None;
                },
            },
            None => {
                return None;
            },
        };
        let array_height: usize = height * 2 - 1;
        let mut container: Vec<Vec<String>> = Vec::new();
        let mut row: usize = 0;
        while row < array_height
            invariant
                row <= array_height,
                pictures(blank_grid::<T>(row as nat, array_width as nat), container@),
            decreases array_height - row,
        {
            let mut line: Vec<String> = Vec::new();
            let mut col: usize = 0;
            while col < array_width
                invariant
                    col <= array_width,
                    line@.len() == col,
                    forall|i: int| 0 <= i < col ==> (#[trigger] line@[i])@ == " "@,
                decreases array_width - col,
            {
                line.push(String::from_str(" "));
                col = col + 1;
            }
            container.push(line);
            row = row + 1;
        }
        let ghost blank = blank_grid::<T>(array_height as nat, array_width as nat);
        proof {
            assert(grid_of(blank, 2 * height - 1, array_width as int));
            assert(fits(*self, 0, (array_width / 2) as int, array_width as int, height as int));
            assert(array_width == chart_width(tall));
        }
        self.print_helper(0, array_width / 2, &mut container, height, Ghost(blank));
        Some(container)
    }

    /// Draw the node at `row_index` and `column_index` of `container`, and
    /// the nodes below it two rows further down each, with the links between
    /// them.
    pub(crate) fn print_helper(
        &self,
        row_index: usize,
        column_index: usize,
        container: &mut Vec<Vec<String>>,
        height: usize,
        Ghost(marks): Ghost<Seq<Seq<Mark<T>>>>,
    )
        requires
            pictures(marks, old(container)@),
            2 * height - 1 <= usize::MAX,
            exists|width: int|
                #![trigger fits(*self, row_index as int, column_index as int, width, height as int)]
                width <= usize::MAX && grid_of(marks, 2 * height - 1, width) && fits(
                    *self,
                    row_index as int,
                    column_index as int,
                    width,
                    height as int,
                ),
        ensures
            pictures(
                drawn(marks, *self, row_index as int, column_index as int, height as int),
                final(container)@,
            ),
        decreases self,
    {
        let ghost width = choose|width: int|
            #![trigger fits(*self, row_index as int, column_index as int, width, height as int)]
            width <= usize::MAX && grid_of(marks, 2 * height - 1, width) && fits(
                *self,
                row_index as int,
                column_index as int,
                width,
                height as int,
            );
        let ghost row = row_index as int;
        let ghost col = column_index as int;
        proof {
            lemma_room_below(*self, row, col, width, height as int);
        }
        // save current node into the container
        container[row_index][column_index] = self.get_value_to_print();
        let ghost with_node = put(marks, row, col, Mark::Node(self.value, self.color));
        proof {
            lemma_put_shown(
                marks,
                old(container)@,
                container@,
                row,
                col,
                Mark::Node(self.value, self.color),
            );
        }
        assert(container@.len() == 2 * height - 1 && container@[row + 1]@.len() == width) by {
            lemma_two_levels(*self);
        }
        // the level of the node, and the levels that are left below it
        let curr_height = row_index / 2;
        let gap = height - curr_height - 1;
        // if it has left child, then record "/" and the left node's value
        let ghost mut with_left = with_node;
        match self.get_left() {
            None => (),
            Some(node) => {
                let ghost before = container@;
                container[row_index + 1][column_index - gap] = String::from_str("/");
                let ghost linked = put(with_node, row + 1, col - gap, Mark::LeftLink);
                proof {
                    lemma_put_shown(
                        with_node,
                        before,
                        container@,
                        row + 1,
                        col - gap,
                        Mark::LeftLink,
                    );
                    with_left = drawn(linked, **node, row + 2, col - gap * 2, height as int);
                    lemma_drawn_grid(linked, **node, row + 2, col - gap * 2, width, height as int);
                }
                node.print_helper(
                    row_index + 2,
                    column_index - gap * 2,
                    container,
                    height,
                    Ghost(linked),
                );
            },
        }
        // if it has right child, then record "\" and the right node's value
        match self.get_right() {
            None => (),
            Some(node) => {
                let ghost before = container@;
                container[row_index + 1][column_index + gap] = String::from_str("\\");
                let ghost linked = put(with_left, row + 1, col + gap, Mark::RightLink);
                proof {
                    lemma_put_shown(
                        with_left,
                        before,
                        container@,
                        row + 1,
                        col + gap,
                        Mark::RightLink,
                    );
                }
                node.print_helper(
                    row_index + 2,
                    column_index + gap * 2,
                    container,
                    height,
                    Ghost(linked),
                );
            },
        }
    }

    /// The number of levels of the subtree, where they are no more than
    /// `limit`.
    fn height_within(&self, limit: u32) -> (height: Option<u32>)
        ensures
            match height {
                Some(height) => height == levels(Some(Box::new(*self))) && height <= limit,
                None => levels(Some(Box::new(*self))) > limit,
            },
        decreases self,
    {
        proof {
            lemma_two_levels(*self);
            lemma_levels(self.left);
            lemma_levels(self.right);
        }
        if limit < 2 {
            return None;
        }
        let left_height = match self.get_left() {
            None => 1,
            Some(l) => match l.height_within(limit - 1) {
                Some(height) => height,
                None => {
                    return None;
                },
            },
        };
        let right_height = match self.get_right() {
            None => 1,
            Some(r) => match r.height_within(limit - 1) {
                Some(height) => height,
                None => {
                    return None;
                },
            },
        };
        if left_height >= right_height {
            Some(left_height + 1)
        } else {
            Some(right_height + 1)
        }
    }
}

/// The powers of two do not fall.
proof fn lemma_pow2_grows(lower: nat, upper: nat)
    requires
        lower <= upper,
    ensures
        pow2(lower) <= pow2(upper),
    decreases upper,
{
    if lower < upper {
        lemma_pow2_grows(lower, (upper - 1) as nat);
        lemma_pow2_unfold(upper);
    }
}

} // verus!
