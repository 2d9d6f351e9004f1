//! The playing field as a grid of colour indices.
//!
//! The grid has `FIELD_WIDTH` columns and `FIELD_HEIGHT` rows and is stored
//! column by column in one flat vector: the cell in column `i` and row `j`
//! (row 0 at the bottom) is element `i * FIELD_HEIGHT + j`.  Columns 0 and 7
//! and row 0 are walls; the player's blocks live in columns 1..=6.  Only rows
//! 1..=12 are shown and take part in chains.
use vstd::prelude::*;

verus! {

pub const FIELD_WIDTH: usize = 8;
pub const FIELD_HEIGHT: usize = 22;
pub const FIELD_DISP_HEIGHT: usize = 12;
pub const GRID_LEN: usize = 176;

/// Colour index of an empty cell.
pub const EMPTY: i32 = 0;
/// Colour index of a garbage block.
pub const OJAMA: i32 = 6;
/// Colour index of a wall cell.
pub const WALL: i32 = 7;

pub open spec fn in_field(i: int, j: int) -> bool {
    0 <= i < FIELD_WIDTH && 0 <= j < FIELD_HEIGHT
}

pub open spec fn cell_index(i: int, j: int) -> int {
    i * 22 + j
}

/// The colour in column `i`, row `j` of the grid `g`.
pub open spec fn cell(g: Seq<i32>, i: int, j: int) -> i32 {
    g[cell_index(i, j)]
}

pub open spec fn is_wall_cell(i: int, j: int) -> bool {
    i == 0 || i == 7 || j == 0
}

/// A playable colour: one of the five block colours.
pub open spec fn is_color(c: i32) -> bool {
    1 <= c <= 5
}

/// The grid has the right size, its wall cells hold `WALL` and every other
/// cell holds a colour index from `EMPTY` to `OJAMA`.
pub open spec fn grid_wf(g: Seq<i32>) -> bool {
    &&& g.len() == GRID_LEN
    &&& forall|i: int, j: int|
        #![trigger cell(g, i, j)]
        in_field(i, j) ==> (if is_wall_cell(i, j) {
            cell(g, i, j) == WALL
        } else {
            0 <= cell(g, i, j) <= OJAMA
        })
}

/// `h` is the height of column `i`: the number of non-empty cells counted
/// from the bottom up to the first empty cell (the wall row included).
pub open spec fn is_height(g: Seq<i32>, i: int, h: int) -> bool {
    &&& 0 <= h <= FIELD_HEIGHT
    &&& forall|j: int| 0 <= j < h ==> #[trigger] cell(g, i, j) != EMPTY
    &&& h < FIELD_HEIGHT ==> cell(g, i, h) == EMPTY
}

pub proof fn lemma_cell_index_distinct(i1: int, j1: int, i2: int, j2: int)
    requires
        in_field(i1, j1),
        in_field(i2, j2),
        i1 != i2 || j1 != j2,
    ensures
        cell_index(i1, j1) != cell_index(i2, j2),
        0 <= cell_index(i1, j1) < GRID_LEN,
{
}

/// The colour at column `i`, row `j`.
pub fn get_cell(g: &Vec<i32>, i: usize, j: usize) -> (c: i32)
    requires
        g@.len() == GRID_LEN,
        in_field(i as int, j as int),
    ensures
        c == cell(g@, i as int, j as int),
{
    g[i * FIELD_HEIGHT + j]
}

/// Writes colour `c` to column `i`, row `j`; no other cell changes.
pub fn set_cell(g: &mut Vec<i32>, i: usize, j: usize, c: i32)
    requires
        old(g)@.len() == GRID_LEN,
        in_field(i as int, j as int),
    ensures
        final(g)@ == old(g)@.update(cell_index(i as int, j as int), c),
        final(g)@.len() == GRID_LEN,
        cell(final(g)@, i as int, j as int) == c,
        forall|a: int, b: int|
            in_field(a, b) && (a != i || b != j) ==> #[trigger] cell(final(g)@, a, b) == cell(
                old(g)@,
                a,
                b,
            ),
{
    g[i * FIELD_HEIGHT + j] = c;
    proof {
        assert forall|a: int, b: int| in_field(a, b) && (a != i || b != j) implies #[trigger] cell(
            g@,
            a,
            b,
        ) == cell(old(g)@, a, b) by {
            lemma_cell_index_distinct(a, b, i as int, j as int);
        }
    }
}

/// A grid with its walls in place and every other cell empty.
pub fn empty_grid() -> (g: Vec<i32>)
    ensures
        grid_wf(g@),
        forall|i: int, j: int|
            in_field(i, j) && !is_wall_cell(i, j) ==> #[trigger] cell(g@, i, j) == EMPTY,
{
    let mut g: Vec<i32> = Vec::new();
    let mut i: usize = 0;
    while i < FIELD_WIDTH
        invariant
            i <= FIELD_WIDTH,
            g@.len() == i * FIELD_HEIGHT,
            forall|a: int, b: int|
                0 <= a < i && 0 <= b < FIELD_HEIGHT ==> #[trigger] cell(g@, a, b) == (if is_wall_cell(
                    a,
                    b,
                ) {
                    WALL
                } else {
                    EMPTY
                }),
        decreases FIELD_WIDTH - i,
    {
        let mut j: usize = 0;
        while j < FIELD_HEIGHT
            invariant
                i < FIELD_WIDTH,
                j <= FIELD_HEIGHT,
                g@.len() == i * FIELD_HEIGHT + j,
                forall|a: int, b: int|
                    (0 <= a < i && 0 <= b < FIELD_HEIGHT) || (a == i && 0 <= b < j)
                        ==> #[trigger] cell(g@, a, b) == (if is_wall_cell(a, b) {
                        WALL
                    } else {
                        EMPTY
                    }),
            decreases FIELD_HEIGHT - j,
        {
            let ghost before = g@;
            if i == 0 || i == FIELD_WIDTH - 1 || j == 0 {
                g.push(WALL);
            } else {
                g.push(EMPTY);
            }
            proof {
                assert forall|a: int, b: int|
                    (0 <= a < i && 0 <= b < FIELD_HEIGHT) || (a == i && 0 <= b <= j) implies #[trigger] cell(
                    g@,
                    a,
                    b,
                ) == (if is_wall_cell(a, b) {
                    WALL
                } else {
                    EMPTY
                }) by {
                    assert(cell_index(a, b) <= i * 22 + j);
                    if a != i || b != j {
                        assert(cell(g@, a, b) == cell(before, a, b));
                    }
                }
            }
            j = j + 1;
        }
        i = i + 1;
    }
    g
}

/// The height of every column, as `Field::update_line_height` counts it:
/// the number of non-empty cells from the bottom up to the first empty one.
pub fn column_heights(g: &Vec<i32>) -> (dan: Vec<i32>)
    requires
        g@.len() == GRID_LEN,
    ensures
        dan@.len() == FIELD_WIDTH,
        forall|i: int| 0 <= i < FIELD_WIDTH ==> is_height(g@, i, #[trigger] dan@[i] as int),
{
    let mut dan: Vec<i32> = Vec::new();
    let mut i: usize = 0;
    while i < FIELD_WIDTH
        invariant
            i <= FIELD_WIDTH,
            g@.len() == GRID_LEN,
            dan@.len() == i,
            forall|a: int| 0 <= a < i ==> is_height(g@, a, #[trigger] dan@[a] as int),
        decreases FIELD_WIDTH - i,
    {
        let mut count: usize = 0;
        while count < FIELD_HEIGHT && get_cell(g, i, count) != EMPTY
            invariant
                i < FIELD_WIDTH,
                g@.len() == GRID_LEN,
                count <= FIELD_HEIGHT,
                forall|j: int| 0 <= j < count ==> #[trigger] cell(g@, i as int, j) != EMPTY,
            decreases FIELD_HEIGHT - count,
        {
            count = count + 1;
        }
        dan.push(count as i32);
        i = i + 1;
    }
    dan
}

} // verus!
