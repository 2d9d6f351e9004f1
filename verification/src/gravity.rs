//! Letting blocks fall into the gaps below them.
use vstd::prelude::*;
use crate::grid::{
    cell, get_cell, in_field, is_wall_cell, set_cell, FIELD_HEIGHT, GRID_LEN,
};

verus! {

/// Number of empty cells in rows 1..`j` of column `i`.
#[verifier::opaque]
pub open spec fn gaps_below(g: Seq<i32>, i: int, j: int) -> int
    decreases j,
{
    if j <= 1 {
        0
    } else {
        gaps_below(g, i, j - 1) + (if cell(g, i, j - 1) == 0 {
            1int
        } else {
            0int
        })
    }
}

/// Column `i` of `h` is column `i` of `g` with every block moved down by the
/// number of gaps below it, and the gaps gathered at the top.
pub open spec fn fallen_column(g: Seq<i32>, h: Seq<i32>, i: int) -> bool {
    let top = FIELD_HEIGHT - gaps_below(g, i, FIELD_HEIGHT as int);
    &&& forall|j: int|
        1 <= j < FIELD_HEIGHT && #[trigger] cell(g, i, j) != 0 ==> cell(h, i, j - gaps_below(g, i, j))
            == cell(g, i, j)
    &&& forall|r: int| 1 <= r < top ==> #[trigger] cell(h, i, r) != 0
    &&& forall|r: int| top <= r < FIELD_HEIGHT ==> #[trigger] cell(h, i, r) == 0
}

/// `h` is the field `g` after its blocks have fallen: the playing columns
/// have fallen, the walls are as they were.
pub open spec fn fallen(g: Seq<i32>, h: Seq<i32>) -> bool {
    &&& h.len() == GRID_LEN
    &&& forall|i: int| 1 <= i <= 6 ==> #[trigger] fallen_column(g, h, i)
    &&& forall|i: int, j: int|
        in_field(i, j) && is_wall_cell(i, j) ==> #[trigger] cell(h, i, j) == cell(g, i, j)
}

/// No block of the playing columns has a gap below it.
pub open spec fn settled(g: Seq<i32>) -> bool {
    forall|i: int, j: int, k: int|
        1 <= i <= 6 && 1 <= j < k < FIELD_HEIGHT && #[trigger] cell(g, i, j) == 0 ==> #[trigger] cell(
            g,
            i,
            k,
        ) == 0
}

/// A block that falls: column, row it leaves, row it lands in.
pub open spec fn is_move(g: Seq<i32>, m: (usize, usize, usize)) -> bool {
    &&& 1 <= m.0 <= 6
    &&& 1 <= m.1 < FIELD_HEIGHT
    &&& cell(g, m.0 as int, m.1 as int) != 0
    &&& gaps_below(g, m.0 as int, m.1 as int) > 0
    &&& m.2 == m.1 - gaps_below(g, m.0 as int, m.1 as int)
}

pub proof fn lemma_gaps_unfold(g: Seq<i32>, i: int, j: int)
    ensures
        gaps_below(g, i, 1) == 0,
        j >= 1 ==> gaps_below(g, i, j + 1) == gaps_below(g, i, j) + (if cell(g, i, j) == 0 {
            1int
        } else {
            0int
        }),
{
    reveal(gaps_below);
}

pub proof fn lemma_gaps_bounds(g: Seq<i32>, i: int, r: int, j: int)
    requires
        1 <= r <= j,
    ensures
        0 <= gaps_below(g, i, j) - gaps_below(g, i, r) <= j - r,
        0 <= gaps_below(g, i, r) <= r - 1,
    decreases j - r,
{
    lemma_gaps_unfold(g, i, j - 1);
    if r < j {
        lemma_gaps_bounds(g, i, r, j - 1);
    } else {
        lemma_gaps_low(g, i, r);
    }
}

proof fn lemma_gaps_low(g: Seq<i32>, i: int, r: int)
    requires
        1 <= r,
    ensures
        0 <= gaps_below(g, i, r) <= r - 1,
    decreases r,
{
    lemma_gaps_unfold(g, i, r - 1);
    if r > 1 {
        lemma_gaps_low(g, i, r - 1);
    }
}

/// The gaps of a column depend on that column alone.
pub proof fn lemma_gaps_same(g1: Seq<i32>, g2: Seq<i32>, i: int, j: int)
    requires
        forall|r: int| 0 <= r < FIELD_HEIGHT ==> #[trigger] cell(g1, i, r) == cell(g2, i, r),
        j <= FIELD_HEIGHT,
    ensures
        gaps_below(g1, i, j) == gaps_below(g2, i, j),
    decreases j,
{
    lemma_gaps_unfold(g1, i, j - 1);
    lemma_gaps_unfold(g2, i, j - 1);
    if j > 1 {
        lemma_gaps_same(g1, g2, i, j - 1);
        assert(cell(g1, i, j - 1) == cell(g2, i, j - 1));
    } else {
        reveal(gaps_below);
    }
}

/// Whether a column has fallen depends on that column alone.
proof fn lemma_fallen_column_transfer(
    g1: Seq<i32>,
    g2: Seq<i32>,
    h1: Seq<i32>,
    h2: Seq<i32>,
    i: int,
)
    requires
        forall|r: int| 0 <= r < FIELD_HEIGHT ==> #[trigger] cell(g1, i, r) == cell(g2, i, r),
        forall|r: int| 0 <= r < FIELD_HEIGHT ==> #[trigger] cell(h1, i, r) == cell(h2, i, r),
        fallen_column(g1, h1, i),
    ensures
        fallen_column(g2, h2, i),
{
    lemma_gaps_same(g1, g2, i, FIELD_HEIGHT as int);
    assert forall|j: int| 1 <= j < FIELD_HEIGHT && #[trigger] cell(g2, i, j) != 0 implies cell(
        h2,
        i,
        j - gaps_below(g2, i, j),
    ) == cell(g2, i, j) by {
        lemma_gaps_same(g1, g2, i, j);
        lemma_gaps_low(g1, i, j);
        assert(cell(g1, i, j) != 0);
        assert(cell(h1, i, j - gaps_below(g1, i, j)) == cell(h2, i, j - gaps_below(g1, i, j)));
    }
    lemma_gaps_low(g1, i, FIELD_HEIGHT as int);
    let top = FIELD_HEIGHT - gaps_below(g1, i, FIELD_HEIGHT as int);
    assert forall|r: int| 1 <= r < top implies #[trigger] cell(h2, i, r) != 0 by {
        assert(cell(h1, i, r) != 0);
    }
    assert forall|r: int| top <= r < FIELD_HEIGHT implies #[trigger] cell(h2, i, r) == 0 by {
        assert(cell(h1, i, r) == 0);
    }
}

/// A block below row `j` lands below where the block at row `j` lands.
proof fn lemma_landing_order(g: Seq<i32>, i: int, r: int, j: int)
    requires
        1 <= r < j,
        cell(g, i, r) != 0,
    ensures
        r - gaps_below(g, i, r) < j - gaps_below(g, i, j),
{
    lemma_gaps_unfold(g, i, r);
    lemma_gaps_bounds(g, i, r + 1, j);
}

/// Lets the blocks of column `i` fall, and appends the blocks that moved to
/// `moves`.
fn fall_column(arrange: &mut Vec<i32>, moves: &mut Vec<(usize, usize, usize)>, i: usize)
    requires
        1 <= i < 7,
        old(arrange)@.len() == GRID_LEN,
        old(moves)@.no_duplicates(),
        forall|k: int| 0 <= k < old(moves)@.len() ==> #[trigger] old(moves)@[k].0 < i,
    ensures
        final(arrange)@.len() == GRID_LEN,
        fallen_column(old(arrange)@, final(arrange)@, i as int),
        forall|c: int, r: int|
            in_field(c, r) && (c != i || is_wall_cell(c, r)) ==> #[trigger] cell(final(arrange)@, c, r)
                == cell(old(arrange)@, c, r),
        final(moves)@.no_duplicates(),
        final(moves)@.len() >= old(moves)@.len(),
        forall|k: int| 0 <= k < old(moves)@.len() ==> #[trigger] final(moves)@[k] == old(moves)@[k],
        forall|k: int|
            old(moves)@.len() <= k < final(moves)@.len() ==> is_move(
                old(arrange)@,
                #[trigger] final(moves)@[k],
            ) && final(moves)@[k].0 == i,
        forall|m: (usize, usize, usize)|
            is_move(old(arrange)@, m) && m.0 == i ==> final(moves)@.contains(m),
{
    let ghost g = arrange@;
    let ghost m0 = moves@;
    let mut fall_count: usize = 0;
    let mut j: usize = 1;
    proof {
        lemma_gaps_unfold(g, i as int, 1);
    }
    while j < FIELD_HEIGHT
        invariant
            1 <= i < 7,
            1 <= j <= FIELD_HEIGHT,
            g == old(arrange)@,
            m0 == old(moves)@,
            arrange@.len() == GRID_LEN,
            fall_count == gaps_below(g, i as int, j as int),
            fall_count < j,
            forall|c: int, r: int|
                in_field(c, r) && (c != i || is_wall_cell(c, r)) ==> #[trigger] cell(arrange@, c, r)
                    == cell(g, c, r),
            forall|r: int|
                1 <= r < j && #[trigger] cell(g, i as int, r) != 0 ==> cell(
                    arrange@,
                    i as int,
                    r - gaps_below(g, i as int, r),
                ) == cell(g, i as int, r),
            forall|r: int| 1 <= r < j - fall_count ==> #[trigger] cell(arrange@, i as int, r) != 0,
            forall|r: int| j - fall_count <= r < j ==> #[trigger] cell(arrange@, i as int, r) == 0,
            forall|r: int|
                j <= r < FIELD_HEIGHT ==> #[trigger] cell(arrange@, i as int, r) == cell(
                    g,
                    i as int,
                    r,
                ),
            moves@.no_duplicates(),
            moves@.len() >= m0.len(),
            forall|k: int| 0 <= k < m0.len() ==> #[trigger] moves@[k] == m0[k] && m0[k].0 < i,
            forall|k: int|
                m0.len() <= k < moves@.len() ==> is_move(g, #[trigger] moves@[k]) && moves@[k].0 == i
                    && moves@[k].1 < j,
            forall|m: (usize, usize, usize)|
                is_move(g, m) && m.0 == i && m.1 < j ==> moves@.contains(m),
        decreases FIELD_HEIGHT - j,
    {
        proof {
            lemma_gaps_unfold(g, i as int, j as int);
        }
        let c = get_cell(arrange, i, j);
        let ghost prev = arrange@;
        let ghost prev_moves = moves@;
        if c == 0 {
            fall_count = fall_count + 1;
        } else if fall_count != 0 {
            set_cell(arrange, i, j - fall_count, c);
            set_cell(arrange, i, j, 0);
            moves.push((i, j, j - fall_count));
            proof {
                let m = (i, j, (j - fall_count) as usize);
                assert(is_move(g, m));
                assert forall|k: int| 0 <= k < m0.len() implies #[trigger] moves@[k] == m0[k] && m0[k].0
                    < i by {
                    assert(moves@[k] == prev_moves[k]);
                }
                assert forall|k: int| 0 <= k < prev_moves.len() implies prev_moves[k] != m by {
                    if k < m0.len() {
                        assert(prev_moves[k] == m0[k]);
                    }
                }
            }
        }
        proof {
            assert forall|r: int|
                1 <= r < j + 1 && #[trigger] cell(g, i as int, r) != 0 implies cell(
                arrange@,
                i as int,
                r - gaps_below(g, i as int, r),
            ) == cell(g, i as int, r) by {
                if r < j {
                    lemma_landing_order(g, i as int, r, j as int);
                    lemma_gaps_bounds(g, i as int, r, j as int);
                }
            }
            assert forall|mm: (usize, usize, usize)|
                is_move(g, mm) && mm.0 == i && mm.1 < j + 1 implies moves@.contains(mm) by {
                if mm.1 == j {
                    assert(moves@.last() == mm);
                } else {
                    let k = choose|k: int| 0 <= k < prev_moves.len() && prev_moves[k] == mm;
                    assert(moves@[k] == mm);
                }
            }
        }
        j = j + 1;
    }
}

/// Lets every block of the playing columns fall into the gaps below it, as
/// the fall check of the field does, and returns the blocks that moved.
pub fn fall_check(arrange: &mut Vec<i32>) -> (moves: Vec<(usize, usize, usize)>)
    requires
        old(arrange)@.len() == GRID_LEN,
    ensures
        fallen(old(arrange)@, final(arrange)@),
        settled(final(arrange)@),
        moves@.no_duplicates(),
        forall|k: int| 0 <= k < moves@.len() ==> is_move(old(arrange)@, #[trigger] moves@[k]),
        forall|m: (usize, usize, usize)| is_move(old(arrange)@, m) ==> moves@.contains(m),
{
    let ghost g = arrange@;
    let mut moves: Vec<(usize, usize, usize)> = Vec::new();
    let mut i: usize = 1;
    while i < 7
        invariant
            1 <= i <= 7,
            g == old(arrange)@,
            arrange@.len() == GRID_LEN,
            forall|c: int| 1 <= c < i ==> #[trigger] fallen_column(g, arrange@, c),
            forall|c: int, j: int|
                in_field(c, j) && (c >= i || is_wall_cell(c, j)) ==> #[trigger] cell(arrange@, c, j)
                    == cell(g, c, j),
            moves@.no_duplicates(),
            forall|k: int|
                0 <= k < moves@.len() ==> is_move(g, #[trigger] moves@[k]) && moves@[k].0 < i,
            forall|m: (usize, usize, usize)| is_move(g, m) && m.0 < i ==> moves@.contains(m),
        decreases 7 - i,
    {
        let ghost prev = arrange@;
        let ghost prev_moves = moves@;
        fall_column(arrange, &mut moves, i);
        proof {
            assert forall|r: int| 0 <= r < FIELD_HEIGHT implies #[trigger] cell(prev, i as int, r)
                == cell(g, i as int, r) by {
            }
            assert forall|c: int| 1 <= c < i + 1 implies #[trigger] fallen_column(g, arrange@, c) by {
                if c < i {
                    assert(fallen_column(g, prev, c));
                    assert forall|r: int| 0 <= r < FIELD_HEIGHT implies #[trigger] cell(arrange@, c, r)
                        == cell(prev, c, r) by {
                    }
                    assert forall|r: int| 0 <= r < FIELD_HEIGHT implies #[trigger] cell(g, c, r) == cell(
                        g,
                        c,
                        r,
                    ) by {
                    }
                    lemma_fallen_column_transfer(g, g, prev, arrange@, c);
                } else {
                    assert forall|r: int| 0 <= r < FIELD_HEIGHT implies #[trigger] cell(
                        arrange@,
                        c,
                        r,
                    ) == cell(arrange@, c, r) by {
                    }
                    lemma_fallen_column_transfer(prev, g, arrange@, arrange@, c);
                }
            }
            assert forall|k: int| 0 <= k < moves@.len() implies is_move(g, #[trigger] moves@[k])
                && moves@[k].0 < i + 1 by {
                if k >= prev_moves.len() {
                    let m = moves@[k];
                    assert(is_move(prev, m));
                    lemma_gaps_same(prev, g, i as int, m.1 as int);
                } else {
                    assert(moves@[k] == prev_moves[k]);
                }
            }
            assert forall|m: (usize, usize, usize)| is_move(g, m) && m.0 < i + 1 implies moves@.contains(
                m,
            ) by {
                if m.0 < i {
                    let k = choose|k: int| 0 <= k < prev_moves.len() && prev_moves[k] == m;
                    assert(moves@[k] == m);
                } else {
                    lemma_gaps_same(prev, g, i as int, m.1 as int);
                    assert(is_move(prev, m));
                }
            }
        }
        i = i + 1;
    }
    proof {
        law_fallen_is_settled(g, arrange@);
    }
    moves
}

/// After blocks have fallen no block has a gap below it.
pub proof fn law_fallen_is_settled(g: Seq<i32>, h: Seq<i32>)
    requires
        g.len() == GRID_LEN,
        fallen(g, h),
    ensures
        settled(h),
{
    assert forall|i: int, j: int, k: int|
        1 <= i <= 6 && 1 <= j < k < FIELD_HEIGHT && #[trigger] cell(h, i, j) == 0 implies #[trigger] cell(
        h,
        i,
        k,
    ) == 0 by {
        assert(fallen_column(g, h, i));
    }
}

/// Letting the blocks of a settled field fall changes nothing.
pub proof fn law_settled_does_not_move(g: Seq<i32>, h: Seq<i32>)
    requires
        g.len() == GRID_LEN,
        settled(g),
        fallen(g, h),
    ensures
        forall|i: int, j: int| in_field(i, j) ==> #[trigger] cell(h, i, j) == cell(g, i, j),
        forall|m: (usize, usize, usize)| !is_move(g, m),
{
    assert forall|i: int, j: int| 1 <= i <= 6 && 1 <= j <= FIELD_HEIGHT implies gaps_below(g, i, j)
        == 0 || (forall|r: int| j <= r < FIELD_HEIGHT ==> #[trigger] cell(g, i, r) == 0) by {
        lemma_settled_gaps(g, i, j);
    }
    assert forall|i: int, j: int| in_field(i, j) implies #[trigger] cell(h, i, j) == cell(g, i, j) by {
        if !is_wall_cell(i, j) {
            assert(fallen_column(g, h, i));
            lemma_settled_gaps(g, i, j);
            lemma_settled_gaps(g, i, FIELD_HEIGHT as int);
            if cell(g, i, j) != 0 {
                assert(gaps_below(g, i, j) == 0);
            } else {
                lemma_settled_top(g, i, j);
            }
        }
    }
    assert forall|m: (usize, usize, usize)| !is_move(g, m) by {
        if 1 <= m.0 <= 6 && 1 <= m.1 < FIELD_HEIGHT && cell(g, m.0 as int, m.1 as int) != 0 {
            lemma_settled_gaps(g, m.0 as int, m.1 as int);
        }
    }
}

/// Blocks that fall are neither lost nor gained: every playing column has
/// as many empty cells, hence as many blocks, after the fall as before.
pub proof fn law_fall_keeps_blocks(g: Seq<i32>, h: Seq<i32>)
    requires
        g.len() == GRID_LEN,
        fallen(g, h),
    ensures
        forall|i: int|
            1 <= i <= 6 ==> #[trigger] gaps_below(h, i, FIELD_HEIGHT as int) == gaps_below(
                g,
                i,
                FIELD_HEIGHT as int,
            ),
{
    assert forall|i: int| 1 <= i <= 6 implies #[trigger] gaps_below(h, i, FIELD_HEIGHT as int)
        == gaps_below(g, i, FIELD_HEIGHT as int) by {
        assert(fallen_column(g, h, i));
        lemma_gaps_low(g, i, FIELD_HEIGHT as int);
        let top = FIELD_HEIGHT - gaps_below(g, i, FIELD_HEIGHT as int);
        lemma_gaps_of_stack(h, i, top, FIELD_HEIGHT as int);
    }
}

/// In a column whose cells below `top` are full and from `top` on empty,
/// the empty cells below row `j` are those from `top` to `j`.
proof fn lemma_gaps_of_stack(h: Seq<i32>, i: int, top: int, j: int)
    requires
        1 <= top <= FIELD_HEIGHT,
        1 <= j <= FIELD_HEIGHT,
        forall|r: int| 1 <= r < top ==> #[trigger] cell(h, i, r) != 0,
        forall|r: int| top <= r < FIELD_HEIGHT ==> #[trigger] cell(h, i, r) == 0,
    ensures
        gaps_below(h, i, j) == (if j > top {
            j - top
        } else {
            0
        }),
    decreases j,
{
    lemma_gaps_unfold(h, i, j - 1);
    if j > 1 {
        lemma_gaps_of_stack(h, i, top, j - 1);
        if j - 1 < top {
            assert(cell(h, i, j - 1) != 0);
        } else {
            assert(cell(h, i, j - 1) == 0);
        }
    }
}

/// In a settled column there is no gap below a row unless that row and
/// everything above it is empty.
proof fn lemma_settled_gaps(g: Seq<i32>, i: int, j: int)
    requires
        settled(g),
        1 <= i <= 6,
        1 <= j <= FIELD_HEIGHT,
    ensures
        gaps_below(g, i, j) == 0 || (forall|r: int| j <= r < FIELD_HEIGHT ==> #[trigger] cell(g, i, r)
            == 0),
        gaps_below(g, i, j) == 0 ==> forall|r: int| 1 <= r < j ==> #[trigger] cell(g, i, r) != 0,
    decreases j,
{
    lemma_gaps_unfold(g, i, j - 1);
    if j > 1 {
        lemma_settled_gaps(g, i, j - 1);
        lemma_gaps_low(g, i, j - 1);
        if gaps_below(g, i, j - 1) != 0 {
            assert forall|r: int| j <= r < FIELD_HEIGHT implies #[trigger] cell(g, i, r) == 0 by {
                assert(cell(g, i, j - 1) == 0);
            }
        } else if cell(g, i, j - 1) == 0 {
            assert forall|r: int| j <= r < FIELD_HEIGHT implies #[trigger] cell(g, i, r) == 0 by {
                assert(cell(g, i, j - 1) == 0);
            }
        }
    }
}

/// In a settled column, the empty rows are the top `gaps_below` rows.
proof fn lemma_settled_top(g: Seq<i32>, i: int, j: int)
    requires
        settled(g),
        1 <= i <= 6,
        1 <= j < FIELD_HEIGHT,
        cell(g, i, j) == 0,
    ensures
        j >= FIELD_HEIGHT - gaps_below(g, i, FIELD_HEIGHT as int),
{
    lemma_settled_count(g, i, j, FIELD_HEIGHT as int);
}

proof fn lemma_settled_count(g: Seq<i32>, i: int, j: int, k: int)
    requires
        settled(g),
        1 <= i <= 6,
        1 <= j < k <= FIELD_HEIGHT,
        cell(g, i, j) == 0,
    ensures
        gaps_below(g, i, k) >= k - j,
    decreases k - j,
{
    lemma_gaps_unfold(g, i, k - 1);
    if k - 1 > j {
        lemma_settled_count(g, i, j, k - 1);
        assert(cell(g, i, k - 1) == 0);
    } else {
        lemma_gaps_low(g, i, j);
        lemma_gaps_bounds(g, i, 1, j);
    }
}

} // verus!
