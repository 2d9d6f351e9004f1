//! Finding and clearing the groups of four or more same-coloured blocks.
use vstd::prelude::*;
use crate::grid::{
    cell, cell_index, get_cell, in_field, is_color, is_wall_cell, set_cell, FIELD_DISP_HEIGHT,
    FIELD_WIDTH, GRID_LEN, OJAMA, WALL,
};
use crate::groups::{
    closed, component, count_color, lemma_component_closed, lemma_component_outside,
    lemma_component_same, lemma_component_split, lemma_count_mark, lemma_count_mono,
    lemma_reach_ends, lemma_reach_refl, lemma_reach_sym, lemma_remove_closed, lemma_union_closed,
    members, neighbor, reach,
};

verus! {

/// The grid has the right size and its wall cells hold `WALL`.
pub open spec fn walls_intact(g: Seq<i32>) -> bool {
    &&& g.len() == GRID_LEN
    &&& forall|i: int, j: int|
        in_field(i, j) && is_wall_cell(i, j) ==> #[trigger] cell(g, i, j) == WALL
}

/// The cells of a list of positions, as pairs of integers.
pub open spec fn positions(v: Seq<(usize, usize)>) -> Seq<(int, int)> {
    v.map_values(|e: (usize, usize)| (e.0 as int, e.1 as int))
}

/// The union of the components, within `m`, of the first `k` neighbours of `x`.
pub open spec fn neighbor_groups(m: Set<(int, int)>, x: (int, int), k: int) -> Set<(int, int)>
    decreases k,
{
    if k <= 0 {
        Set::empty()
    } else {
        neighbor_groups(m, x, k - 1).union(component(m, neighbor(x, k - 1)))
    }
}

proof fn lemma_positions_push(v: Seq<(usize, usize)>, e: (usize, usize))
    ensures
        positions(v.push(e)) == positions(v).push((e.0 as int, e.1 as int)),
{
    assert(positions(v.push(e)) =~= positions(v).push((e.0 as int, e.1 as int)));
}

proof fn lemma_positions_add(a: Seq<(usize, usize)>, b: Seq<(usize, usize)>)
    ensures
        positions(a + b) == positions(a) + positions(b),
{
    assert(positions(a + b) =~= positions(a) + positions(b));
}

/// Adding the component of the next neighbour to a closed union.
proof fn lemma_next_group(m: Set<(int, int)>, u: Set<(int, int)>, n: (int, int))
    requires
        closed(m, u),
    ensures
        u.union(component(m.difference(u), n)) == u.union(component(m, n)),
        closed(m, u.union(component(m, n))),
        component(m.difference(u), n).disjoint(u),
{
    lemma_component_closed(m, n);
    lemma_union_closed(m, u, component(m, n));
    if u.contains(n) {
        lemma_component_outside(m.difference(u), n);
        assert forall|t: (int, int)| component(m, n).contains(t) implies u.contains(t) by {
            assert(reach(m, n, t));
        }
        assert(u.union(component(m.difference(u), n)) =~= u.union(component(m, n)));
    } else {
        lemma_remove_closed(m, u, n);
    }
    assert forall|t: (int, int)| component(m.difference(u), n).contains(t) implies !u.contains(t) by {
        lemma_reach_ends(m.difference(u), n, t);
    }
}

/// The flood fill from the cell `x` with at most `depth` nested steps: the
/// cells it visits, in the order it visits them, and the scratch grid it
/// leaves.  A visible cell of colour `col` is marked -1 and visited first;
/// then come, in turn, the fills from its right, left, upper and lower
/// neighbours, each on the grid the previous one left.
pub open spec fn fill(g: Seq<i32>, col: i32, x: (int, int), depth: nat) -> (Seq<(int, int)>, Seq<i32>)
    decreases depth,
{
    if depth == 0 || x.1 > FIELD_DISP_HEIGHT || !in_field(x.0, x.1) || cell(g, x.0, x.1) != col {
        (Seq::empty(), g)
    } else {
        let g1 = g.update(cell_index(x.0, x.1), -1i32);
        let d = (depth - 1) as nat;
        let r0 = fill(g1, col, neighbor(x, 0), d);
        let r1 = fill(r0.1, col, neighbor(x, 1), d);
        let r2 = fill(r1.1, col, neighbor(x, 2), d);
        let r3 = fill(r2.1, col, neighbor(x, 3), d);
        (seq![x] + r0.0 + r1.0 + r2.0 + r3.0, r3.1)
    }
}

/// The fills from the first `k` neighbours of `x`, one after the other,
/// starting on the grid `g`.
pub open spec fn fill_steps(g: Seq<i32>, col: i32, x: (int, int), k: int, depth: nat) -> (Seq<(int, int)>, Seq<i32>)
    decreases k,
{
    if k <= 0 {
        (Seq::empty(), g)
    } else {
        let prev = fill_steps(g, col, x, k - 1, depth);
        let r = fill(prev.1, col, neighbor(x, k - 1), depth);
        (prev.0 + r.0, r.1)
    }
}

/// A flood fill only turns cells of colour `col` into -1.
proof fn lemma_fill_marks(g: Seq<i32>, col: i32, x: (int, int), depth: nat)
    requires
        g.len() == GRID_LEN,
        col != -1,
    ensures
        fill(g, col, x, depth).1.len() == GRID_LEN,
        forall|k: int|
            0 <= k < GRID_LEN ==> (#[trigger] fill(g, col, x, depth).1[k] == g[k] || (g[k] == col
                && fill(g, col, x, depth).1[k] == -1)),
        count_color(fill(g, col, x, depth).1, col) <= count_color(g, col),
    decreases depth,
{
    if !(depth == 0 || x.1 > FIELD_DISP_HEIGHT || !in_field(x.0, x.1) || cell(g, x.0, x.1) != col) {
        let g1 = g.update(cell_index(x.0, x.1), -1i32);
        let d = (depth - 1) as nat;
        let r0 = fill(g1, col, neighbor(x, 0), d);
        let r1 = fill(r0.1, col, neighbor(x, 1), d);
        let r2 = fill(r1.1, col, neighbor(x, 2), d);
        lemma_fill_marks(g1, col, neighbor(x, 0), d);
        lemma_fill_marks(r0.1, col, neighbor(x, 1), d);
        lemma_fill_marks(r1.1, col, neighbor(x, 2), d);
        lemma_fill_marks(r2.1, col, neighbor(x, 3), d);
        let h = fill(g, col, x, depth).1;
        assert forall|k: int| 0 <= k < GRID_LEN implies #[trigger] h[k] == g[k] || (g[k] == col
            && h[k] == -1) by {
            assert(r0.1[k] == g1[k] || (g1[k] == col && r0.1[k] == -1));
            assert(r1.1[k] == r0.1[k] || (r0.1[k] == col && r1.1[k] == -1));
            assert(r2.1[k] == r1.1[k] || (r1.1[k] == col && r2.1[k] == -1));
        }
        lemma_count_mono(g, h, col, GRID_LEN as int);
    }
}

/// A flood fill whose depth is at least the number of cells of colour `col`
/// does not depend on the depth.
proof fn lemma_fill_depth(g: Seq<i32>, col: i32, x: (int, int), d1: nat, d2: nat)
    requires
        g.len() == GRID_LEN,
        col != -1,
        count_color(g, col) <= d1 <= d2,
    ensures
        fill(g, col, x, d1) == fill(g, col, x, d2),
    decreases d1,
{
    if !(x.1 > FIELD_DISP_HEIGHT || !in_field(x.0, x.1) || cell(g, x.0, x.1) != col) {
        let i = cell_index(x.0, x.1);
        lemma_count_mark(g, col, i, -1i32, GRID_LEN as int);
        let g1 = g.update(i, -1i32);
        let e1 = (d1 - 1) as nat;
        let e2 = (d2 - 1) as nat;
        lemma_fill_depth(g1, col, neighbor(x, 0), e1, e2);
        let r0 = fill(g1, col, neighbor(x, 0), e1);
        lemma_fill_marks(g1, col, neighbor(x, 0), e1);
        lemma_fill_depth(r0.1, col, neighbor(x, 1), e1, e2);
        let r1 = fill(r0.1, col, neighbor(x, 1), e1);
        lemma_fill_marks(r0.1, col, neighbor(x, 1), e1);
        lemma_fill_depth(r1.1, col, neighbor(x, 2), e1, e2);
        let r2 = fill(r1.1, col, neighbor(x, 2), e1);
        lemma_fill_marks(r1.1, col, neighbor(x, 2), e1);
        lemma_fill_depth(r2.1, col, neighbor(x, 3), e1, e2);
    }
}

/// A flood fill unfolds into the cell itself and the fills from its four
/// neighbours.
proof fn lemma_fill_unfold(g: Seq<i32>, col: i32, x: (int, int), depth: nat)
    requires
        depth >= 1,
        x.1 <= FIELD_DISP_HEIGHT,
        in_field(x.0, x.1),
        cell(g, x.0, x.1) == col,
    ensures
        fill(g, col, x, depth) == ({
            let s = fill_steps(
                g.update(cell_index(x.0, x.1), -1i32),
                col,
                x,
                4,
                (depth - 1) as nat,
            );
            (seq![x] + s.0, s.1)
        }),
{
    reveal_with_fuel(fill_steps, 5);
    let g1 = g.update(cell_index(x.0, x.1), -1i32);
    let d = (depth - 1) as nat;
    let r0 = fill(g1, col, neighbor(x, 0), d);
    let r1 = fill(r0.1, col, neighbor(x, 1), d);
    let r2 = fill(r1.1, col, neighbor(x, 2), d);
    let r3 = fill(r2.1, col, neighbor(x, 3), d);
    assert(fill_steps(g1, col, x, 1, d).0 =~= r0.0);
    assert(seq![x] + r0.0 + r1.0 + r2.0 + r3.0 =~= seq![x] + fill_steps(g1, col, x, 4, d).0);
}

/// Marks, in the scratch grid `ch`, the group of colour `col` that holds the
/// cell (`i`, `j`) and returns its cells.  Nothing is marked when that cell
/// is not of colour `col` or lies above the visible rows.
pub fn delete_sub(ch: &mut Vec<i32>, col: i32, i: usize, j: usize) -> (v: Vec<(usize, usize)>)
    requires
        walls_intact(old(ch)@),
        is_color(col),
        j <= FIELD_DISP_HEIGHT ==> i < FIELD_WIDTH,
    ensures
        walls_intact(final(ch)@),
        v@.len() > 0 ==> v@[0] == (i, j),
        (positions(v@), final(ch)@) == fill(
            old(ch)@,
            col,
            (i as int, j as int),
            count_color(old(ch)@, col),
        ),
        positions(v@).no_duplicates(),
        positions(v@).to_set() == component(members(old(ch)@, col), (i as int, j as int)),
        forall|a: int, b: int|
            in_field(a, b) ==> #[trigger] cell(final(ch)@, a, b) == (if component(
                members(old(ch)@, col),
                (i as int, j as int),
            ).contains((a, b)) {
                -1i32
            } else {
                cell(old(ch)@, a, b)
            }),
        forall|k: int| 0 <= k < GRID_LEN && final(ch)@[k] == col ==> old(ch)@[k] == col,
    decreases count_color(old(ch)@, col),
{
    let ghost g0 = ch@;
    let ghost x = (i as int, j as int);
    let ghost m0 = members(g0, col);
    let mut v: Vec<(usize, usize)> = Vec::new();
    if j > FIELD_DISP_HEIGHT || get_cell(ch, i, j) != col {
        proof {
            assert(!m0.contains(x));
            lemma_component_outside(m0, x);
            assert(positions(v@).to_set() =~= Set::<(int, int)>::empty());
            assert(positions(v@) =~= Seq::<(int, int)>::empty());
        }
        return v;
    }
    let ghost m1 = m0.remove(x);
    let ghost d0 = count_color(g0, col);
    let ghost g1 = g0.update(cell_index(i as int, j as int), -1i32);
    proof {
        assert(m0.contains(x));
        assert(!is_wall_cell(i as int, j as int));
        lemma_count_mark(g0, col, cell_index(i as int, j as int), -1i32, GRID_LEN as int);
    }
    set_cell(ch, i, j, -1);
    v.push((i, j));
    proof {
        assert(members(ch@, col) =~= m1.difference(neighbor_groups(m1, x, 0)));
        assert(positions(v@) =~= seq![x]);
        assert(positions(v@)[0] == x);
        assert(neighbor_groups(m1, x, 0) =~= Set::<(int, int)>::empty());
        assert(positions(v@).to_set() =~= set![x].union(neighbor_groups(m1, x, 0)));
    }
    let mut k: usize = 0;
    while k < 4
        invariant
            0 <= k <= 4,
            1 <= i < 7,
            1 <= j <= FIELD_DISP_HEIGHT,
            x == (i as int, j as int),
            m0 == members(g0, col),
            g0 == old(ch)@,
            m1 == m0.remove(x),
            m0.contains(x),
            is_color(col),
            walls_intact(g0),
            walls_intact(ch@),
            count_color(ch@, col) < count_color(g0, col),
            forall|q: int| 0 <= q < GRID_LEN && ch@[q] == col ==> g0[q] == col,
            closed(m1, neighbor_groups(m1, x, k as int)),
            !neighbor_groups(m1, x, k as int).contains(x),
            members(ch@, col) == m1.difference(neighbor_groups(m1, x, k as int)),
            positions(v@).no_duplicates(),
            v@.len() > 0 && v@[0] == (i, j),
            d0 == count_color(g0, col),
            d0 >= 1,
            g1 == g0.update(cell_index(i as int, j as int), -1i32),
            positions(v@) == seq![x] + fill_steps(g1, col, x, k as int, (d0 - 1) as nat).0,
            ch@ == fill_steps(g1, col, x, k as int, (d0 - 1) as nat).1,
            positions(v@).to_set() == set![x].union(neighbor_groups(m1, x, k as int)),
            forall|a: int, b: int|
                in_field(a, b) ==> #[trigger] cell(ch@, a, b) == (if (a, b) == x
                    || neighbor_groups(m1, x, k as int).contains((a, b)) {
                    -1i32
                } else {
                    cell(g0, a, b)
                }),
        decreases 4 - k,
    {
        let ni: usize;
        let nj: usize;
        if k == 0 {
            ni = i + 1;
            nj = j;
        } else if k == 1 {
            ni = i - 1;
            nj = j;
        } else if k == 2 {
            ni = i;
            nj = j + 1;
        } else {
            ni = i;
            nj = j - 1;
        }
        let ghost n = (ni as int, nj as int);
        let ghost u = neighbor_groups(m1, x, k as int);
        let ghost chk = ch@;
        let ghost vk = v@;
        assert(n == neighbor(x, k as int));
        assert(count_color(ch@, col) < count_color(old(ch)@, col));
        let mut w = delete_sub(ch, col, ni, nj);
        let ghost r = component(m1.difference(u), n);
        proof {
            lemma_fill_depth(chk, col, n, count_color(chk, col), (d0 - 1) as nat);
            lemma_next_group(m1, u, n);
            assert(neighbor_groups(m1, x, k + 1) == u.union(component(m1, n)));
            lemma_count_mono(chk, ch@, col, GRID_LEN as int);
            assert forall|a: int, b: int|
                in_field(a, b) implies #[trigger] cell(ch@, a, b) == (if (a, b) == x
                || neighbor_groups(m1, x, k + 1).contains((a, b)) {
                -1i32
            } else {
                cell(g0, a, b)
            }) by {
                assert(cell(chk, a, b) == (if (a, b) == x || u.contains((a, b)) {
                    -1i32
                } else {
                    cell(g0, a, b)
                }));
            }
            assert(members(ch@, col) =~= m1.difference(neighbor_groups(m1, x, k + 1)));
            let pv = positions(vk);
            let pw = positions(w@);
            assert forall|a: int, b: int| 0 <= a < pv.len() && 0 <= b < pw.len() implies pv[a]
                != pw[b] by {
                assert(pv.to_set().contains(pv[a]));
                assert(pw.to_set().contains(pw[b]));
                assert(r.contains(pw[b]));
                lemma_reach_ends(m1.difference(u), n, pw[b]);
            }
            vstd::seq_lib::lemma_no_dup_in_concat(pv, pw);
            lemma_positions_add(vk, w@);
            vstd::seq_lib::seq_to_set_distributes_over_add(pv, pw);
        }
        v.append(&mut w);
        proof {
            assert(positions(v@).to_set() =~= set![x].union(neighbor_groups(m1, x, k + 1)));
            assert(positions(v@) =~= seq![x] + fill_steps(g1, col, x, k + 1, (d0 - 1) as nat).0);
        }
        k = k + 1;
    }
    proof {
        lemma_fill_unfold(g0, col, x, d0);
        lemma_component_split(m0, x);
        reveal_with_fuel(neighbor_groups, 5);
        assert(set![x].union(neighbor_groups(m1, x, 4)) =~= component(m0, x));
    }
    v
}


/// Bonus of the `n`-th link of a chain.
pub open spec fn chain_bonus(n: int) -> int {
    if n <= 1 {
        0
    } else if n == 2 {
        8
    } else if n == 3 {
        16
    } else if n == 4 {
        32
    } else {
        32 * (n - 3)
    }
}

/// Bonus of one cleared group of `n` cells.
pub open spec fn group_size_bonus(n: int) -> int {
    if n <= 4 {
        0
    } else if n <= 10 {
        n - 3
    } else {
        10
    }
}

/// Bonus for the number of different colours cleared at once.
pub open spec fn color_count_bonus(n: int) -> int {
    if n <= 1 {
        0
    } else if n == 2 {
        3
    } else if n == 3 {
        6
    } else if n == 4 {
        12
    } else {
        24
    }
}

/// Chain bonus table lookup; the table has 20 entries.
pub fn chain_bonus_of(n: usize) -> (b: i32)
    requires
        n < 20,
    ensures
        b == chain_bonus(n as int),
        0 <= b <= 512,
{
    if n <= 1 {
        0
    } else if n == 2 {
        8
    } else if n == 3 {
        16
    } else if n == 4 {
        32
    } else {
        32 * (n as i32 - 3)
    }
}

/// Group size bonus table lookup, with sizes above 11 counted as 11.
pub fn group_size_bonus_of(n: usize) -> (b: i32)
    ensures
        b == group_size_bonus(n as int),
        0 <= b <= 10,
{
    if n <= 4 {
        0
    } else if n <= 10 {
        n as i32 - 3
    } else {
        10
    }
}

/// Colour bonus table lookup; the table has 6 entries.
pub fn color_count_bonus_of(n: usize) -> (b: i32)
    requires
        n < 6,
    ensures
        b == color_count_bonus(n as int),
        0 <= b <= 24,
{
    if n <= 1 {
        0
    } else if n == 2 {
        3
    } else if n == 3 {
        6
    } else if n == 4 {
        12
    } else {
        24
    }
}

/// The chain bonus of each link, as the game's table lists it.
pub open spec fn chain_bonus_table() -> Seq<int> {
    seq![0int, 0, 8, 16, 32, 64, 96, 128, 160, 192, 224, 256, 288, 320, 352, 384, 416, 448, 480, 512]
}

/// The bonus of a cleared group by its size, sizes of eleven and more
/// counted as eleven, as the game's table lists it.
pub open spec fn group_bonus_table() -> Seq<int> {
    seq![0int, 0, 0, 0, 0, 2, 3, 4, 5, 6, 7, 10]
}

/// The bonus for the number of colours cleared at once, as the game's
/// table lists it.
pub open spec fn color_bonus_table() -> Seq<int> {
    seq![0int, 0, 3, 6, 12, 24]
}

/// Every link of a chain up to the twentieth gets the bonus of the game's
/// table: none for the first, 8 for the second, 16 for the third, then 32
/// more for each further link up to 512.
pub proof fn law_chain_bonus_table(n: int)
    requires
        0 <= n < 20,
    ensures
        chain_bonus(n) == chain_bonus_table()[n],
{
    let t = chain_bonus_table();
    assert(t.len() == 20);
    if n == 0 { assert(t[0] == 0); } else if n == 1 { assert(t[1] == 0); }
    else if n == 2 { assert(t[2] == 8); } else if n == 3 { assert(t[3] == 16); }
    else if n == 4 { assert(t[4] == 32); } else if n == 5 { assert(t[5] == 64); }
    else if n == 6 { assert(t[6] == 96); } else if n == 7 { assert(t[7] == 128); }
    else if n == 8 { assert(t[8] == 160); } else if n == 9 { assert(t[9] == 192); }
    else if n == 10 { assert(t[10] == 224); } else if n == 11 { assert(t[11] == 256); }
    else if n == 12 { assert(t[12] == 288); } else if n == 13 { assert(t[13] == 320); }
    else if n == 14 { assert(t[14] == 352); } else if n == 15 { assert(t[15] == 384); }
    else if n == 16 { assert(t[16] == 416); } else if n == 17 { assert(t[17] == 448); }
    else if n == 18 { assert(t[18] == 480); } else { assert(t[19] == 512); }
}

/// Every cleared group gets the size bonus of the game's table, groups of
/// eleven or more that of eleven.
pub proof fn law_group_bonus_table(n: int)
    requires
        0 <= n,
    ensures
        group_size_bonus(n) == group_bonus_table()[if n < 11 { n } else { 11 }],
{
    let t = group_bonus_table();
    assert(t.len() == 12);
    if n <= 4 { assert(t[0] == 0 && t[1] == 0 && t[2] == 0 && t[3] == 0 && t[4] == 0); }
    else if n == 5 { assert(t[5] == 2); } else if n == 6 { assert(t[6] == 3); }
    else if n == 7 { assert(t[7] == 4); } else if n == 8 { assert(t[8] == 5); }
    else if n == 9 { assert(t[9] == 6); } else if n == 10 { assert(t[10] == 7); }
    else { assert(t[11] == 10); }
}

/// Clearing several colours at once gets the colour bonus of the game's
/// table.
pub proof fn law_color_bonus_table(n: int)
    requires
        0 <= n < 6,
    ensures
        color_count_bonus(n) == color_bonus_table()[n],
{
    let t = color_bonus_table();
    assert(t.len() == 6);
    if n == 0 { assert(t[0] == 0); } else if n == 1 { assert(t[1] == 0); }
    else if n == 2 { assert(t[2] == 3); } else if n == 3 { assert(t[3] == 6); }
    else if n == 4 { assert(t[4] == 12); } else { assert(t[5] == 24); }
}

/// A cell of the visible part of the playing area.
pub open spec fn visible(p: (int, int)) -> bool {
    1 <= p.0 <= 6 && 1 <= p.1 <= FIELD_DISP_HEIGHT
}

/// The group of the cell `p`: its component among the cells of its colour.
pub open spec fn group_of(g: Seq<i32>, p: (int, int)) -> Set<(int, int)> {
    component(members(g, cell(g, p.0, p.1)), p)
}

/// `p` is a coloured cell of a group of four or more: it is cleared.
pub open spec fn in_big_group(g: Seq<i32>, p: (int, int)) -> bool {
    &&& visible(p)
    &&& is_color(cell(g, p.0, p.1))
    &&& group_of(g, p).len() >= 4
}

/// All coloured cells that a chain step clears.
pub open spec fn big_group_cells(g: Seq<i32>) -> Set<(int, int)> {
    Set::new(|p: (int, int)| in_big_group(g, p))
}

/// `q` comes before column `i`, row `j` in the order the field is scanned:
/// column by column from the left, each column from the bottom.
pub open spec fn before(q: (int, int), i: int, j: int) -> bool {
    q.0 < i || (q.0 == i && q.1 < j)
}

/// Some cell of the group of `p` comes before (`i`, `j`) in scan order.
pub open spec fn touched(g: Seq<i32>, p: (int, int), i: int, j: int) -> bool {
    exists|q: (int, int)| #[trigger] group_of(g, p).contains(q) && before(q, i, j)
}

/// `p` is the first cell, in scan order, of a group that is cleared.
pub open spec fn is_leader(g: Seq<i32>, p: (int, int)) -> bool {
    in_big_group(g, p) && !touched(g, p, p.0, p.1)
}

pub open spec fn leader_bonus(g: Seq<i32>, p: (int, int)) -> int {
    if is_leader(g, p) {
        group_size_bonus(group_of(g, p).len() as int)
    } else {
        0
    }
}

/// Sum of the group bonuses of the groups led from rows 1..`j` of column `i`.
pub open spec fn bonus_in_column(g: Seq<i32>, i: int, j: int) -> int
    decreases j,
{
    if j <= 1 {
        0
    } else {
        bonus_in_column(g, i, j - 1) + leader_bonus(g, (i, j - 1))
    }
}

/// Sum of the group bonuses of the groups led from columns 1..`i`.
pub open spec fn bonus_before(g: Seq<i32>, i: int) -> int
    decreases i,
{
    if i <= 1 {
        0
    } else {
        bonus_before(g, i - 1) + bonus_in_column(g, i - 1, FIELD_DISP_HEIGHT + 1)
    }
}

/// Sum over all cleared groups of their size bonus.
pub open spec fn group_bonus(g: Seq<i32>) -> int {
    bonus_before(g, 7)
}

/// Some group of colour `c` is cleared.
pub open spec fn color_cleared(g: Seq<i32>, c: i32) -> bool {
    exists|p: (int, int)| #[trigger] in_big_group(g, p) && cell(g, p.0, p.1) == c
}

/// A group of colour `c` that is cleared has been reached by the scan.
pub open spec fn color_touched(g: Seq<i32>, c: i32, i: int, j: int) -> bool {
    exists|p: (int, int)|
        #[trigger] in_big_group(g, p) && cell(g, p.0, p.1) == c && touched(g, p, i, j)
}

/// Number of colours of which some group is cleared.
pub open spec fn cleared_color_count(g: Seq<i32>) -> int {
    (if color_cleared(g, 1) { 1int } else { 0int }) + (if color_cleared(g, 2) {
        1int
    } else {
        0int
    }) + (if color_cleared(g, 3) { 1int } else { 0int }) + (if color_cleared(g, 4) {
        1int
    } else {
        0int
    }) + (if color_cleared(g, 5) { 1int } else { 0int })
}

/// The members of the group of a coloured cell share its colour and group
/// and are visible.
pub proof fn lemma_group_member(g: Seq<i32>, x: (int, int), p: (int, int))
    requires
        walls_intact(g),
        is_color(cell(g, x.0, x.1)),
        group_of(g, x).contains(p),
    ensures
        cell(g, p.0, p.1) == cell(g, x.0, x.1),
        group_of(g, p) == group_of(g, x),
        group_of(g, p).contains(x),
        visible(p),
        visible(x),
{
    let m = members(g, cell(g, x.0, x.1));
    assert(reach(m, x, p));
    lemma_reach_ends(m, x, p);
    lemma_component_same(m, x, p);
    lemma_reach_sym(m, x, p);
    assert(!is_wall_cell(p.0, p.1));
    assert(!is_wall_cell(x.0, x.1));
}

/// A visible coloured cell belongs to its own group.
pub proof fn lemma_group_self(g: Seq<i32>, p: (int, int))
    requires
        walls_intact(g),
        visible(p),
        is_color(cell(g, p.0, p.1)),
    ensures
        group_of(g, p).contains(p),
{
    lemma_reach_refl(members(g, cell(g, p.0, p.1)), p);
}

/// Moving the scan one row up adds the groups holding the row just passed.
pub proof fn lemma_touched_step(g: Seq<i32>, p: (int, int), i: int, j: int)
    ensures
        touched(g, p, i, j + 1) == (touched(g, p, i, j) || group_of(g, p).contains((i, j))),
{
    if group_of(g, p).contains((i, j)) {
        assert(before((i, j), i, j + 1));
    }
    if touched(g, p, i, j + 1) && !group_of(g, p).contains((i, j)) {
        let q = choose|q: (int, int)| #[trigger] group_of(g, p).contains(q) && before(q, i, j + 1);
        assert(before(q, i, j));
    }
}

/// Past the top visible row of a column the scan is at the next column.
pub proof fn lemma_touched_column(g: Seq<i32>, p: (int, int), i: int)
    requires
        walls_intact(g),
        is_color(cell(g, p.0, p.1)),
    ensures
        touched(g, p, i, FIELD_DISP_HEIGHT + 1) == touched(g, p, i + 1, 1),
{
    if touched(g, p, i, FIELD_DISP_HEIGHT + 1) {
        let q = choose|q: (int, int)|
            #[trigger] group_of(g, p).contains(q) && before(q, i, FIELD_DISP_HEIGHT + 1);
        assert(before(q, i + 1, 1));
    }
    if touched(g, p, i + 1, 1) {
        let q = choose|q: (int, int)| #[trigger] group_of(g, p).contains(q) && before(q, i + 1, 1);
        lemma_group_member(g, p, q);
        assert(before(q, i, FIELD_DISP_HEIGHT + 1));
    }
}

/// Before the scan starts no group is touched.
pub proof fn lemma_touched_start(g: Seq<i32>, p: (int, int))
    requires
        walls_intact(g),
        is_color(cell(g, p.0, p.1)),
    ensures
        !touched(g, p, 1, 1),
{
    if touched(g, p, 1, 1) {
        let q = choose|q: (int, int)| #[trigger] group_of(g, p).contains(q) && before(q, 1, 1);
        lemma_group_member(g, p, q);
    }
}

/// After the scan every group is touched.
pub proof fn lemma_touched_end(g: Seq<i32>, p: (int, int))
    requires
        walls_intact(g),
        visible(p),
        is_color(cell(g, p.0, p.1)),
    ensures
        touched(g, p, 7, 1),
{
    lemma_group_self(g, p);
    assert(before(p, 7, 1));
}


/// Empties every cell listed in `v`.
fn clear_cells(arr: &mut Vec<i32>, v: &Vec<(usize, usize)>)
    requires
        old(arr)@.len() == GRID_LEN,
        forall|k: int| 0 <= k < v@.len() ==> #[trigger] visible(positions(v@)[k]),
    ensures
        final(arr)@.len() == GRID_LEN,
        forall|a: int, b: int|
            in_field(a, b) ==> #[trigger] cell(final(arr)@, a, b) == (if positions(v@).contains(
                (a, b),
            ) {
                0i32
            } else {
                cell(old(arr)@, a, b)
            }),
{
    let mut k: usize = 0;
    while k < v.len()
        invariant
            k <= v@.len(),
            arr@.len() == GRID_LEN,
            forall|q: int| 0 <= q < v@.len() ==> #[trigger] visible(positions(v@)[q]),
            forall|a: int, b: int|
                in_field(a, b) ==> #[trigger] cell(arr@, a, b) == (if positions(v@).take(
                    k as int,
                ).contains((a, b)) {
                    0i32
                } else {
                    cell(old(arr)@, a, b)
                }),
        decreases v@.len() - k,
    {
        let (a, b) = v[k];
        assert(visible(positions(v@)[k as int]));
        let ghost prev = arr@;
        set_cell(arr, a, b, 0);
        proof {
            assert forall|c: int, d: int| in_field(c, d) implies #[trigger] cell(arr@, c, d) == (
            if positions(v@).take(k + 1).contains((c, d)) {
                0i32
            } else {
                cell(old(arr)@, c, d)
            }) by {
                let pre = positions(v@).take(k as int);
                assert(positions(v@)[k as int] == (a as int, b as int));
                assert(positions(v@).take(k + 1) =~= pre.push((a as int, b as int)));
                assert(cell(prev, c, d) == (if pre.contains((c, d)) {
                    0i32
                } else {
                    cell(old(arr)@, c, d)
                }));
                if pre.contains((c, d)) {
                    let q = choose|q: int| 0 <= q < pre.len() && pre[q] == (c, d);
                    assert(pre.push((a as int, b as int))[q] == (c, d));
                }
                if (c, d) == (a as int, b as int) {
                    assert(pre.push((a as int, b as int))[k as int] == (c, d));
                }
            }
        }
        k = k + 1;
    }
    assert(positions(v@).take(v@.len() as int) =~= positions(v@));
}


/// The scratch grid of the scan at (`i`, `j`): the groups reached so far are
/// marked with -1, every other cell is as in `g`.
pub open spec fn scratch_ok(g: Seq<i32>, ch: Seq<i32>, i: int, j: int) -> bool {
    &&& walls_intact(ch)
    &&& forall|a: int, b: int|
        in_field(a, b) ==> #[trigger] cell(ch, a, b) == (if visible((a, b)) && is_color(
            cell(g, a, b),
        ) && touched(g, (a, b), i, j) {
            -1i32
        } else {
            cell(g, a, b)
        })
}

/// The field during the scan at (`i`, `j`): the large groups reached so far
/// are emptied.
pub open spec fn cleared_ok(g: Seq<i32>, arr: Seq<i32>, i: int, j: int) -> bool {
    &&& arr.len() == GRID_LEN
    &&& forall|a: int, b: int|
        in_field(a, b) ==> #[trigger] cell(arr, a, b) == (if in_big_group(g, (a, b)) && touched(
            g,
            (a, b),
            i,
            j,
        ) {
            0i32
        } else {
            cell(g, a, b)
        })
}

pub open spec fn touched_big(g: Seq<i32>, i: int, j: int) -> Set<(int, int)> {
    Set::new(|p: (int, int)| in_big_group(g, p) && touched(g, p, i, j))
}

pub open spec fn listed_ok(g: Seq<i32>, v: Seq<(usize, usize)>, i: int, j: int) -> bool {
    &&& positions(v).no_duplicates()
    &&& positions(v).to_set() == touched_big(g, i, j)
}

pub open spec fn colors_ok(g: Seq<i32>, ap: Seq<bool>, i: int, j: int) -> bool {
    &&& ap.len() == 6
    &&& !ap[0]
    &&& forall|c: int| 1 <= c <= 5 ==> #[trigger] ap[c] == color_touched(g, c as i32, i, j)
}

/// The coloured cells are touched alike at (`i`, `j`) and at (`i2`, `j2`).
pub open spec fn touched_same(g: Seq<i32>, i: int, j: int, i2: int, j2: int) -> bool {
    forall|p: (int, int)|
        is_color(#[trigger] cell(g, p.0, p.1)) ==> touched(g, p, i, j) == touched(g, p, i2, j2)
}

proof fn lemma_states_transfer(
    g: Seq<i32>,
    ch: Seq<i32>,
    arr: Seq<i32>,
    v: Seq<(usize, usize)>,
    ap: Seq<bool>,
    i: int,
    j: int,
    i2: int,
    j2: int,
)
    requires
        touched_same(g, i, j, i2, j2),
        scratch_ok(g, ch, i, j),
        cleared_ok(g, arr, i, j),
        listed_ok(g, v, i, j),
        colors_ok(g, ap, i, j),
    ensures
        scratch_ok(g, ch, i2, j2),
        cleared_ok(g, arr, i2, j2),
        listed_ok(g, v, i2, j2),
        colors_ok(g, ap, i2, j2),
{
    assert forall|a: int, b: int| in_field(a, b) implies #[trigger] cell(ch, a, b) == (if visible(
        (a, b),
    ) && is_color(cell(g, a, b)) && touched(g, (a, b), i2, j2) {
        -1i32
    } else {
        cell(g, a, b)
    }) by {
        assert(cell(g, (a, b).0, (a, b).1) == cell(g, a, b));
    }
    assert forall|a: int, b: int| in_field(a, b) implies #[trigger] cell(arr, a, b) == (if in_big_group(
        g,
        (a, b),
    ) && touched(g, (a, b), i2, j2) {
        0i32
    } else {
        cell(g, a, b)
    }) by {
        assert(cell(g, (a, b).0, (a, b).1) == cell(g, a, b));
    }
    assert(touched_big(g, i, j) =~= touched_big(g, i2, j2));
    assert forall|c: int| 1 <= c <= 5 implies #[trigger] ap[c] == color_touched(g, c as i32, i2, j2) by {
        if color_touched(g, c as i32, i, j) {
            let p = choose|p: (int, int)|
                #[trigger] in_big_group(g, p) && cell(g, p.0, p.1) == c as i32 && touched(g, p, i, j);
            assert(touched(g, p, i2, j2));
        }
        if color_touched(g, c as i32, i2, j2) {
            let p = choose|p: (int, int)|
                #[trigger] in_big_group(g, p) && cell(g, p.0, p.1) == c as i32 && touched(
                    g,
                    p,
                    i2,
                    j2,
                );
            assert(touched(g, p, i, j));
        }
    }
}

/// At a cell that is not of a colour, or whose group was reached before,
/// the scan passes without change.
proof fn lemma_visit_skip(g: Seq<i32>, ch: Seq<i32>, i: int, j: int)
    requires
        walls_intact(g),
        scratch_ok(g, ch, i, j),
        visible((i, j)),
        !is_color(cell(ch, i, j)),
    ensures
        touched_same(g, i, j, i, j + 1),
        leader_bonus(g, (i, j)) == 0,
{
    let x = (i, j);
    assert forall|p: (int, int)| is_color(#[trigger] cell(g, p.0, p.1)) implies touched(g, p, i, j)
        == touched(g, p, i, j + 1) by {
        lemma_touched_step(g, p, i, j);
        if group_of(g, p).contains(x) {
            lemma_group_member(g, p, x);
            assert(cell(ch, i, j) == cell(ch, x.0, x.1));
        }
    }
    if is_leader(g, x) {
        assert(cell(ch, i, j) == cell(ch, x.0, x.1));
    }
}

/// At an untouched cell of colour `col`, the group that the flood fill finds
/// in the scratch grid is the cell's group in the field.
proof fn lemma_visit_group(g: Seq<i32>, ch: Seq<i32>, i: int, j: int, col: i32)
    requires
        walls_intact(g),
        scratch_ok(g, ch, i, j),
        visible((i, j)),
        cell(ch, i, j) == col,
        is_color(col),
    ensures
        cell(g, i, j) == col,
        !touched(g, (i, j), i, j),
        component(members(ch, col), (i, j)) == group_of(g, (i, j)),
{
    let x = (i, j);
    let m = members(g, col);
    let t = Set::new(|p: (int, int)| m.contains(p) && touched(g, p, i, j));
    assert forall|p: (int, int)| members(ch, col).contains(p) <==> m.difference(t).contains(p) by {
        if m.contains(p) {
            assert(!is_wall_cell(p.0, p.1));
            assert(cell(g, p.0, p.1) == col);
        }
        if members(ch, col).contains(p) {
            assert(!is_wall_cell(p.0, p.1));
        }
    }
    assert(members(ch, col) =~= m.difference(t));
    assert forall|a: (int, int), w: (int, int)| t.contains(a) && #[trigger] reach(m, a, w) implies t.contains(
        w,
    ) by {
        lemma_reach_ends(m, a, w);
        lemma_component_same(m, a, w);
        assert(group_of(g, a) == group_of(g, w));
    }
    assert(closed(m, t));
    assert(!t.contains(x));
    lemma_remove_closed(m, t, x);
}


/// The scan after it has marked the group of the untouched cell (`i`, `j`),
/// and emptied and listed it when it is large.
proof fn lemma_visit_take(
    g: Seq<i32>,
    ch: Seq<i32>,
    ch2: Seq<i32>,
    arr: Seq<i32>,
    arr2: Seq<i32>,
    v: Seq<(usize, usize)>,
    v2: Seq<(usize, usize)>,
    w: Seq<(usize, usize)>,
    ap: Seq<bool>,
    ap2: Seq<bool>,
    i: int,
    j: int,
    col: i32,
)
    requires
        walls_intact(g),
        visible((i, j)),
        cell(g, i, j) == col,
        is_color(col),
        !touched(g, (i, j), i, j),
        scratch_ok(g, ch, i, j),
        cleared_ok(g, arr, i, j),
        listed_ok(g, v, i, j),
        colors_ok(g, ap, i, j),
        walls_intact(ch2),
        forall|a: int, b: int|
            in_field(a, b) ==> #[trigger] cell(ch2, a, b) == (if group_of(g, (i, j)).contains(
                (a, b),
            ) {
                -1i32
            } else {
                cell(ch, a, b)
            }),
        positions(w).no_duplicates(),
        positions(w).to_set() == group_of(g, (i, j)),
        w.len() >= 4 ==> arr2.len() == GRID_LEN && forall|a: int, b: int|
            in_field(a, b) ==> #[trigger] cell(arr2, a, b) == (if positions(w).contains((a, b)) {
                0i32
            } else {
                cell(arr, a, b)
            }),
        w.len() >= 4 ==> v2 == v + w,
        w.len() >= 4 ==> ap2 == ap.update(col as int, true),
        w.len() < 4 ==> arr2 == arr && v2 == v && ap2 == ap,
    ensures
        scratch_ok(g, ch2, i, j + 1),
        cleared_ok(g, arr2, i, j + 1),
        listed_ok(g, v2, i, j + 1),
        colors_ok(g, ap2, i, j + 1),
        leader_bonus(g, (i, j)) == (if w.len() >= 4 {
            group_size_bonus(w.len() as int)
        } else {
            0
        }),
{
    let x = (i, j);
    let gr = group_of(g, x);
    let big = w.len() >= 4;
    positions(w).unique_seq_to_set();
    assert(gr.len() == w.len());
    assert forall|p: (int, int)| is_color(#[trigger] cell(g, p.0, p.1)) implies touched(g, p, i, j + 1)
        == (touched(g, p, i, j) || gr.contains(p)) && (gr.contains(p) ==> (in_big_group(g, p)
        == big && !touched(g, p, i, j) && cell(g, p.0, p.1) == col)) by {
        lemma_touched_step(g, p, i, j);
        if group_of(g, p).contains(x) {
            lemma_group_member(g, p, x);
        }
        if gr.contains(p) {
            lemma_group_member(g, x, p);
        }
    }
    assert forall|a: int, b: int| in_field(a, b) implies #[trigger] cell(ch2, a, b) == (if visible(
        (a, b),
    ) && is_color(cell(g, a, b)) && touched(g, (a, b), i, j + 1) {
        -1i32
    } else {
        cell(g, a, b)
    }) by {
        assert(cell(g, (a, b).0, (a, b).1) == cell(g, a, b));
        if gr.contains((a, b)) {
            lemma_group_member(g, x, (a, b));
        }
    }
    assert forall|a: int, b: int| in_field(a, b) implies #[trigger] cell(arr2, a, b) == (if in_big_group(
        g,
        (a, b),
    ) && touched(g, (a, b), i, j + 1) {
        0i32
    } else {
        cell(g, a, b)
    }) by {
        assert(cell(g, (a, b).0, (a, b).1) == cell(g, a, b));
        if gr.contains((a, b)) {
            lemma_group_member(g, x, (a, b));
        }
        assert(positions(w).to_set().contains((a, b)) == positions(w).contains((a, b)));
    }
    if big {
        let pv = positions(v);
        let pw = positions(w);
        assert forall|a: int, b: int| 0 <= a < pv.len() && 0 <= b < pw.len() implies pv[a] != pw[b] by {
            assert(pv.to_set().contains(pv[a]));
            assert(pw.to_set().contains(pw[b]));
            lemma_group_member(g, x, pw[b]);
        }
        vstd::seq_lib::lemma_no_dup_in_concat(pv, pw);
        lemma_positions_add(v, w);
        vstd::seq_lib::seq_to_set_distributes_over_add(pv, pw);
        assert forall|p: (int, int)| touched_big(g, i, j + 1).contains(p) <==> (touched_big(
            g,
            i,
            j,
        ).contains(p) || gr.contains(p)) by {
            if gr.contains(p) {
                lemma_group_member(g, x, p);
            }
        }
        assert(positions(v2).to_set() =~= touched_big(g, i, j + 1));
    } else {
        assert forall|p: (int, int)| touched_big(g, i, j + 1).contains(p) <==> touched_big(
            g,
            i,
            j,
        ).contains(p) by {
            if gr.contains(p) {
                lemma_group_member(g, x, p);
            }
        }
        assert(touched_big(g, i, j + 1) =~= touched_big(g, i, j));
    }
    assert forall|c: int| 1 <= c <= 5 implies #[trigger] ap2[c] == color_touched(
        g,
        c as i32,
        i,
        j + 1,
    ) by {
        if color_touched(g, c as i32, i, j + 1) {
            let p = choose|p: (int, int)|
                #[trigger] in_big_group(g, p) && cell(g, p.0, p.1) == c as i32 && touched(
                    g,
                    p,
                    i,
                    j + 1,
                );
            if !touched(g, p, i, j) {
                assert(gr.contains(p));
            }
        }
        if big && c == col {
            lemma_group_self(g, x);
            assert(in_big_group(g, x) && cell(g, x.0, x.1) == c as i32 && touched(g, x, i, j + 1));
        }
        if color_touched(g, c as i32, i, j) {
            let p = choose|p: (int, int)|
                #[trigger] in_big_group(g, p) && cell(g, p.0, p.1) == c as i32 && touched(g, p, i, j);
            assert(touched(g, p, i, j + 1));
        }
    }
}


/// Scans the visible part of the field column by column, each column from
/// the bottom, and empties every group of four or more cells of one colour.
/// Returns the emptied cells, the sum of the size bonuses of the emptied
/// groups, and, for each colour index, whether a group of it was emptied.
/// One cell of the scan for groups: from a coloured cell the flood fill
/// runs on the scratch grid, and its cells are listed when there are four
/// or more of them.
pub open spec fn scan_step(prev: (Seq<(int, int)>, Seq<i32>), p: (int, int)) -> (Seq<(int, int)>, Seq<i32>) {
    let col = cell(prev.1, p.0, p.1);
    if col <= 0 || col >= 6 {
        prev
    } else {
        let r = fill(prev.1, col, p, count_color(prev.1, col));
        (if r.0.len() >= 4 {
            prev.0 + r.0
        } else {
            prev.0
        }, r.1)
    }
}

/// The cells listed and the scratch grid left by the scan for groups of the
/// field `g` before the cell (`i`, `j`): column by column from the left,
/// each column from the bottom of its visible rows.
pub open spec fn scan_order(g: Seq<i32>, i: int, j: int) -> (Seq<(int, int)>, Seq<i32>)
    decreases i, j,
{
    if i <= 1 && j <= 1 {
        (Seq::empty(), g)
    } else if j <= 1 {
        scan_order(g, i - 1, FIELD_DISP_HEIGHT + 1)
    } else {
        scan_step(scan_order(g, i, j - 1), (i, j - 1))
    }
}

fn scan_groups(arrange: &mut Vec<i32>) -> (res: (Vec<(usize, usize)>, i32, Vec<bool>))
    requires
        walls_intact(old(arrange)@),
    ensures
        cleared_ok(old(arrange)@, final(arrange)@, 7, 1),
        listed_ok(old(arrange)@, res.0@, 7, 1),
        colors_ok(old(arrange)@, res.2@, 7, 1),
        positions(res.0@) == scan_order(old(arrange)@, 7, 1).0,
        res.1 == group_bonus(old(arrange)@),
        0 <= res.1 <= 720,
{
    let ghost g = arrange@;
    let mut ch = arrange.clone();
    proof {
        assert(ch@ =~= g);
    }
    let mut v_ret: Vec<(usize, usize)> = Vec::new();
    let mut renk: i32 = 0;
    let mut ap: Vec<bool> = vec![false, false, false, false, false, false];
    proof {
        assert forall|p: (int, int)| is_color(#[trigger] cell(g, p.0, p.1)) implies !touched(
            g,
            p,
            1,
            1,
        ) by {
            lemma_touched_start(g, p);
        }
        assert(positions(v_ret@).to_set() =~= touched_big(g, 1, 1));
        assert(scratch_ok(g, ch@, 1, 1));
        assert(cleared_ok(g, arrange@, 1, 1));
        assert(colors_ok(g, ap@, 1, 1));
        assert(positions(v_ret@) =~= Seq::<(int, int)>::empty());
    }
    let mut i: usize = 1;
    while i < 7
        invariant
            1 <= i <= 7,
            walls_intact(g),
            scratch_ok(g, ch@, i as int, 1),
            cleared_ok(g, arrange@, i as int, 1),
            listed_ok(g, v_ret@, i as int, 1),
            colors_ok(g, ap@, i as int, 1),
            (positions(v_ret@), ch@) == scan_order(g, i as int, 1),
            renk == bonus_before(g, i as int),
            0 <= renk <= 120 * (i - 1),
        decreases 7 - i,
    {
        let mut j: usize = 1;
        while j <= FIELD_DISP_HEIGHT
            invariant
                1 <= i < 7,
                1 <= j <= FIELD_DISP_HEIGHT + 1,
                walls_intact(g),
                scratch_ok(g, ch@, i as int, j as int),
                cleared_ok(g, arrange@, i as int, j as int),
                listed_ok(g, v_ret@, i as int, j as int),
                colors_ok(g, ap@, i as int, j as int),
                (positions(v_ret@), ch@) == scan_order(g, i as int, j as int),
                renk == bonus_before(g, i as int) + bonus_in_column(g, i as int, j as int),
                0 <= renk <= 120 * (i - 1) + 10 * (j - 1),
            decreases FIELD_DISP_HEIGHT + 1 - j,
        {
            let col = get_cell(&ch, i, j);
            if col <= 0 || col >= 6 {
                proof {
                    lemma_visit_skip(g, ch@, i as int, j as int);
                    lemma_states_transfer(
                        g,
                        ch@,
                        arrange@,
                        v_ret@,
                        ap@,
                        i as int,
                        j as int,
                        i as int,
                        j + 1,
                    );
                }
                j = j + 1;
                continue;
            }
            let ghost ch0 = ch@;
            let ghost arr0 = arrange@;
            let ghost v0 = v_ret@;
            let ghost ap0 = ap@;
            proof {
                lemma_visit_group(g, ch@, i as int, j as int, col);
            }
            let mut v = delete_sub(&mut ch, col, i, j);
            let ghost pv = positions(v@);
            let ghost w = v@;
            let big = v.len() >= 4;
            if big {
                proof {
                    assert forall|k: int| 0 <= k < v@.len() implies #[trigger] visible(
                        positions(v@)[k],
                    ) by {
                        assert(positions(v@).to_set().contains(positions(v@)[k]));
                        lemma_group_member(g, (i as int, j as int), positions(v@)[k]);
                    }
                }
                clear_cells(arrange, &v);
                let b = group_size_bonus_of(v.len());
                renk = renk + b;
                ap.set(col as usize, true);
                v_ret.append(&mut v);
                proof {
                    lemma_positions_add(v0, w);
                }
            }
            proof {
                assert((positions(v_ret@), ch@) == scan_order(g, i as int, j + 1));
                lemma_visit_take(
                    g,
                    ch0,
                    ch@,
                    arr0,
                    arrange@,
                    v0,
                    v_ret@,
                    w,
                    ap0,
                    ap@,
                    i as int,
                    j as int,
                    col,
                );
            }
            j = j + 1;
        }
        proof {
            assert forall|p: (int, int)| is_color(#[trigger] cell(g, p.0, p.1)) implies touched(
                g,
                p,
                i as int,
                FIELD_DISP_HEIGHT + 1,
            ) == touched(g, p, i + 1, 1) by {
                lemma_touched_column(g, p, i as int);
            }
            lemma_states_transfer(
                g,
                ch@,
                arrange@,
                v_ret@,
                ap@,
                i as int,
                FIELD_DISP_HEIGHT + 1,
                i + 1,
                1,
            );
        }
        i = i + 1;
    }
    (v_ret, renk, ap)
}


/// The cells whose garbage block goes when the coloured cell `e` is cleared:
/// left, below, right, and above unless `e` is in the top visible row.
pub open spec fn touches(e: (int, int), q: (int, int)) -> bool {
    ||| q == neighbor(e, 1)
    ||| q == neighbor(e, 3)
    ||| q == neighbor(e, 0)
    ||| (q == neighbor(e, 2) && e.1 < FIELD_DISP_HEIGHT)
}

/// `q` holds a garbage block next to one of the first `k` cells of `es`.
pub open spec fn near_prefix(g: Seq<i32>, es: Seq<(int, int)>, k: int, q: (int, int)) -> bool {
    cell(g, q.0, q.1) == OJAMA && exists|m: int| 0 <= m < k && #[trigger] touches(es[m], q)
}

/// A garbage block in the visible rows next to a cleared coloured cell is
/// cleared too.
pub open spec fn ojama_cleared(g: Seq<i32>, q: (int, int)) -> bool {
    &&& in_field(q.0, q.1)
    &&& q.1 <= FIELD_DISP_HEIGHT
    &&& cell(g, q.0, q.1) == OJAMA
    &&& exists|k: int| 0 <= k < 4 && #[trigger] in_big_group(g, neighbor(q, k))
}

/// Every cell that one chain step empties.
pub open spec fn cleared(g: Seq<i32>, q: (int, int)) -> bool {
    in_big_group(g, q) || ojama_cleared(g, q)
}

/// Empties the cell (`a`, `b`) and lists it when it holds a garbage block.
fn take_ojama(arr: &mut Vec<i32>, v: &mut Vec<(usize, usize)>, a: usize, b: usize)
    requires
        old(arr)@.len() == GRID_LEN,
        in_field(a as int, b as int),
    ensures
        final(arr)@.len() == GRID_LEN,
        cell(old(arr)@, a as int, b as int) == OJAMA ==> final(arr)@ == old(arr)@.update(
            cell_index(a as int, b as int),
            0,
        ) && final(v)@ == old(v)@.push((a, b)),
        cell(old(arr)@, a as int, b as int) != OJAMA ==> final(arr)@ == old(arr)@ && final(v)@
            == old(v)@,
{
    if get_cell(arr, a, b) == OJAMA {
        set_cell(arr, a, b, 0);
        v.push((a, b));
    }
}

/// The `k`-th cell that `clear_ojama_around` looks at: left, below, right,
/// above.
pub open spec fn around(e: (int, int), k: int) -> (int, int) {
    if k == 0 {
        neighbor(e, 1)
    } else if k == 1 {
        neighbor(e, 3)
    } else if k == 2 {
        neighbor(e, 0)
    } else {
        neighbor(e, 2)
    }
}

/// `q` is one of the first `k` cells looked at around `e`.
pub open spec fn looked_at(e: (int, int), k: int, q: (int, int)) -> bool {
    exists|m: int|
        0 <= m < k && (m < 3 || e.1 < FIELD_DISP_HEIGHT) && q == #[trigger] around(e, m)
}

/// The garbage blocks taken around the cleared cell `e` when its first `k`
/// neighbours are looked at (left, below, right, then above unless `e` is
/// in the top visible row), in the order they are taken, and the grid left.
pub open spec fn take_around(arr: Seq<i32>, e: (int, int), k: int) -> (Seq<(int, int)>, Seq<i32>)
    decreases k,
{
    if k <= 0 {
        (Seq::empty(), arr)
    } else {
        let prev = take_around(arr, e, k - 1);
        let q = around(e, k - 1);
        if (k - 1 < 3 || e.1 < FIELD_DISP_HEIGHT) && cell(prev.1, q.0, q.1) == OJAMA {
            (prev.0.push(q), prev.1.update(cell_index(q.0, q.1), 0i32))
        } else {
            prev
        }
    }
}

/// The garbage blocks taken around the first `k` cleared cells of `es`, one
/// cell after the other, in the order they are taken, and the grid left.
pub open spec fn take_all(arr: Seq<i32>, es: Seq<(int, int)>, k: int) -> (Seq<(int, int)>, Seq<i32>)
    decreases k,
{
    if k <= 0 {
        (Seq::empty(), arr)
    } else {
        let prev = take_all(arr, es, k - 1);
        let r = take_around(prev.1, es[k - 1], 4);
        (prev.0 + r.0, r.1)
    }
}

/// The two grids hold garbage blocks in the same cells.
pub open spec fn same_ojama(a1: Seq<i32>, a2: Seq<i32>) -> bool {
    &&& a1.len() == GRID_LEN
    &&& a2.len() == GRID_LEN
    &&& forall|a: int, b: int|
        in_field(a, b) ==> (#[trigger] cell(a1, a, b) == OJAMA <==> cell(a2, a, b) == OJAMA)
}

proof fn lemma_take_around_same(a1: Seq<i32>, a2: Seq<i32>, e: (int, int), k: int)
    requires
        same_ojama(a1, a2),
        visible(e),
        k <= 4,
    ensures
        take_around(a1, e, k).0 == take_around(a2, e, k).0,
        same_ojama(take_around(a1, e, k).1, take_around(a2, e, k).1),
    decreases k,
{
    if k > 0 {
        lemma_take_around_same(a1, a2, e, k - 1);
        let p1 = take_around(a1, e, k - 1).1;
        let p2 = take_around(a2, e, k - 1).1;
        let q = around(e, k - 1);
        assert(in_field(q.0, q.1));
        if (k - 1 < 3 || e.1 < FIELD_DISP_HEIGHT) && cell(p1, q.0, q.1) == OJAMA {
            let n1 = p1.update(cell_index(q.0, q.1), 0i32);
            let n2 = p2.update(cell_index(q.0, q.1), 0i32);
            assert forall|a: int, b: int| in_field(a, b) implies (#[trigger] cell(n1, a, b)
                == OJAMA <==> cell(n2, a, b) == OJAMA) by {
                if (a, b) != q {
                    crate::grid::lemma_cell_index_distinct(a, b, q.0, q.1);
                    assert(cell(p1, a, b) == OJAMA <==> cell(p2, a, b) == OJAMA);
                }
            }
        }
    }
}

proof fn lemma_take_all_same(a1: Seq<i32>, a2: Seq<i32>, es: Seq<(int, int)>, k: int)
    requires
        same_ojama(a1, a2),
        forall|m: int| 0 <= m < es.len() ==> visible(#[trigger] es[m]),
        k <= es.len(),
    ensures
        take_all(a1, es, k).0 == take_all(a2, es, k).0,
        same_ojama(take_all(a1, es, k).1, take_all(a2, es, k).1),
    decreases k,
{
    if k > 0 {
        lemma_take_all_same(a1, a2, es, k - 1);
        assert(visible(es[k - 1]));
        lemma_take_around_same(take_all(a1, es, k - 1).1, take_all(a2, es, k - 1).1, es[k - 1], 4);
    }
}

/// The cells of `v` are in the field and hold no garbage block in `arr`.
pub open spec fn listed_free(arr: Seq<i32>, v: Seq<(usize, usize)>) -> bool {
    forall|k: int|
        0 <= k < v.len() ==> in_field(#[trigger] positions(v)[k].0, positions(v)[k].1) && cell(
            arr,
            positions(v)[k].0,
            positions(v)[k].1,
        ) != OJAMA
}

/// Empties and lists the garbage blocks that clearing the cell `e` takes.
fn clear_ojama_around(arr: &mut Vec<i32>, v: &mut Vec<(usize, usize)>, e: (usize, usize))
    requires
        old(arr)@.len() == GRID_LEN,
        visible((e.0 as int, e.1 as int)),
        positions(old(v)@).no_duplicates(),
        listed_free(old(arr)@, old(v)@),
    ensures
        final(arr)@.len() == GRID_LEN,
        forall|a: int, b: int|
            in_field(a, b) ==> #[trigger] cell(final(arr)@, a, b) == (if cell(old(arr)@, a, b)
                == OJAMA && touches((e.0 as int, e.1 as int), (a, b)) {
                0i32
            } else {
                cell(old(arr)@, a, b)
            }),
        positions(final(v)@).no_duplicates(),
        positions(final(v)@).to_set() == positions(old(v)@).to_set().union(
            Set::new(
                |q: (int, int)|
                    in_field(q.0, q.1) && cell(old(arr)@, q.0, q.1) == OJAMA && touches(
                        (e.0 as int, e.1 as int),
                        q,
                    ),
            ),
        ),
        listed_free(final(arr)@, final(v)@),
        positions(final(v)@) == positions(old(v)@) + take_around(
            old(arr)@,
            (e.0 as int, e.1 as int),
            4,
        ).0,
        final(arr)@ == take_around(old(arr)@, (e.0 as int, e.1 as int), 4).1,
{
    let ghost a0 = arr@;
    let ghost v0 = v@;
    let ghost ei = (e.0 as int, e.1 as int);
    proof {
        assert(positions(v@) =~= positions(v0) + take_around(a0, ei, 0).0);
    }
    let mut k: usize = 0;
    while k < 4
        invariant
            k <= 4,
            a0 == old(arr)@,
            v0 == old(v)@,
            ei == (e.0 as int, e.1 as int),
            visible(ei),
            arr@.len() == GRID_LEN,
            forall|a: int, b: int|
                in_field(a, b) ==> #[trigger] cell(arr@, a, b) == (if cell(a0, a, b) == OJAMA
                    && looked_at(ei, k as int, (a, b)) {
                    0i32
                } else {
                    cell(a0, a, b)
                }),
            positions(v@).no_duplicates(),
            positions(v@).to_set() == positions(v0).to_set().union(
                Set::new(
                    |q: (int, int)|
                        in_field(q.0, q.1) && cell(a0, q.0, q.1) == OJAMA && looked_at(
                            ei,
                            k as int,
                            q,
                        ),
                ),
            ),
            listed_free(arr@, v@),
            positions(v@) == positions(v0) + take_around(a0, ei, k as int).0,
            arr@ == take_around(a0, ei, k as int).1,
        decreases 4 - k,
    {
        let ghost prev_arr = arr@;
        let ghost prev_v = v@;
        let ghost q = around(ei, k as int);
        if k < 3 || e.1 < FIELD_DISP_HEIGHT {
            let (a, b) = if k == 0 {
                (e.0 - 1, e.1)
            } else if k == 1 {
                (e.0, e.1 - 1)
            } else if k == 2 {
                (e.0 + 1, e.1)
            } else {
                (e.0, e.1 + 1)
            };
            assert(q == (a as int, b as int));
            take_ojama(arr, v, a, b);
            proof {
                if cell(prev_arr, a as int, b as int) == OJAMA {
                    lemma_positions_push(prev_v, (a, b));
                    positions(prev_v).lemma_push_to_set_commute(q);
                    assert forall|m: int| 0 <= m < prev_v.len() implies positions(prev_v)[m] != q by {
                        assert(in_field(positions(prev_v)[m].0, positions(prev_v)[m].1));
                    }
                    assert forall|a1: int, b1: int| in_field(a1, b1) implies #[trigger] cell(
                        arr@,
                        a1,
                        b1,
                    ) == cell(prev_arr, a1, b1) || (a1, b1) == q by {
                        if (a1, b1) != q {
                            crate::grid::lemma_cell_index_distinct(a1, b1, q.0, q.1);
                        }
                    }
                }
            }
        }
        proof {
            assert(positions(v@) =~= positions(v0) + take_around(a0, ei, k + 1).0);
            assert forall|p: (int, int)| looked_at(ei, k + 1, p) <==> (looked_at(ei, k as int, p) || (
            (k < 3 || ei.1 < FIELD_DISP_HEIGHT) && p == q)) by {
                if looked_at(ei, k + 1, p) {
                    let m = choose|m: int|
                        0 <= m < k + 1 && (m < 3 || ei.1 < FIELD_DISP_HEIGHT) && p == #[trigger] around(
                            ei,
                            m,
                        );
                    if m < k {
                        assert(looked_at(ei, k as int, p));
                    }
                }
                if (k < 3 || ei.1 < FIELD_DISP_HEIGHT) && p == q {
                    assert(p == around(ei, k as int));
                }
            }
            assert(positions(v@).to_set() =~= positions(v0).to_set().union(
                Set::new(
                    |p: (int, int)|
                        in_field(p.0, p.1) && cell(a0, p.0, p.1) == OJAMA && looked_at(
                            ei,
                            k + 1,
                            p,
                        ),
                ),
            ));
        }
        k = k + 1;
    }
    proof {
        assert forall|p: (int, int)| looked_at(ei, 4, p) <==> touches(ei, p) by {
            if touches(ei, p) {
                if p == neighbor(ei, 1) {
                    assert(p == around(ei, 0));
                } else if p == neighbor(ei, 3) {
                    assert(p == around(ei, 1));
                } else if p == neighbor(ei, 0) {
                    assert(p == around(ei, 2));
                } else {
                    assert(p == around(ei, 3));
                }
            }
        }
    }
}


/// A list of distinct visible cells has at most 72 entries.
proof fn lemma_visible_count(s: Seq<(int, int)>)
    requires
        s.no_duplicates(),
        forall|k: int| 0 <= k < s.len() ==> visible(#[trigger] s[k]),
    ensures
        s.len() <= 72,
{
    let f = |p: (int, int)| (p.0 - 1) * 12 + p.1 - 1;
    let t = s.map_values(f);
    assert forall|a: int, b: int| 0 <= a < t.len() && 0 <= b < t.len() && a != b implies t[a]
        != t[b] by {
        assert(visible(s[a]) && visible(s[b]));
        assert(s[a] != s[b]);
    }
    t.unique_seq_to_set();
    vstd::set_lib::lemma_int_range(0, 72);
    assert forall|x: int| t.to_set().contains(x) implies vstd::set_lib::set_int_range(0, 72).contains(
        x,
    ) by {
        let k = choose|k: int| 0 <= k < t.len() && t[k] == x;
        assert(visible(s[k]));
    }
    vstd::set_lib::lemma_len_subset(t.to_set(), vstd::set_lib::set_int_range(0, 72));
}

/// Empties and lists every garbage block next to a cell of `v`.
fn clear_adjacent_ojama(arr: &mut Vec<i32>, v: &Vec<(usize, usize)>) -> (w: Vec<(usize, usize)>)
    requires
        old(arr)@.len() == GRID_LEN,
        forall|k: int| 0 <= k < v@.len() ==> #[trigger] visible(positions(v@)[k]),
        forall|k: int|
            0 <= k < v@.len() ==> cell(
                old(arr)@,
                #[trigger] positions(v@)[k].0,
                positions(v@)[k].1,
            ) != OJAMA,
    ensures
        final(arr)@.len() == GRID_LEN,
        forall|a: int, b: int|
            in_field(a, b) ==> #[trigger] cell(final(arr)@, a, b) == (if cell(old(arr)@, a, b)
                == OJAMA && exists|m: int|
                0 <= m < v@.len() && #[trigger] touches(positions(v@)[m], (a, b)) {
                0i32
            } else {
                cell(old(arr)@, a, b)
            }),
        positions(w@).no_duplicates(),
        positions(w@).to_set() == Set::new(
            |q: (int, int)|
                in_field(q.0, q.1) && near_prefix(old(arr)@, positions(v@), v@.len() as int, q),
        ),
        positions(w@) == take_all(old(arr)@, positions(v@), v@.len() as int).0,
{
    let ghost a0 = arr@;
    let ghost es = positions(v@);
    let mut w: Vec<(usize, usize)> = Vec::new();
    let mut k: usize = 0;
    proof {
        assert(positions(w@).to_set() =~= Set::new(
            |q: (int, int)| in_field(q.0, q.1) && near_prefix(a0, es, 0, q),
        ));
    }
    while k < v.len()
        invariant
            k <= v@.len(),
            a0 == old(arr)@,
            es == positions(v@),
            arr@.len() == GRID_LEN,
            forall|q: int| 0 <= q < v@.len() ==> #[trigger] visible(es[q]),
            forall|a: int, b: int|
                in_field(a, b) ==> #[trigger] cell(arr@, a, b) == (if near_prefix(
                    a0,
                    es,
                    k as int,
                    (a, b),
                ) {
                    0i32
                } else {
                    cell(a0, a, b)
                }),
            positions(w@).no_duplicates(),
            positions(w@).to_set() == Set::new(
                |q: (int, int)| in_field(q.0, q.1) && near_prefix(a0, es, k as int, q),
            ),
            listed_free(arr@, w@),
            positions(w@) == take_all(a0, es, k as int).0,
            arr@ == take_all(a0, es, k as int).1,
        decreases v@.len() - k,
    {
        let e = v[k];
        let ghost arr1 = arr@;
        let ghost ek = es[k as int];
        assert(ek == (e.0 as int, e.1 as int));
        assert(visible(es[k as int]));
        clear_ojama_around(arr, &mut w, e);
        proof {
            assert(positions(w@) =~= take_all(a0, es, k + 1).0);
            assert forall|q: (int, int)| near_prefix(a0, es, k + 1, q) <==> (near_prefix(
                a0,
                es,
                k as int,
                q,
            ) || (cell(a0, q.0, q.1) == OJAMA && touches(ek, q))) by {
                if near_prefix(a0, es, k + 1, q) {
                    let m = choose|m: int| 0 <= m < k + 1 && #[trigger] touches(es[m], q);
                    if m < k {
                        assert(near_prefix(a0, es, k as int, q));
                    }
                }
                if cell(a0, q.0, q.1) == OJAMA && touches(ek, q) {
                    assert(touches(es[k as int], q));
                }
            }
            assert forall|a: int, b: int| in_field(a, b) implies #[trigger] cell(arr@, a, b) == (
            if near_prefix(a0, es, k + 1, (a, b)) {
                0i32
            } else {
                cell(a0, a, b)
            }) by {
                assert(cell(arr1, a, b) == (if near_prefix(a0, es, k as int, (a, b)) {
                    0i32
                } else {
                    cell(a0, a, b)
                }));
            }
            assert(positions(w@).to_set() =~= Set::new(
                |q: (int, int)| in_field(q.0, q.1) && near_prefix(a0, es, k + 1, q),
            ));
        }
        k = k + 1;
    }
    w
}


/// All cells that one chain step empties.
pub open spec fn cleared_cells(g: Seq<i32>) -> Set<(int, int)> {
    Set::new(|q: (int, int)| cleared(g, q))
}

/// The score multiplier of a chain step: chain, group size and colour
/// bonuses added up, and at least 1.
pub open spec fn bonus_multiplier(g: Seq<i32>, rensa_num: int) -> int {
    let b = chain_bonus(rensa_num) + group_bonus(g) + color_count_bonus(cleared_color_count(g));
    if b > 1 {
        b
    } else {
        1
    }
}

/// Number of `true` entries among the first `k` of `ap`.
pub open spec fn count_true(ap: Seq<bool>, k: int) -> int
    decreases k,
{
    if k <= 0 {
        0
    } else {
        count_true(ap, k - 1) + (if ap[k - 1] {
            1int
        } else {
            0int
        })
    }
}

proof fn lemma_color_touched_end(g: Seq<i32>, c: i32)
    requires
        walls_intact(g),
    ensures
        color_touched(g, c, 7, 1) == color_cleared(g, c),
{
    if color_cleared(g, c) {
        let p = choose|p: (int, int)| #[trigger] in_big_group(g, p) && cell(g, p.0, p.1) == c;
        lemma_touched_end(g, p);
        assert(in_big_group(g, p) && cell(g, p.0, p.1) == c && touched(g, p, 7, 1));
    }
}

proof fn lemma_ojama_equiv(g: Seq<i32>, es: Seq<(int, int)>, q: (int, int))
    requires
        es.to_set() == big_group_cells(g),
        in_field(q.0, q.1),
    ensures
        (cell(g, q.0, q.1) == OJAMA && exists|m: int| 0 <= m < es.len() && #[trigger] touches(es[m], q))
            == ojama_cleared(g, q),
{
    if cell(g, q.0, q.1) == OJAMA && exists|m: int| 0 <= m < es.len() && #[trigger] touches(es[m], q) {
        let m = choose|m: int| 0 <= m < es.len() && #[trigger] touches(es[m], q);
        let e = es[m];
        assert(es.to_set().contains(e));
        assert(in_big_group(g, e));
        if q == neighbor(e, 1) {
            assert(e == neighbor(q, 0));
        } else if q == neighbor(e, 3) {
            assert(e == neighbor(q, 2));
        } else if q == neighbor(e, 0) {
            assert(e == neighbor(q, 1));
        } else {
            assert(e == neighbor(q, 3));
        }
    }
    if ojama_cleared(g, q) {
        let k = choose|k: int| 0 <= k < 4 && #[trigger] in_big_group(g, neighbor(q, k));
        let e = neighbor(q, k);
        assert(big_group_cells(g).contains(e));
        assert(es.to_set().contains(e));
        let m = choose|m: int| 0 <= m < es.len() && es[m] == e;
        if k == 0 {
            assert(q == neighbor(e, 1));
        } else if k == 1 {
            assert(q == neighbor(e, 0));
        } else if k == 2 {
            assert(q == neighbor(e, 3));
        } else {
            assert(q == neighbor(e, 2));
        }
        assert(touches(es[m], q));
    }
}

/// One step of a chain, as `Field::delete` does it: empties every group of
/// four or more same-coloured blocks in the visible rows and every garbage
/// block next to one of them.  Returns the emptied cells (the coloured ones
/// first), the base score (10 per emptied coloured block) and the score
/// multiplier for the `rensa_num`-th link of the chain.
pub fn chain_step(arrange: &mut Vec<i32>, rensa_num: i32) -> (r: (Vec<(usize, usize)>, i32, i32))
    requires
        walls_intact(old(arrange)@),
        1 <= rensa_num < 20,
    ensures
        walls_intact(final(arrange)@),
        forall|a: int, b: int|
            in_field(a, b) ==> #[trigger] cell(final(arrange)@, a, b) == (if cleared(
                old(arrange)@,
                (a, b),
            ) {
                0i32
            } else {
                cell(old(arrange)@, a, b)
            }),
        positions(r.0@).no_duplicates(),
        positions(r.0@).to_set() == cleared_cells(old(arrange)@),
        forall|k: int|
            0 <= k < r.0@.len() ==> (in_big_group(old(arrange)@, #[trigger] positions(r.0@)[k])
                <==> k < big_group_cells(old(arrange)@).len()),
        positions(r.0@).subrange(0, big_group_cells(old(arrange)@).len() as int) == scan_order(
            old(arrange)@,
            7,
            1,
        ).0,
        positions(r.0@).subrange(big_group_cells(old(arrange)@).len() as int, r.0@.len() as int)
            == take_all(
            old(arrange)@,
            scan_order(old(arrange)@, 7, 1).0,
            big_group_cells(old(arrange)@).len() as int,
        ).0,
        r.1 == 10 * big_group_cells(old(arrange)@).len(),
        r.2 == bonus_multiplier(old(arrange)@, rensa_num as int),
        0 <= r.1 <= 720,
        1 <= r.2 <= 1256,
{
    let ghost g = arrange@;
    let (mut v_ret, renk, ap) = scan_groups(arrange);
    let ghost arr1 = arrange@;
    let ghost es = positions(v_ret@);
    proof {
        assert forall|p: (int, int)| #[trigger] in_big_group(g, p) implies touched(g, p, 7, 1) by {
            lemma_touched_end(g, p);
        }
        assert(touched_big(g, 7, 1) =~= big_group_cells(g));
        es.unique_seq_to_set();
        assert forall|k: int| 0 <= k < es.len() implies visible(#[trigger] es[k]) by {
            assert(es.to_set().contains(es[k]));
        }
        lemma_visible_count(es);
    }
    let mut col_num: usize = 0;
    let mut c: usize = 0;
    while c < 6
        invariant
            c <= 6,
            ap@.len() == 6,
            col_num == count_true(ap@, c as int),
            col_num <= c,
        decreases 6 - c,
    {
        if ap[c] {
            col_num = col_num + 1;
        }
        c = c + 1;
    }
    proof {
        reveal_with_fuel(count_true, 7);
        lemma_color_touched_end(g, 1);
        lemma_color_touched_end(g, 2);
        lemma_color_touched_end(g, 3);
        lemma_color_touched_end(g, 4);
        lemma_color_touched_end(g, 5);
        assert(ap@[1] == color_cleared(g, 1));
        assert(ap@[2] == color_cleared(g, 2));
        assert(ap@[3] == color_cleared(g, 3));
        assert(ap@[4] == color_cleared(g, 4));
        assert(ap@[5] == color_cleared(g, 5));
        assert(col_num == cleared_color_count(g));
    }
    let mut bonus_multiply = chain_bonus_of(rensa_num as usize);
    bonus_multiply = bonus_multiply + renk;
    bonus_multiply = bonus_multiply + color_count_bonus_of(col_num);
    let base_score = v_ret.len() as i32 * 10;
    if bonus_multiply < 1 {
        bonus_multiply = 1;
    }
    proof {
        assert forall|k: int| 0 <= k < v_ret@.len() implies cell(
            arr1,
            #[trigger] positions(v_ret@)[k].0,
            positions(v_ret@)[k].1,
        ) != OJAMA by {
            assert(es.to_set().contains(es[k]));
        }
    }
    let mut ojm = clear_adjacent_ojama(arrange, &v_ret);
    proof {
        assert forall|a: int, b: int| in_field(a, b) implies #[trigger] cell(arrange@, a, b) == (
        if cleared(g, (a, b)) {
            0i32
        } else {
            cell(g, a, b)
        }) by {
            lemma_ojama_equiv(g, es, (a, b));
            assert(cell(arr1, a, b) == (if in_big_group(g, (a, b)) && touched(g, (a, b), 7, 1) {
                0i32
            } else {
                cell(g, a, b)
            }));
        }
        let po = positions(ojm@);
        assert forall|q: (int, int)| po.to_set().contains(q) <==> (in_field(q.0, q.1)
            && ojama_cleared(g, q)) by {
            if in_field(q.0, q.1) {
                lemma_ojama_equiv(g, es, q);
            }
        }
        assert forall|a: int, b: int| 0 <= a < es.len() && 0 <= b < po.len() implies es[a]
            != po[b] by {
            assert(es.to_set().contains(es[a]));
            assert(po.to_set().contains(po[b]));
        }
        vstd::seq_lib::lemma_no_dup_in_concat(es, po);
        lemma_positions_add(v_ret@, ojm@);
        vstd::seq_lib::seq_to_set_distributes_over_add(es, po);
    }
    let ghost po = positions(ojm@);
    v_ret.append(&mut ojm);
    proof {
        assert(positions(v_ret@).to_set() =~= cleared_cells(g));
        assert(positions(v_ret@) == es + po);
        assert(es.len() == big_group_cells(g).len());
        assert(positions(v_ret@).subrange(0, es.len() as int) =~= es);
        assert(positions(v_ret@).subrange(es.len() as int, v_ret@.len() as int) =~= po);
        assert forall|a: int, b: int| in_field(a, b) implies (#[trigger] cell(g, a, b) == OJAMA
            <==> cell(arr1, a, b) == OJAMA) by {
            assert(cell(arr1, a, b) == (if in_big_group(g, (a, b)) && touched(g, (a, b), 7, 1) {
                0i32
            } else {
                cell(g, a, b)
            }));
        }
        assert forall|m: int| 0 <= m < es.len() implies visible(#[trigger] es[m]) by {
            assert(es.to_set().contains(es[m]));
        }
        lemma_take_all_same(g, arr1, es, es.len() as int);
        assert forall|k: int| 0 <= k < v_ret@.len() implies (in_big_group(
            g,
            #[trigger] positions(v_ret@)[k],
        ) <==> k < big_group_cells(g).len()) by {
            if k < es.len() {
                assert(es.to_set().contains(es[k]));
            } else {
                assert(po.to_set().contains(po[k - es.len()]));
            }
        }
    }
    (v_ret, base_score, bonus_multiply)
}


/// The cells of the field.
pub open spec fn field_cells() -> Set<(int, int)> {
    Set::new(|p: (int, int)| in_field(p.0, p.1))
}

proof fn lemma_field_cells_finite()
    ensures
        field_cells().finite(),
{
    let r = vstd::set_lib::set_int_range(0, 176);
    vstd::set_lib::lemma_int_range(0, 176);
    let f = |k: int| (k / 22, k % 22);
    let img = r.map(f);
    vstd::set_lib::lemma_map_size_bound(r, img, f);
    assert forall|p: (int, int)| field_cells().contains(p) implies img.contains(p) by {
        let k = p.0 * 22 + p.1;
        assert(k / 22 == p.0 && k % 22 == p.1) by (nonlinear_arith)
            requires
                k == p.0 * 22 + p.1,
                0 <= p.1 < 22,
                0 <= p.0 < 8,
        ;
        assert(r.contains(k));
        assert(f(k) == p);
    }
    vstd::set_lib::lemma_len_subset(field_cells(), img);
}

/// After a chain step no group of four or more is left: clearing cells
/// cannot join what was apart.
pub proof fn law_no_group_left(g: Seq<i32>, h: Seq<i32>)
    requires
        walls_intact(g),
        h.len() == GRID_LEN,
        forall|a: int, b: int|
            in_field(a, b) ==> #[trigger] cell(h, a, b) == (if cleared(g, (a, b)) {
                0i32
            } else {
                cell(g, a, b)
            }),
    ensures
        big_group_cells(h) == Set::<(int, int)>::empty(),
{
    lemma_field_cells_finite();
    assert forall|p: (int, int)| !big_group_cells(h).contains(p) by {
        if in_big_group(h, p) {
            let c = cell(h, p.0, p.1);
            assert(cell(g, p.0, p.1) == c);
            assert(!cleared(g, p));
            let mh = members(h, c);
            let mg = members(g, c);
            assert(mh.subset_of(mg));
            assert forall|t: (int, int)| group_of(h, p).contains(t) implies group_of(g, p).contains(t) by {
                crate::groups::lemma_reach_subset(mh, mg, p, t);
            }
            assert forall|t: (int, int)| group_of(g, p).contains(t) implies field_cells().contains(t) by {
                lemma_reach_ends(mg, p, t);
            }
            vstd::set_lib::lemma_len_subset(group_of(g, p), field_cells());
            vstd::set_lib::lemma_len_subset(group_of(h, p), group_of(g, p));
        }
    }
    assert(big_group_cells(h) =~= Set::<(int, int)>::empty());
}

} // verus!
