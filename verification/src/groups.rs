//! Connected groups of same-coloured cells.
//!
//! A group is a connected component of the cells of one colour in the
//! visible rows, under the four-neighbour adjacency of the grid.  This module
//! defines reachability by paths, proves the facts about components that the
//! flood fill of `chain::delete_sub` rests on, and counts cells of a colour.
use vstd::prelude::*;
use crate::grid::{cell, in_field, FIELD_DISP_HEIGHT};

verus! {

/// The four neighbours of a cell, in the order the flood fill visits them:
/// right, left, up, down.
pub open spec fn neighbor(p: (int, int), k: int) -> (int, int) {
    if k == 0 {
        (p.0 + 1, p.1)
    } else if k == 1 {
        (p.0 - 1, p.1)
    } else if k == 2 {
        (p.0, p.1 + 1)
    } else {
        (p.0, p.1 - 1)
    }
}

pub open spec fn adjacent(p: (int, int), q: (int, int)) -> bool {
    ||| q == neighbor(p, 0)
    ||| q == neighbor(p, 1)
    ||| q == neighbor(p, 2)
    ||| q == neighbor(p, 3)
}

/// The cells of colour `col` that take part in chains: those in the visible
/// rows (the wall row and rows above `FIELD_DISP_HEIGHT` never do).
pub open spec fn members(g: Seq<i32>, col: i32) -> Set<(int, int)> {
    Set::new(
        |p: (int, int)| in_field(p.0, p.1) && p.1 <= FIELD_DISP_HEIGHT && cell(g, p.0, p.1) == col,
    )
}

/// Cells `k` and `k + 1` of `path` are neighbours.
pub open spec fn linked(path: Seq<(int, int)>, k: int) -> bool {
    adjacent(path[k], path[k + 1])
}

/// `path` is a non-empty walk through cells of `m`, each step to a neighbour.
pub open spec fn is_path(m: Set<(int, int)>, path: Seq<(int, int)>) -> bool {
    &&& path.len() > 0
    &&& forall|k: int| 0 <= k < path.len() ==> m.contains(#[trigger] path[k])
    &&& forall|k: int| 0 <= k < path.len() - 1 ==> #[trigger] linked(path, k)
}

pub open spec fn reach(m: Set<(int, int)>, s: (int, int), t: (int, int)) -> bool {
    exists|path: Seq<(int, int)>|
        #![trigger is_path(m, path)]
        is_path(m, path) && path[0] == s && path.last() == t
}

/// The connected component of `s` within `m` (empty when `s` is not in `m`).
pub open spec fn component(m: Set<(int, int)>, s: (int, int)) -> Set<(int, int)> {
    Set::new(|t: (int, int)| reach(m, s, t))
}

/// No path leads out of `u` within `m`.
pub open spec fn closed(m: Set<(int, int)>, u: Set<(int, int)>) -> bool {
    forall|t: (int, int), w: (int, int)| u.contains(t) && #[trigger] reach(m, t, w) ==> u.contains(w)
}

pub proof fn lemma_reach_refl(m: Set<(int, int)>, s: (int, int))
    requires
        m.contains(s),
    ensures
        reach(m, s, s),
{
    let path = seq![s];
    assert(is_path(m, path));
}

pub proof fn lemma_reach_ends(m: Set<(int, int)>, s: (int, int), t: (int, int))
    requires
        reach(m, s, t),
    ensures
        m.contains(s),
        m.contains(t),
{
    let path = choose|path: Seq<(int, int)>| is_path(m, path) && path[0] == s && path.last() == t;
    assert(m.contains(path[0]));
    assert(m.contains(path[path.len() - 1]));
}

pub proof fn lemma_adjacent_symmetric(p: (int, int), q: (int, int))
    requires
        adjacent(p, q),
    ensures
        adjacent(q, p),
{
}

pub proof fn lemma_reach_sym(m: Set<(int, int)>, s: (int, int), t: (int, int))
    requires
        reach(m, s, t),
    ensures
        reach(m, t, s),
{
    let path = choose|path: Seq<(int, int)>| is_path(m, path) && path[0] == s && path.last() == t;
    let rev = path.reverse();
    assert forall|k: int| 0 <= k < rev.len() - 1 implies #[trigger] linked(rev, k) by {
        let a = path.len() - 2 - k;
        assert(linked(path, a));
        lemma_adjacent_symmetric(path[a], path[a + 1]);
    }
    assert(is_path(m, rev));
}

pub proof fn lemma_reach_trans(m: Set<(int, int)>, a: (int, int), b: (int, int), c: (int, int))
    requires
        reach(m, a, b),
        reach(m, b, c),
    ensures
        reach(m, a, c),
{
    let p1 = choose|path: Seq<(int, int)>| is_path(m, path) && path[0] == a && path.last() == b;
    let p2 = choose|path: Seq<(int, int)>| is_path(m, path) && path[0] == b && path.last() == c;
    let p = p1 + p2.drop_first();
    assert forall|k: int| 0 <= k < p.len() implies m.contains(#[trigger] p[k]) by {
        if k < p1.len() {
            assert(p[k] == p1[k]);
        } else {
            assert(p[k] == p2[k - p1.len() + 1]);
        }
    }
    assert forall|k: int| 0 <= k < p.len() - 1 implies #[trigger] linked(p, k) by {
        if k < p1.len() - 1 {
            assert(linked(p1, k));
        } else if k == p1.len() - 1 {
            assert(p[k] == p2[0]);
            assert(p[k + 1] == p2[1]);
            assert(linked(p2, 0));
        } else {
            let q = k - p1.len() + 1;
            assert(p[k] == p2[q]);
            assert(p[k + 1] == p2[q + 1]);
            assert(linked(p2, q));
        }
    }
    assert(is_path(m, p));
    if p2.len() == 1 {
        assert(p.last() == p1.last());
    } else {
        assert(p.last() == p2.last());
    }
}

pub proof fn lemma_reach_step(m: Set<(int, int)>, s: (int, int), t: (int, int), u: (int, int))
    requires
        reach(m, s, t),
        m.contains(u),
        adjacent(t, u),
    ensures
        reach(m, s, u),
{
    let path = seq![t, u];
    assert(linked(path, 0));
    assert(is_path(m, path));
    lemma_reach_trans(m, s, t, u);
}

/// A path inside `m` is a path inside any superset of `m`.
pub proof fn lemma_reach_subset(
    m: Set<(int, int)>,
    m2: Set<(int, int)>,
    s: (int, int),
    t: (int, int),
)
    requires
        reach(m, s, t),
        m.subset_of(m2),
    ensures
        reach(m2, s, t),
{
    let path = choose|path: Seq<(int, int)>| is_path(m, path) && path[0] == s && path.last() == t;
    assert(is_path(m2, path));
}

/// Every cell of a path is reachable from its first cell and reaches its last.
pub proof fn lemma_path_cells(m: Set<(int, int)>, path: Seq<(int, int)>, k: int)
    requires
        is_path(m, path),
        0 <= k < path.len(),
    ensures
        reach(m, path[0], path[k]),
        reach(m, path[k], path.last()),
{
    let pre = path.subrange(0, k + 1);
    assert forall|a: int| 0 <= a < pre.len() - 1 implies #[trigger] linked(pre, a) by {
        assert(linked(path, a));
    }
    assert(is_path(m, pre));
    assert(pre.last() == path[k]);
    let suf = path.subrange(k, path.len() as int);
    assert forall|a: int| 0 <= a < suf.len() - 1 implies #[trigger] linked(suf, a) by {
        assert(linked(path, k + a));
    }
    assert(is_path(m, suf));
    assert(suf.last() == path.last());
}

pub proof fn lemma_component_closed(m: Set<(int, int)>, s: (int, int))
    ensures
        closed(m, component(m, s)),
{
    assert forall|t: (int, int), w: (int, int)|
        component(m, s).contains(t) && #[trigger] reach(m, t, w) implies component(
        m,
        s,
    ).contains(w) by {
        lemma_reach_trans(m, s, t, w);
    }
}

pub proof fn lemma_union_closed(m: Set<(int, int)>, u1: Set<(int, int)>, u2: Set<(int, int)>)
    requires
        closed(m, u1),
        closed(m, u2),
    ensures
        closed(m, u1.union(u2)),
{
}

/// Taking a closed set of cells out of `m` leaves the component of any other
/// cell as it was.
pub proof fn lemma_remove_closed(m: Set<(int, int)>, u: Set<(int, int)>, z: (int, int))
    requires
        closed(m, u),
        !u.contains(z),
    ensures
        component(m.difference(u), z) == component(m, z),
{
    assert forall|t: (int, int)| component(m, z).contains(t) implies component(
        m.difference(u),
        z,
    ).contains(t) by {
        let path = choose|path: Seq<(int, int)>| is_path(m, path) && path[0] == z && path.last() == t;
        assert forall|k: int| 0 <= k < path.len() implies m.difference(u).contains(#[trigger] path[k]) by {
            lemma_path_cells(m, path, k);
            if u.contains(path[k]) {
                lemma_reach_sym(m, path[0], path[k]);
                assert(reach(m, path[k], z));
            }
        }
        assert(is_path(m.difference(u), path));
    }
    assert forall|t: (int, int)| component(m.difference(u), z).contains(t) implies component(
        m,
        z,
    ).contains(t) by {
        lemma_reach_subset(m.difference(u), m, z, t);
    }
    assert(component(m.difference(u), z) =~= component(m, z));
}

/// A component is empty when its start is out of `m`.
pub proof fn lemma_component_outside(m: Set<(int, int)>, z: (int, int))
    requires
        !m.contains(z),
    ensures
        component(m, z) == Set::<(int, int)>::empty(),
{
    assert forall|t: (int, int)| !component(m, z).contains(t) by {
        if reach(m, z, t) {
            lemma_reach_ends(m, z, t);
        }
    }
    assert(component(m, z) =~= Set::<(int, int)>::empty());
}

/// A walk from `x` that ends elsewhere leaves `x` for the last time through
/// one of its neighbours, and goes on without coming back.
proof fn lemma_escape(m: Set<(int, int)>, x: (int, int), path: Seq<(int, int)>)
    requires
        is_path(m, path),
        path[0] == x,
        path.last() != x,
    ensures
        exists|k: int| 0 <= k < 4 && #[trigger] reach(m.remove(x), neighbor(x, k), path.last()),
    decreases path.len(),
{
    let q = path.drop_first();
    assert(path.len() >= 2);
    assert(linked(path, 0));
    if q.contains(x) {
        let k = choose|k: int| 0 <= k < q.len() && q[k] == x;
        let r = path.subrange(k + 1, path.len() as int);
        assert forall|a: int| 0 <= a < r.len() - 1 implies #[trigger] linked(r, a) by {
            assert(linked(path, k + 1 + a));
        }
        assert(is_path(m, r));
        assert(r.last() == path.last());
        lemma_escape(m, x, r);
    } else {
        assert forall|a: int| 0 <= a < q.len() implies m.remove(x).contains(#[trigger] q[a]) by {
            assert(q[a] == path[a + 1]);
        }
        assert forall|a: int| 0 <= a < q.len() - 1 implies #[trigger] linked(q, a) by {
            assert(linked(path, a + 1));
        }
        assert(is_path(m.remove(x), q));
        assert(q.last() == path.last());
        assert(reach(m.remove(x), q[0], path.last()));
        if path[1] == neighbor(x, 0) {
            assert(reach(m.remove(x), neighbor(x, 0), path.last()));
        } else if path[1] == neighbor(x, 1) {
            assert(reach(m.remove(x), neighbor(x, 1), path.last()));
        } else if path[1] == neighbor(x, 2) {
            assert(reach(m.remove(x), neighbor(x, 2), path.last()));
        } else {
            assert(reach(m.remove(x), neighbor(x, 3), path.last()));
        }
    }
}

/// The component of `x` is `x` together with the components of its four
/// neighbours once `x` itself is taken out.
pub proof fn lemma_component_split(m: Set<(int, int)>, x: (int, int))
    requires
        m.contains(x),
    ensures
        component(m, x) == set![x].union(component(m.remove(x), neighbor(x, 0))).union(
            component(m.remove(x), neighbor(x, 1)),
        ).union(component(m.remove(x), neighbor(x, 2))).union(
            component(m.remove(x), neighbor(x, 3)),
        ),
{
    let m1 = m.remove(x);
    let rhs = set![x].union(component(m1, neighbor(x, 0))).union(
        component(m1, neighbor(x, 1)),
    ).union(component(m1, neighbor(x, 2))).union(component(m1, neighbor(x, 3)));
    assert forall|t: (int, int)| component(m, x).contains(t) implies rhs.contains(t) by {
        if t != x {
            let path = choose|path: Seq<(int, int)>|
                is_path(m, path) && path[0] == x && path.last() == t;
            lemma_escape(m, x, path);
            let k = choose|k: int| 0 <= k < 4 && #[trigger] reach(m1, neighbor(x, k), t);
            assert(component(m1, neighbor(x, k)).contains(t));
        }
    }
    assert forall|t: (int, int)| rhs.contains(t) implies component(m, x).contains(t) by {
        lemma_reach_refl(m, x);
        if t != x {
            let k = choose|k: int| 0 <= k < 4 && component(m1, neighbor(x, k)).contains(t);
            assert(reach(m1, neighbor(x, k), t));
            lemma_reach_ends(m1, neighbor(x, k), t);
            lemma_reach_subset(m1, m, neighbor(x, k), t);
            lemma_reach_step(m, x, x, neighbor(x, k));
            lemma_reach_trans(m, x, neighbor(x, k), t);
        }
    }
    assert(component(m, x) =~= rhs);
}

/// Two cells joined by a path have the same component.
pub proof fn lemma_component_same(m: Set<(int, int)>, s: (int, int), t: (int, int))
    requires
        reach(m, s, t),
    ensures
        component(m, s) == component(m, t),
{
    assert forall|w: (int, int)| component(m, s).contains(w) implies component(m, t).contains(w) by {
        lemma_reach_sym(m, s, t);
        lemma_reach_trans(m, t, s, w);
    }
    assert forall|w: (int, int)| component(m, t).contains(w) implies component(m, s).contains(w) by {
        lemma_reach_trans(m, s, t, w);
    }
    assert(component(m, s) =~= component(m, t));
}

/// Number of entries equal to `col` among the first `n` entries of `g`.
pub open spec fn count_upto(g: Seq<i32>, col: i32, n: int) -> nat
    decreases n,
{
    if n <= 0 {
        0
    } else {
        count_upto(g, col, n - 1) + (if g[n - 1] == col {
            1nat
        } else {
            0nat
        })
    }
}

/// Number of cells of colour `col` in the grid.
pub open spec fn count_color(g: Seq<i32>, col: i32) -> nat {
    count_upto(g, col, g.len() as int)
}

pub proof fn lemma_count_mark(g: Seq<i32>, col: i32, k: int, v: i32, n: int)
    requires
        0 <= k < g.len(),
        g[k] == col,
        v != col,
        0 <= n <= g.len(),
    ensures
        count_upto(g.update(k, v), col, n) + (if k < n {
            1nat
        } else {
            0nat
        }) == count_upto(g, col, n),
    decreases n,
{
    if n > 0 {
        lemma_count_mark(g, col, k, v, n - 1);
    }
}

pub proof fn lemma_count_mono(g: Seq<i32>, h: Seq<i32>, col: i32, n: int)
    requires
        g.len() == h.len(),
        0 <= n <= g.len(),
        forall|k: int| 0 <= k < g.len() && h[k] == col ==> g[k] == col,
    ensures
        count_upto(h, col, n) <= count_upto(g, col, n),
    decreases n,
{
    if n > 0 {
        lemma_count_mono(g, h, col, n - 1);
    }
}

} // verus!
