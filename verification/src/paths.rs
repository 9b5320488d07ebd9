//! Every path that starts at a clue comes to rest, and settles the clue's
//! number there.

use crate::formula::{in_degree, in_grid, Valuation, STAY, UNSETTLED};
use crate::movement::{
    cell_moves, clue_at, clue_max, lemma_clue_number_settles, lemma_clues_are_sources,
    lemma_label_carried, moves_well, walk,
};
use vstd::prelude::*;
use vstd::set_lib::{lemma_int_range, lemma_len_subset, set_int_range};

verus! {

/// Whether the first `k` cells of the path from `(y, x)` all move on.
pub open spec fn moving_until(v: Valuation, y: int, x: int, k: nat) -> bool {
    forall|i: nat|
        i < k ==> (v.direction)((#[trigger] walk(v, y, x, i)).0, walk(v, y, x, i).1) != STAY
}

/// Whether the path from `(y, x)` rests after `k` steps and settles `n` there.
pub open spec fn rests_with(v: Valuation, y: int, x: int, k: nat, n: int) -> bool {
    &&& (v.direction)(walk(v, y, x, k).0, walk(v, y, x, k).1) == STAY
    &&& (v.end_state)(walk(v, y, x, k).0, walk(v, y, x, k).1) == n
}

/// The number of the cell `p` in row-major order on a grid `w` wide.
pub open spec fn cell_index(w: int, p: (int, int)) -> int {
    p.0 * w + p.1
}

/// Whether `c` is the number of one of the first `k + 1` cells of the path
/// from `(y, x)`.
pub open spec fn on_walk(v: Valuation, y: int, x: int, w: int, k: nat, c: int) -> bool {
    exists|i: nat| i <= k && c == cell_index(w, #[trigger] walk(v, y, x, i))
}

/// The numbers of the first `k + 1` cells of the path from `(y, x)`.
pub open spec fn visited(v: Valuation, y: int, x: int, w: int, k: nat) -> Set<int>
    decreases k,
{
    if k == 0 {
        Set::<int>::empty().insert(cell_index(w, walk(v, y, x, 0)))
    } else {
        visited(v, y, x, w, (k - 1) as nat).insert(cell_index(w, walk(v, y, x, k)))
    }
}

/// Cells of the grid are numbered below `h * w`.
pub proof fn lemma_index_bounds(h: int, w: int, y: int, x: int)
    requires
        in_grid(h, w, y, x),
    ensures
        0 <= cell_index(w, (y, x)) < h * w,
{
    assert(0 <= y * w && y * w + w <= h * w) by (nonlinear_arith)
        requires
            0 <= y,
            y + 1 <= h,
            0 < w,
    ;
}

/// Two cells of the grid with one number are one cell.
pub proof fn lemma_index_injective(w: int, p: (int, int), q: (int, int))
    requires
        0 <= p.1 < w,
        0 <= q.1 < w,
        cell_index(w, p) == cell_index(w, q),
    ensures
        p == q,
{
    if p.0 < q.0 {
        assert(q.0 * w - p.0 * w >= w) by (nonlinear_arith)
            requires
                q.0 - p.0 >= 1,
                w > 0,
        ;
    }
    if q.0 < p.0 {
        assert(p.0 * w - q.0 * w >= w) by (nonlinear_arith)
            requires
                p.0 - q.0 >= 1,
                w > 0,
        ;
    }
}

/// A path that starts where nothing moves in never comes back to a cell it
/// has left: in a valid movement, while the path moves on, its cells differ.
pub proof fn lemma_walk_never_returns(
    start: Seq<Vec<Option<i32>>>,
    h: int,
    w: int,
    v: Valuation,
    y: int,
    x: int,
    i: nat,
    j: nat,
)
    requires
        moves_well(start, h, w, v),
        in_grid(h, w, y, x),
        in_degree(v, h, w, y, x) == 0,
        i < j,
        moving_until(v, y, x, j),
    ensures
        walk(v, y, x, i) != walk(v, y, x, j),
    decreases i,
{
    let m = clue_max(start);
    let pj = walk(v, y, x, (j - 1) as nat);
    lemma_label_carried(start, h, w, v, y, x, (j - 1) as nat);
    assert(cell_moves(start, h, w, m, v, pj.0, pj.1));
    assert((v.direction)(pj.0, pj.1) != STAY);
    let c = walk(v, y, x, j);
    lemma_label_carried(start, h, w, v, y, x, j);
    assert(cell_moves(start, h, w, m, v, c.0, c.1));
    if i == 0 {
        if c == (y, x) {
            assert(in_degree(v, h, w, y, x) >= 1);
        }
    } else {
        let pi = walk(v, y, x, (i - 1) as nat);
        lemma_label_carried(start, h, w, v, y, x, (i - 1) as nat);
        assert(cell_moves(start, h, w, m, v, pi.0, pi.1));
        assert((v.direction)(pi.0, pi.1) != STAY);
        assert(moving_until(v, y, x, (j - 1) as nat));
        lemma_walk_never_returns(start, h, w, v, y, x, (i - 1) as nat, (j - 1) as nat);
        if walk(v, y, x, i) == c {
            assert(in_degree(v, h, w, c.0, c.1) >= 2);
        }
    }
}

/// While a path from such a start moves on, each step visits a new cell of
/// the grid.
pub proof fn lemma_visited_grows(
    start: Seq<Vec<Option<i32>>>,
    h: int,
    w: int,
    v: Valuation,
    y: int,
    x: int,
    k: nat,
)
    requires
        moves_well(start, h, w, v),
        in_grid(h, w, y, x),
        in_degree(v, h, w, y, x) == 0,
        moving_until(v, y, x, k),
    ensures
        visited(v, y, x, w, k).finite(),
        visited(v, y, x, w, k).len() == k + 1,
        forall|c: int| #[trigger]
            visited(v, y, x, w, k).contains(c) ==> 0 <= c < h * w && on_walk(v, y, x, w, k, c),
    decreases k,
{
    let p = walk(v, y, x, k);
    let e = cell_index(w, p);
    lemma_label_carried(start, h, w, v, y, x, k);
    lemma_index_bounds(h, w, p.0, p.1);
    if k > 0 {
        let prev = visited(v, y, x, w, (k - 1) as nat);
        assert(moving_until(v, y, x, (k - 1) as nat));
        lemma_visited_grows(start, h, w, v, y, x, (k - 1) as nat);
        if prev.contains(e) {
            assert(on_walk(v, y, x, w, (k - 1) as nat, e));
            let i = choose|i: nat| i <= k - 1 && e == cell_index(w, #[trigger] walk(v, y, x, i));
            lemma_label_carried(start, h, w, v, y, x, i);
            lemma_index_injective(w, walk(v, y, x, i), p);
            lemma_walk_never_returns(start, h, w, v, y, x, i, k);
        }
        assert forall|c: int| #[trigger] visited(v, y, x, w, k).contains(c) implies 0 <= c < h * w
            && on_walk(v, y, x, w, k, c) by {
            if c == e {
                assert(c == cell_index(w, walk(v, y, x, k)));
            } else {
                assert(prev.contains(c));
                assert(on_walk(v, y, x, w, (k - 1) as nat, c));
                let i = choose|i: nat|
                    i <= k - 1 && c == cell_index(w, #[trigger] walk(v, y, x, i));
                assert(i <= k && c == cell_index(w, walk(v, y, x, i)));
            }
        }
    } else {
        assert forall|c: int| #[trigger] visited(v, y, x, w, k).contains(c) implies 0 <= c < h * w
            && on_walk(v, y, x, w, k, c) by {
            assert(c == cell_index(w, walk(v, y, x, 0)));
        }
    }
}

/// Every path from a clue comes to rest: in a valid movement, following the
/// directions from a clue cell reaches, within as many steps as the grid has
/// cells, a cell that stays.
pub proof fn lemma_path_ends(
    start: Seq<Vec<Option<i32>>>,
    h: int,
    w: int,
    v: Valuation,
    y: int,
    x: int,
    n: i32,
)
    requires
        moves_well(start, h, w, v),
        in_grid(h, w, y, x),
        clue_at(start, y, x) == Some(n),
    ensures
        exists|k: nat|
            k < h * w && (v.direction)((#[trigger] walk(v, y, x, k)).0, walk(v, y, x, k).1)
                == STAY,
{
    lemma_clues_are_sources(start, h, w, v, y, x, n);
    lemma_index_bounds(h, w, y, x);
    let total = (h * w) as nat;
    if !exists|k: nat|
        k < h * w && (v.direction)((#[trigger] walk(v, y, x, k)).0, walk(v, y, x, k).1) == STAY {
        assert(moving_until(v, y, x, total));
        lemma_visited_grows(start, h, w, v, y, x, total);
        lemma_int_range(0, h * w);
        assert(visited(v, y, x, w, total).subset_of(set_int_range(0, h * w)));
        lemma_len_subset(visited(v, y, x, w, total), set_int_range(0, h * w));
    }
}

/// A clue's number arrives: in a valid movement the path from a clue `n`
/// rests, within as many steps as the grid has cells, at a cell that settles
/// `n`. Every cell of the path that moves on settles nothing.
pub proof fn lemma_clue_arrives(
    start: Seq<Vec<Option<i32>>>,
    h: int,
    w: int,
    v: Valuation,
    y: int,
    x: int,
    n: i32,
)
    requires
        moves_well(start, h, w, v),
        in_grid(h, w, y, x),
        clue_at(start, y, x) == Some(n),
        n >= 0,
    ensures
        exists|k: nat| k < h * w && #[trigger] rests_with(v, y, x, k, n as int),
        forall|i: nat|
            (v.direction)((#[trigger] walk(v, y, x, i)).0, walk(v, y, x, i).1) != STAY ==> (
            v.end_state)(walk(v, y, x, i).0, walk(v, y, x, i).1) == UNSETTLED,
{
    lemma_path_ends(start, h, w, v, y, x, n);
    let k = choose|k: nat|
        k < h * w && (v.direction)((#[trigger] walk(v, y, x, k)).0, walk(v, y, x, k).1) == STAY;
    lemma_clue_number_settles(start, h, w, v, y, x, n, k);
    assert(rests_with(v, y, x, k, n as int));
    assert forall|i: nat|
        (v.direction)((#[trigger] walk(v, y, x, i)).0, walk(v, y, x, i).1) != STAY implies (
    v.end_state)(walk(v, y, x, i).0, walk(v, y, x, i).1) == UNSETTLED by {
        lemma_clue_number_settles(start, h, w, v, y, x, n, i);
    }
}

} // verus!
