//! The movement encoding: every numbered piece walks a simple path over the
//! grid and carries its number to the cell where it stops.

use crate::formula::{
    active_edges, grid_shape, has_shape, in_degree, in_grid, out_degree, step, unit, Formula,
    Rule, Valuation, DOWN, LEFT, OPEN, RIGHT, STAY, UNSETTLED, UP,
};
use vstd::prelude::*;

verus! {

/// Why a clue grid was turned down.
#[derive(Clone, Copy, Debug, PartialEq, Eq)]
pub enum BuildError {
    /// The clue grid, the border grids or the formula disagree on the shape.
    ShapeMismatch,
    /// Some clue is below the marker of an open piece.
    InvalidClue,
}

/// The clue at `(y, x)`.
pub open spec fn clue_at(start: Seq<Vec<Option<i32>>>, y: int, x: int) -> Option<i32> {
    start[y]@[x]
}

/// Whether the clue at `(y, x)` is the number `n`.
pub open spec fn clue_is(start: Seq<Vec<Option<i32>>>, y: int, x: int, n: int) -> bool {
    match clue_at(start, y, x) {
        Some(c) => c == n,
        None => false,
    }
}

/// Whether `start` has `h` rows of `w` clues each.
pub open spec fn shape_fits(start: Seq<Vec<Option<i32>>>, h: int, w: int) -> bool {
    grid_shape(start, h, w)
}

/// Whether every clue is a number, or the marker of an open piece.
pub open spec fn clues_valid(start: Seq<Vec<Option<i32>>>) -> bool {
    forall|y: int, x: int|
        0 <= y < start.len() && 0 <= x < start[y]@.len() ==> match #[trigger] clue_at(start, y, x) {
            Some(n) => n >= OPEN,
            None => true,
        }
}

/// Whether `m` is the largest clue of `start`, or 0 where no clue exceeds 0.
pub open spec fn is_clue_max(start: Seq<Vec<Option<i32>>>, m: int) -> bool {
    &&& m >= 0
    &&& forall|y: int, x: int|
        0 <= y < start.len() && 0 <= x < start[y]@.len() ==> match #[trigger] clue_at(start, y, x) {
            Some(n) => n <= m,
            None => true,
        }
    &&& (m == 0 || exists|y: int, x: int|
        0 <= y < start.len() && 0 <= x < start[y]@.len() && #[trigger] clue_is(start, y, x, m))
}

/// The largest clue of `start`, or 0 where no clue exceeds 0.
pub open spec fn clue_max(start: Seq<Vec<Option<i32>>>) -> int {
    choose|m: int| is_clue_max(start, m)
}

/// At most one number is the largest clue.
pub proof fn lemma_clue_max_unique(start: Seq<Vec<Option<i32>>>, a: int, b: int)
    requires
        is_clue_max(start, a),
        is_clue_max(start, b),
    ensures
        a == b,
{
    if a < b {
        let (y, x) = choose|y: int, x: int|
            0 <= y < start.len() && 0 <= x < start[y]@.len() && #[trigger] clue_is(start, y, x, b);
        assert(clue_at(start, y, x) is Some);
    }
    if b < a {
        let (y, x) = choose|y: int, x: int|
            0 <= y < start.len() && 0 <= x < start[y]@.len() && #[trigger] clue_is(start, y, x, a);
        assert(clue_at(start, y, x) is Some);
    }
}

/// What the movement encoding asks of the variables at `(y, x)`, where `m`
/// bounds the labels.
pub open spec fn cell_moves(
    start: Seq<Vec<Option<i32>>>,
    h: int,
    w: int,
    m: int,
    v: Valuation,
    y: int,
    x: int,
) -> bool {
    let d = (v.direction)(y, x);
    let n = (v.label)(y, x);
    let e = (v.end_state)(y, x);
    &&& 0 <= d <= 4
    &&& UNSETTLED <= n <= m
    &&& (x + 1 < w ==> ((v.horizontal)(y, x) <==> (d == RIGHT || (v.direction)(y, x + 1) == LEFT)))
    &&& (y + 1 < h ==> ((v.vertical)(y, x) <==> (d == DOWN || (v.direction)(y + 1, x) == UP)))
    &&& unit((v.has_incoming)(y, x)) == in_degree(v, h, w, y, x)
    &&& match clue_at(start, y, x) {
        Some(c) => !(v.has_incoming)(y, x) && (if c == OPEN {
            n >= 0
        } else {
            n == c
        }),
        None => active_edges(v, h, w, y, x) == 0 ==> e == UNSETTLED,
    }
    &&& (d == UP ==> y > 0 && (v.label)(y - 1, x) == n)
    &&& (d == DOWN ==> y + 1 < h && (v.label)(y + 1, x) == n)
    &&& (d == LEFT ==> x > 0 && (v.label)(y, x - 1) == n)
    &&& (d == RIGHT ==> x + 1 < w && (v.label)(y, x + 1) == n)
    &&& (d != STAY ==> e == UNSETTLED)
    &&& (e == n <==> d == STAY)
}

/// Whether the first `x` cells of row `y` move as the encoding asks.
pub open spec fn row_moves(
    start: Seq<Vec<Option<i32>>>,
    h: int,
    w: int,
    m: int,
    v: Valuation,
    y: int,
    x: int,
) -> bool {
    forall|c: int| 0 <= c < x ==> #[trigger] cell_moves(start, h, w, m, v, y, c)
}

/// Whether every cell of the first `y` rows moves as the encoding asks.
pub open spec fn rows_move(
    start: Seq<Vec<Option<i32>>>,
    h: int,
    w: int,
    m: int,
    v: Valuation,
    y: int,
) -> bool {
    forall|r: int, c: int| 0 <= r < y && 0 <= c < w ==> #[trigger] cell_moves(start, h, w, m, v, r, c)
}

/// Whether `v` is a valid movement of the pieces of `start` over the whole grid.
pub open spec fn moves_well(start: Seq<Vec<Option<i32>>>, h: int, w: int, v: Valuation) -> bool {
    rows_move(start, h, w, clue_max(start), v, h)
}

/// Whether every clue is a number, or the marker of an open piece.
pub fn clues_in_domain(start: &Vec<Vec<Option<i32>>>) -> (r: bool)
    ensures
        r == clues_valid(start@),
{
    let mut y: usize = 0;
    while y < start.len()
        invariant
            y <= start.len(),
            forall|r: int, c: int|
                0 <= r < y && 0 <= c < start@[r]@.len() ==> match #[trigger] clue_at(start@, r, c) {
                    Some(n) => n >= OPEN,
                    None => true,
                },
        decreases start.len() - y,
    {
        let row = &start[y];
        let mut x: usize = 0;
        while x < row.len()
            invariant
                x <= row.len(),
                y < start.len(),
                *row == start@[y as int],
                forall|r: int, c: int|
                    0 <= r < y && 0 <= c < start@[r]@.len() ==> match #[trigger] clue_at(
                        start@,
                        r,
                        c,
                    ) {
                        Some(n) => n >= OPEN,
                        None => true,
                    },
                forall|c: int|
                    0 <= c < x ==> match #[trigger] clue_at(start@, y as int, c) {
                        Some(n) => n >= OPEN,
                        None => true,
                    },
            decreases row.len() - x,
        {
            match row[x] {
                Some(n) => {
                    if n < OPEN {
                        assert(clue_at(start@, y as int, x as int) == Some(n));
                        return false;
                    }
                },
                None => {},
            }
            x += 1;
        }
        y += 1;
    }
    true
}

/// The upper bound of the label variables: the largest clue, and at least 0.
pub fn label_bound(start: &Vec<Vec<Option<i32>>>) -> (m: i32)
    ensures
        m == clue_max(start@),
        is_clue_max(start@, m as int),
{
    let mut m: i32 = 0;
    let ghost mut wy: int = 0;
    let ghost mut wx: int = 0;
    let mut y: usize = 0;
    while y < start.len()
        invariant
            y <= start.len(),
            m >= 0,
            forall|r: int, c: int|
                0 <= r < y && 0 <= c < start@[r]@.len() ==> match #[trigger] clue_at(start@, r, c) {
                    Some(n) => n <= m,
                    None => true,
                },
            m == 0 || (0 <= wy < start@.len() && 0 <= wx < start@[wy]@.len() && clue_is(
                start@,
                wy,
                wx,
                m as int,
            )),
        decreases start.len() - y,
    {
        let row = &start[y];
        let mut x: usize = 0;
        while x < row.len()
            invariant
                x <= row.len(),
                y < start.len(),
                *row == start@[y as int],
                m >= 0,
                forall|r: int, c: int|
                    0 <= r < y && 0 <= c < start@[r]@.len() ==> match #[trigger] clue_at(
                        start@,
                        r,
                        c,
                    ) {
                        Some(n) => n <= m,
                        None => true,
                    },
                forall|c: int|
                    0 <= c < x ==> match #[trigger] clue_at(start@, y as int, c) {
                        Some(n) => n <= m,
                        None => true,
                    },
                m == 0 || (0 <= wy < start@.len() && 0 <= wx < start@[wy]@.len() && clue_is(
                    start@,
                    wy,
                    wx,
                    m as int,
                )),
            decreases row.len() - x,
        {
            match row[x] {
                Some(n) => {
                    if n > m {
                        m = n;
                        proof {
                            wy = y as int;
                            wx = x as int;
                        }
                    }
                },
                None => {},
            }
            x += 1;
        }
        y += 1;
    }
    proof {
        if m != 0 {
            assert(clue_is(start@, wy, wx, m as int));
        }
        assert(is_clue_max(start@, m as int));
        lemma_clue_max_unique(start@, m as int, clue_max(start@));
    }
    m
}

/// Whether `after` is `before` with the movement encoding of `start` added.
pub open spec fn adds_movement(
    before: Formula,
    start: Seq<Vec<Option<i32>>>,
    after: Formula,
) -> bool {
    &&& after.extends(before)
    &&& after.constraints@.len() <= before.constraints@.len() + 13 * (before.height
        * before.width)
    &&& (before.well_placed() ==> after.well_placed())
    &&& forall|v: Valuation| #[trigger]
        after.admits(v) <==> before.admits(v) && moves_well(
            start,
            before.height as int,
            before.width as int,
            v,
        )
}

/// Appends what the movement encoding asks of the cell `(y, x)`.
fn emit_cell(solver: &mut Formula, start: &Vec<Vec<Option<i32>>>, m: i32, y: usize, x: usize)
    requires
        y < old(solver).height,
        x < old(solver).width,
        shape_fits(start@, old(solver).height as int, old(solver).width as int),
        clues_valid(start@),
    ensures
        final(solver).extends(*old(solver)),
        final(solver).constraints@.len() <= old(solver).constraints@.len() + 13,
        old(solver).well_placed() ==> final(solver).well_placed(),
        forall|v: Valuation| #[trigger]
            final(solver).admits(v) <==> old(solver).admits(v) && cell_moves(
                start@,
                old(solver).height as int,
                old(solver).width as int,
                m as int,
                v,
                y as int,
                x as int,
            ),
{
    let h = solver.height;
    let w = solver.width;
    solver.emit(Rule::DirectionRange, y, x);
    solver.emit(Rule::LabelRange(m), y, x);
    if x + 1 < w {
        solver.emit(Rule::HorizontalLink, y, x);
    }
    if y + 1 < h {
        solver.emit(Rule::VerticalLink, y, x);
    }
    solver.emit(Rule::InDegree, y, x);
    assert(clue_at(start@, y as int, x as int) == start@[y as int]@[x as int]);
    match start[y][x] {
        Some(n) => {
            if n == OPEN {
                solver.emit(Rule::LabelNonNegative, y, x);
            } else {
                solver.emit(Rule::LabelIs(n), y, x);
            }
            solver.emit(Rule::NoIncoming, y, x);
        },
        None => {
            solver.emit(Rule::IsolatedUnsettled, y, x);
        },
    }
    if y == 0 {
        solver.emit(Rule::DirectionNot(UP), y, x);
    } else {
        solver.emit(Rule::Conserve(UP), y, x);
    }
    if y + 1 < h {
        solver.emit(Rule::Conserve(DOWN), y, x);
    } else {
        solver.emit(Rule::DirectionNot(DOWN), y, x);
    }
    if x == 0 {
        solver.emit(Rule::DirectionNot(LEFT), y, x);
    } else {
        solver.emit(Rule::Conserve(LEFT), y, x);
    }
    if x + 1 < w {
        solver.emit(Rule::Conserve(RIGHT), y, x);
    } else {
        solver.emit(Rule::DirectionNot(RIGHT), y, x);
    }
    solver.emit(Rule::MovingUnsettled, y, x);
    solver.emit(Rule::RestSettled, y, x);
}

/// Adds the movement encoding of the clue grid `start_state` to `solver`.
///
/// Each cell gets one direction, 0 for staying or 1 to 4 for up, down, left
/// and right, and one label between -2 and the largest clue. An edge is active
/// iff one of its two cells moves across it; at most one neighbour moves into a
/// cell and none into a clue cell; a step keeps the label and never leaves the
/// grid; a cell that moves on settles nothing, a cell that stays settles its
/// label, and an empty cell without an active edge settles nothing.
///
/// At most thirteen constraints are added for each cell.
///
/// The grid must have the shape that `solver` was made for and that `h` and
/// `w` give, and no clue may lie below -1. Otherwise nothing is added.
pub fn add_movement_constraints(
    solver: &mut Formula,
    start_state: &Vec<Vec<Option<i32>>>,
    h: usize,
    w: usize,
) -> (r: Result<(), BuildError>)
    ensures
        r is Ok <==> h == old(solver).height && w == old(solver).width && shape_fits(
            start_state@,
            h as int,
            w as int,
        ) && clues_valid(start_state@),
        r == Err::<(), BuildError>(BuildError::ShapeMismatch) <==> !(h == old(solver).height && w
            == old(solver).width && shape_fits(start_state@, h as int, w as int)),
        r is Ok ==> adds_movement(*old(solver), start_state@, *final(solver)),
        r is Err ==> *final(solver) == *old(solver),
{
    if h != solver.height || w != solver.width || !has_shape(start_state, h, w) {
        return Err(BuildError::ShapeMismatch);
    }
    if !clues_in_domain(start_state) {
        return Err(BuildError::InvalidClue);
    }
    let m = label_bound(start_state);
    let ghost before = *solver;
    let mut y: usize = 0;
    while y < h
        invariant
            y <= h,
            h == before.height,
            w == before.width,
            shape_fits(start_state@, h as int, w as int),
            clues_valid(start_state@),
            solver.extends(before),
            solver.constraints@.len() <= before.constraints@.len() + 13 * (y * w),
            before.well_placed() ==> solver.well_placed(),
            forall|v: Valuation| #[trigger]
                solver.admits(v) <==> before.admits(v) && rows_move(
                    start_state@,
                    h as int,
                    w as int,
                    m as int,
                    v,
                    y as int,
                ),
        decreases h - y,
    {
        let mut x: usize = 0;
        while x < w
            invariant
                y < h,
                x <= w,
                h == before.height,
                w == before.width,
                shape_fits(start_state@, h as int, w as int),
                clues_valid(start_state@),
                solver.extends(before),
                solver.constraints@.len() <= before.constraints@.len() + 13 * (y * w + x),
                before.well_placed() ==> solver.well_placed(),
                forall|v: Valuation| #[trigger]
                    solver.admits(v) <==> before.admits(v) && rows_move(
                        start_state@,
                        h as int,
                        w as int,
                        m as int,
                        v,
                        y as int,
                    ) && row_moves(start_state@, h as int, w as int, m as int, v, y as int, x as int),
            decreases w - x,
        {
            let ghost prev = *solver;
            emit_cell(solver, start_state, m, y, x);
            proof {
                assert forall|v: Valuation| #[trigger]
                    solver.admits(v) <==> before.admits(v) && rows_move(
                        start_state@,
                        h as int,
                        w as int,
                        m as int,
                        v,
                        y as int,
                    ) && row_moves(
                        start_state@,
                        h as int,
                        w as int,
                        m as int,
                        v,
                        y as int,
                        x as int + 1,
                    ) by {
                    assert(solver.admits(v) <==> prev.admits(v) && cell_moves(
                        start_state@,
                        h as int,
                        w as int,
                        m as int,
                        v,
                        y as int,
                        x as int,
                    ));
                }
            }
            x += 1;
        }
        proof {
            assert((y + 1) * w == y * w + w) by (nonlinear_arith);
            assert forall|v: Valuation| #[trigger]
                solver.admits(v) <==> before.admits(v) && rows_move(
                    start_state@,
                    h as int,
                    w as int,
                    m as int,
                    v,
                    y as int + 1,
                ) by {
                let upto = rows_move(start_state@, h as int, w as int, m as int, v, y as int);
                let row = row_moves(
                    start_state@,
                    h as int,
                    w as int,
                    m as int,
                    v,
                    y as int,
                    w as int,
                );
                let next = rows_move(start_state@, h as int, w as int, m as int, v, y as int + 1);
                assert(solver.admits(v) <==> before.admits(v) && upto && row);
                assert(upto && row <==> next);
            }
        }
        y += 1;
    }
    Ok(())
}

/// Paths neither branch nor merge: in a valid movement every cell has a single
/// direction, whose step stays on the grid, so at most one edge leaves it, and
/// at most one neighbour moves into it.
pub proof fn lemma_paths_are_simple(
    start: Seq<Vec<Option<i32>>>,
    h: int,
    w: int,
    v: Valuation,
    y: int,
    x: int,
)
    requires
        moves_well(start, h, w, v),
        in_grid(h, w, y, x),
    ensures
        0 <= (v.direction)(y, x) <= 4,
        in_grid(h, w, step(y, x, (v.direction)(y, x)).0, step(y, x, (v.direction)(y, x)).1),
        out_degree(v, h, w, y, x) <= 1,
        in_degree(v, h, w, y, x) <= 1,
        in_degree(v, h, w, y, x) == unit((v.has_incoming)(y, x)),
{
    assert(cell_moves(start, h, w, clue_max(start), v, y, x));
}

/// Edges and directions agree: in a valid movement an edge is active iff one
/// of its two cells moves across it.
pub proof fn lemma_edges_follow_directions(
    start: Seq<Vec<Option<i32>>>,
    h: int,
    w: int,
    v: Valuation,
    y: int,
    x: int,
)
    requires
        moves_well(start, h, w, v),
        in_grid(h, w, y, x),
    ensures
        x + 1 < w ==> ((v.horizontal)(y, x) <==> ((v.direction)(y, x) == RIGHT || (v.direction)(
            y,
            x + 1,
        ) == LEFT)),
        y + 1 < h ==> ((v.vertical)(y, x) <==> ((v.direction)(y, x) == DOWN || (v.direction)(
            y + 1,
            x,
        ) == UP)),
{
    assert(cell_moves(start, h, w, clue_max(start), v, y, x));
}

/// Labels are conserved: in a valid movement the two cells of an active edge
/// carry the same label.
pub proof fn lemma_labels_conserved(
    start: Seq<Vec<Option<i32>>>,
    h: int,
    w: int,
    v: Valuation,
    y: int,
    x: int,
)
    requires
        moves_well(start, h, w, v),
        in_grid(h, w, y, x),
    ensures
        x + 1 < w && (v.horizontal)(y, x) ==> (v.label)(y, x) == (v.label)(y, x + 1),
        y + 1 < h && (v.vertical)(y, x) ==> (v.label)(y, x) == (v.label)(y + 1, x),
{
    let m = clue_max(start);
    assert(cell_moves(start, h, w, m, v, y, x));
    if x + 1 < w {
        assert(cell_moves(start, h, w, m, v, y, x + 1));
    }
    if y + 1 < h {
        assert(cell_moves(start, h, w, m, v, y + 1, x));
    }
}

/// End states follow from directions and labels: in a valid movement a cell
/// that moves on settles nothing, and a cell that stays settles the label it
/// carries. So a cell that carries a label settles nothing iff it moves on.
pub proof fn lemma_end_state_settled(
    start: Seq<Vec<Option<i32>>>,
    h: int,
    w: int,
    v: Valuation,
    y: int,
    x: int,
)
    requires
        moves_well(start, h, w, v),
        in_grid(h, w, y, x),
    ensures
        (v.direction)(y, x) != STAY ==> (v.end_state)(y, x) == UNSETTLED,
        (v.direction)(y, x) == STAY ==> (v.end_state)(y, x) == (v.label)(y, x),
        (v.label)(y, x) != UNSETTLED ==> ((v.end_state)(y, x) == UNSETTLED <==> (v.direction)(y, x)
            != STAY),
{
    assert(cell_moves(start, h, w, clue_max(start), v, y, x));
}

/// A clue cell starts a path: no neighbour moves into it, and it carries its
/// own number, or some number from 0 where the clue is open.
pub proof fn lemma_clues_are_sources(
    start: Seq<Vec<Option<i32>>>,
    h: int,
    w: int,
    v: Valuation,
    y: int,
    x: int,
    n: i32,
)
    requires
        moves_well(start, h, w, v),
        in_grid(h, w, y, x),
        clue_at(start, y, x) == Some(n),
    ensures
        in_degree(v, h, w, y, x) == 0,
        n != OPEN ==> (v.label)(y, x) == n,
        n == OPEN ==> (v.label)(y, x) >= 0,
{
    assert(cell_moves(start, h, w, clue_max(start), v, y, x));
}

/// The cell reached from `(y, x)` after `k` steps along the directions of `v`.
/// A cell that stays is its own successor.
pub open spec fn walk(v: Valuation, y: int, x: int, k: nat) -> (int, int)
    decreases k,
{
    if k == 0 {
        (y, x)
    } else {
        let p = walk(v, y, x, (k - 1) as nat);
        step(p.0, p.1, (v.direction)(p.0, p.1))
    }
}

/// A label is carried along its whole path: in a valid movement every cell
/// reached from `(y, x)` along the directions lies on the grid and carries the
/// label of `(y, x)`; where such a cell moves on it settles nothing, and where
/// it stays it settles that label.
pub proof fn lemma_label_carried(
    start: Seq<Vec<Option<i32>>>,
    h: int,
    w: int,
    v: Valuation,
    y: int,
    x: int,
    k: nat,
)
    requires
        moves_well(start, h, w, v),
        in_grid(h, w, y, x),
    ensures
        in_grid(h, w, walk(v, y, x, k).0, walk(v, y, x, k).1),
        (v.label)(walk(v, y, x, k).0, walk(v, y, x, k).1) == (v.label)(y, x),
        (v.direction)(walk(v, y, x, k).0, walk(v, y, x, k).1) != STAY ==> (v.end_state)(
            walk(v, y, x, k).0,
            walk(v, y, x, k).1,
        ) == UNSETTLED,
        (v.direction)(walk(v, y, x, k).0, walk(v, y, x, k).1) == STAY ==> (v.end_state)(
            walk(v, y, x, k).0,
            walk(v, y, x, k).1,
        ) == (v.label)(y, x),
    decreases k,
{
    let m = clue_max(start);
    if k > 0 {
        lemma_label_carried(start, h, w, v, y, x, (k - 1) as nat);
        let p = walk(v, y, x, (k - 1) as nat);
        assert(cell_moves(start, h, w, m, v, p.0, p.1));
    }
    let q = walk(v, y, x, k);
    assert(cell_moves(start, h, w, m, v, q.0, q.1));
}

/// A clue's number reaches the end of its path: in a valid movement every
/// cell reached from the clue `n` at `(y, x)` carries `n`, settles nothing
/// while the path moves on, and settles `n` where the path rests.
pub proof fn lemma_clue_number_settles(
    start: Seq<Vec<Option<i32>>>,
    h: int,
    w: int,
    v: Valuation,
    y: int,
    x: int,
    n: i32,
    k: nat,
)
    requires
        moves_well(start, h, w, v),
        in_grid(h, w, y, x),
        clue_at(start, y, x) == Some(n),
        n >= 0,
    ensures
        in_grid(h, w, walk(v, y, x, k).0, walk(v, y, x, k).1),
        (v.label)(walk(v, y, x, k).0, walk(v, y, x, k).1) == n,
        (v.direction)(walk(v, y, x, k).0, walk(v, y, x, k).1) != STAY ==> (v.end_state)(
            walk(v, y, x, k).0,
            walk(v, y, x, k).1,
        ) == UNSETTLED,
        (v.direction)(walk(v, y, x, k).0, walk(v, y, x, k).1) == STAY ==> (v.end_state)(
            walk(v, y, x, k).0,
            walk(v, y, x, k).1,
        ) == n,
{
    lemma_clues_are_sources(start, h, w, v, y, x, n);
    lemma_label_carried(start, h, w, v, y, x, k);
}

/// Building is deterministic up to the satisfying set: two formulas that both
/// add the movement encoding of one clue grid to one formula admit the same
/// valuations.
pub proof fn lemma_movement_deterministic(
    before: Formula,
    start: Seq<Vec<Option<i32>>>,
    first: Formula,
    second: Formula,
)
    requires
        adds_movement(before, start, first),
        adds_movement(before, start, second),
    ensures
        forall|v: Valuation| first.admits(v) <==> second.admits(v),
{
    assert forall|v: Valuation| first.admits(v) <==> second.admits(v) by {
        assert(first.admits(v) <==> before.admits(v) && moves_well(
            start,
            before.height as int,
            before.width as int,
            v,
        ));
        assert(second.admits(v) <==> before.admits(v) && moves_well(
            start,
            before.height as int,
            before.width as int,
            v,
        ));
    }
}

} // verus!
