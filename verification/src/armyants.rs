//! Army Ants: numbered ants march along walled corridors, and where one
//! settles its number must fit the settled numbers beside it.

use crate::formula::{
    grid_shape, has_shape, in_grid, neighbor_total, settled_neighbors, Formula, Rule, Valuation,
    UNSETTLED,
};
use crate::movement::{
    add_movement_constraints, clue_max, clues_in_domain, clues_valid, label_bound, moves_well,
    shape_fits, BuildError,
};
use vstd::prelude::*;

verus! {

/// Walls on the inner edges of a grid.
#[derive(Clone, Debug, PartialEq, Eq)]
pub struct InnerGridEdges {
    /// `horizontal[y][x]`: a wall between `(y, x)` and `(y + 1, x)`.
    pub horizontal: Vec<Vec<bool>>,
    /// `vertical[y][x]`: a wall between `(y, x)` and `(y, x + 1)`.
    pub vertical: Vec<Vec<bool>>,
}

impl InnerGridEdges {
    /// Whether a wall stands between `(y, x)` and `(y, x + 1)`.
    pub open spec fn wall_right(&self, y: int, x: int) -> bool {
        self.vertical@[y]@[x]
    }

    /// Whether a wall stands between `(y, x)` and `(y + 1, x)`.
    pub open spec fn wall_below(&self, y: int, x: int) -> bool {
        self.horizontal@[y]@[x]
    }

    /// Whether these are the inner edges of an `h` by `w` grid with at least one cell.
    pub open spec fn fits(&self, h: int, w: int) -> bool {
        &&& h >= 1
        &&& w >= 1
        &&& grid_shape(self.vertical@, h, w - 1)
        &&& grid_shape(self.horizontal@, h - 1, w)
    }

    /// Whether these are the inner edges of an `h` by `w` grid with at least one cell.
    pub fn has_base_shape(&self, h: usize, w: usize) -> (r: bool)
        ensures
            r == self.fits(h as int, w as int),
    {
        h >= 1 && w >= 1 && has_shape(&self.vertical, h, w - 1) && has_shape(
            &self.horizontal,
            h - 1,
            w,
        )
    }
}

/// What the walls and the rules of settling ask of the cell `(y, x)`, where
/// `m` bounds the end states.
pub open spec fn cell_settles(
    borders: InnerGridEdges,
    h: int,
    w: int,
    m: int,
    v: Valuation,
    y: int,
    x: int,
) -> bool {
    let e = (v.end_state)(y, x);
    let settled = settled_neighbors(v, h, w, y, x);
    let total = neighbor_total(v, h, w, y, x);
    &&& UNSETTLED <= e <= m
    &&& (x + 1 < w && borders.wall_right(y, x) ==> !(v.horizontal)(y, x))
    &&& (y + 1 < h && borders.wall_below(y, x) ==> !(v.vertical)(y, x))
    &&& (e == 1 ==> ((settled == 0) != (settled == 1 && total == 2)))
    &&& (e >= 2 ==> ((settled == 1 && total == e - 1) != (settled == 2 && total == 2 * e)))
}

/// Whether the first `x` cells of row `y` settle as the rules ask.
pub open spec fn row_settles(
    borders: InnerGridEdges,
    h: int,
    w: int,
    m: int,
    v: Valuation,
    y: int,
    x: int,
) -> bool {
    forall|c: int| 0 <= c < x ==> #[trigger] cell_settles(borders, h, w, m, v, y, c)
}

/// Whether every cell of the first `y` rows settles as the rules ask.
pub open spec fn rows_settle(
    borders: InnerGridEdges,
    h: int,
    w: int,
    m: int,
    v: Valuation,
    y: int,
) -> bool {
    forall|r: int, c: int|
        0 <= r < y && 0 <= c < w ==> #[trigger] cell_settles(borders, h, w, m, v, r, c)
}

/// Whether `v` solves the puzzle with walls `borders` and clue grid `clues` on
/// an `h` by `w` grid.
pub open spec fn army_solution(
    borders: InnerGridEdges,
    clues: Seq<Vec<Option<i32>>>,
    h: int,
    w: int,
    v: Valuation,
) -> bool {
    &&& moves_well(clues, h, w, v)
    &&& rows_settle(borders, h, w, clue_max(clues), v, h)
}

/// Whether `borders` and `clues` describe one grid with at least one cell.
pub open spec fn problem_fits(borders: InnerGridEdges, clues: Seq<Vec<Option<i32>>>) -> bool {
    &&& clues.len() >= 1
    &&& shape_fits(clues, clues.len() as int, clues[0]@.len() as int)
    &&& borders.fits(clues.len() as int, clues[0]@.len() as int)
}

/// Appends what the walls and the rules of settling ask of the cell `(y, x)`.
fn emit_settling(solver: &mut Formula, borders: &InnerGridEdges, m: i32, y: usize, x: usize)
    requires
        y < old(solver).height,
        x < old(solver).width,
        borders.fits(old(solver).height as int, old(solver).width as int),
    ensures
        final(solver).extends(*old(solver)),
        final(solver).constraints@.len() <= old(solver).constraints@.len() + 5,
        old(solver).well_placed() ==> final(solver).well_placed(),
        forall|v: Valuation| #[trigger]
            final(solver).admits(v) <==> old(solver).admits(v) && cell_settles(
                *borders,
                old(solver).height as int,
                old(solver).width as int,
                m as int,
                v,
                y as int,
                x as int,
            ),
{
    let h = solver.height;
    let w = solver.width;
    solver.emit(Rule::EndRange(m), y, x);
    if x + 1 < w {
        if borders.vertical[y][x] {
            solver.emit(Rule::HorizontalOff, y, x);
        }
    }
    if y + 1 < h {
        if borders.horizontal[y][x] {
            solver.emit(Rule::VerticalOff, y, x);
        }
    }
    solver.emit(Rule::UnitRule, y, x);
    solver.emit(Rule::GrowthRule, y, x);
}

/// Whether `after` is `before` with the walls `borders` and the rules of
/// settling added, where `m` bounds the end states.
pub open spec fn adds_settling(
    before: Formula,
    borders: InnerGridEdges,
    m: int,
    after: Formula,
) -> bool {
    &&& after.extends(before)
    &&& after.constraints@.len() <= before.constraints@.len() + 5 * (before.height
        * before.width)
    &&& (before.well_placed() ==> after.well_placed())
    &&& forall|v: Valuation| #[trigger]
        after.admits(v) <==> before.admits(v) && rows_settle(
            borders,
            before.height as int,
            before.width as int,
            m,
            v,
            before.height as int,
        )
}

/// Adds the walls and the rules of settling to `solver`, cell by cell.
///
/// An end state lies between -2 and `m`. No movement crosses a wall. A
/// neighbour is settled where its end state is at least 0. A settled 1 has no
/// settled neighbour, or exactly one, and then the neighbours' settled labels
/// total 2. A settled `e` from 2 has exactly one settled neighbour and the
/// neighbours' settled labels total `e - 1`, or exactly two and they total
/// `2 * e`. At most five constraints are added for each cell.
///
/// `borders` must be the inner edges of the grid of `solver`. Otherwise
/// nothing is added.
pub fn add_settling_constraints(solver: &mut Formula, borders: &InnerGridEdges, m: i32) -> (r:
    Result<(), BuildError>)
    ensures
        r is Ok <==> borders.fits(old(solver).height as int, old(solver).width as int),
        r is Err ==> r == Err::<(), BuildError>(BuildError::ShapeMismatch) && *final(solver)
            == *old(solver),
        r is Ok ==> adds_settling(*old(solver), *borders, m as int, *final(solver)),
{
    if !borders.has_base_shape(solver.height, solver.width) {
        return Err(BuildError::ShapeMismatch);
    }
    let h = solver.height;
    let w = solver.width;
    let ghost before = *solver;
    let mut y: usize = 0;
    while y < h
        invariant
            y <= h,
            h == before.height,
            w == before.width,
            borders.fits(h as int, w as int),
            solver.extends(before),
            solver.constraints@.len() <= before.constraints@.len() + 5 * (y * w),
            before.well_placed() ==> solver.well_placed(),
            forall|v: Valuation| #[trigger]
                solver.admits(v) <==> before.admits(v) && rows_settle(
                    *borders,
                    h as int,
                    w as int,
                    m as int,
                    v,
                    y as int,
                ),
        decreases h - y,
    {
        let mut x: usize = 0;
        while x < w
            invariant
                y < h,
                x <= w,
                h == before.height,
                w == before.width,
                borders.fits(h as int, w as int),
                solver.extends(before),
                solver.constraints@.len() <= before.constraints@.len() + 5 * (y * w + x),
                before.well_placed() ==> solver.well_placed(),
                forall|v: Valuation| #[trigger]
                    solver.admits(v) <==> before.admits(v) && rows_settle(
                        *borders,
                        h as int,
                        w as int,
                        m as int,
                        v,
                        y as int,
                    ) && row_settles(*borders, h as int, w as int, m as int, v, y as int, x as int),
            decreases w - x,
        {
            let ghost prev = *solver;
            emit_settling(solver, borders, m, y, x);
            proof {
                assert forall|v: Valuation| #[trigger]
                    solver.admits(v) <==> before.admits(v) && rows_settle(
                        *borders,
                        h as int,
                        w as int,
                        m as int,
                        v,
                        y as int,
                    ) && row_settles(
                        *borders,
                        h as int,
                        w as int,
                        m as int,
                        v,
                        y as int,
                        x as int + 1,
                    ) by {
                    assert(solver.admits(v) <==> prev.admits(v) && cell_settles(
                        *borders,
                        h as int,
                        w as int,
                        m as int,
                        v,
                        y as int,
                        x as int,
                    ));
                }
            }
            x += 1;
        }
        proof {
            assert((y + 1) * w == y * w + w) by (nonlinear_arith);
            assert forall|v: Valuation| #[trigger]
                solver.admits(v) <==> before.admits(v) && rows_settle(
                    *borders,
                    h as int,
                    w as int,
                    m as int,
                    v,
                    y as int + 1,
                ) by {
                let upto = rows_settle(*borders, h as int, w as int, m as int, v, y as int);
                let row = row_settles(*borders, h as int, w as int, m as int, v, y as int, w as int);
                let next = rows_settle(*borders, h as int, w as int, m as int, v, y as int + 1);
                assert(solver.admits(v) <==> before.admits(v) && upto && row);
                assert(upto && row <==> next);
            }
        }
        y += 1;
    }
    Ok(())
}

/// The formula of the puzzle with walls `borders` and clue grid `clues`: its
/// satisfying valuations are exactly the solutions of the puzzle.
///
/// The grid has the shape of `clues`, and at least one cell; `borders` must
/// have the inner edges of that shape, and no clue may lie below -1.
pub fn armyants_formula(borders: &InnerGridEdges, clues: &Vec<Vec<Option<i32>>>) -> (r: Result<
    Formula,
    BuildError,
>)
    ensures
        r is Ok <==> problem_fits(*borders, clues@) && clues_valid(clues@),
        r == Err::<Formula, BuildError>(BuildError::ShapeMismatch) <==> !problem_fits(
            *borders,
            clues@,
        ),
        r matches Ok(f) ==> {
            &&& f.height == clues@.len()
            &&& f.width == clues@[0]@.len()
            &&& f.well_placed()
            &&& forall|v: Valuation| #[trigger]
                f.admits(v) <==> army_solution(*borders, clues@, f.height as int, f.width as int, v)
        },
{
    let h = clues.len();
    if h == 0 {
        return Err(BuildError::ShapeMismatch);
    }
    let w = clues[0].len();
    if !has_shape(clues, h, w) || !borders.has_base_shape(h, w) {
        return Err(BuildError::ShapeMismatch);
    }
    if !clues_in_domain(clues) {
        return Err(BuildError::InvalidClue);
    }
    let mut solver = Formula::new(h, w);
    let ghost empty = solver;
    if let Err(e) = add_movement_constraints(&mut solver, clues, h, w) {
        return Err(e);
    }
    let ghost moved = solver;
    let m = label_bound(clues);
    if let Err(e) = add_settling_constraints(&mut solver, borders, m) {
        return Err(e);
    }
    proof {
        assert forall|v: Valuation| #[trigger]
            solver.admits(v) <==> army_solution(*borders, clues@, h as int, w as int, v) by {
            assert(empty.admits(v));
            assert(moved.admits(v) <==> empty.admits(v) && moves_well(
                clues@,
                h as int,
                w as int,
                v,
            ));
            assert(solver.admits(v) <==> moved.admits(v) && rows_settle(
                *borders,
                h as int,
                w as int,
                m as int,
                v,
                h as int,
            ));
        }
    }
    Ok(solver)
}

/// Walls stop movement: no solution has an active movement edge across a wall.
pub proof fn lemma_walls_block(
    borders: InnerGridEdges,
    clues: Seq<Vec<Option<i32>>>,
    h: int,
    w: int,
    v: Valuation,
    y: int,
    x: int,
)
    requires
        army_solution(borders, clues, h, w, v),
        in_grid(h, w, y, x),
    ensures
        x + 1 < w && borders.wall_right(y, x) ==> !(v.horizontal)(y, x),
        y + 1 < h && borders.wall_below(y, x) ==> !(v.vertical)(y, x),
{
    assert(cell_settles(borders, h, w, clue_max(clues), v, y, x));
}

/// Two formulas whose satisfying valuations are the solutions of one puzzle
/// admit the same valuations, whatever the order of their constraints.
pub proof fn lemma_formula_deterministic(
    borders: InnerGridEdges,
    clues: Seq<Vec<Option<i32>>>,
    first: Formula,
    second: Formula,
)
    requires
        first.height == second.height,
        first.width == second.width,
        forall|v: Valuation| #[trigger]
            first.admits(v) <==> army_solution(
                borders,
                clues,
                first.height as int,
                first.width as int,
                v,
            ),
        forall|v: Valuation| #[trigger]
            second.admits(v) <==> army_solution(
                borders,
                clues,
                second.height as int,
                second.width as int,
                v,
            ),
    ensures
        forall|v: Valuation| first.admits(v) <==> second.admits(v),
{
    assert forall|v: Valuation| first.admits(v) <==> second.admits(v) by {
        assert(first.admits(v) <==> army_solution(
            borders,
            clues,
            first.height as int,
            first.width as int,
            v,
        ));
        assert(second.admits(v) <==> army_solution(
            borders,
            clues,
            second.height as int,
            second.width as int,
            v,
        ));
    }
}

} // verus!
