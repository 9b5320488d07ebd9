//! Decision variables, constraints and their meaning.

use vstd::prelude::*;

verus! {

/// Direction value of a cell that moves nowhere.
pub const STAY: u8 = 0;

/// Direction value: one row up.
pub const UP: u8 = 1;

/// Direction value: one row down.
pub const DOWN: u8 = 2;

/// Direction value: one column left.
pub const LEFT: u8 = 3;

/// Direction value: one column right.
pub const RIGHT: u8 = 4;

/// Value of a label or an end state that stands for "no label here".
pub const UNSETTLED: i32 = -2;

/// Clue marker of a piece whose number is not given.
pub const OPEN: i32 = -1;

/// A value for every decision variable, at every position.
pub struct Valuation {
    /// Outgoing direction of each cell.
    pub direction: spec_fn(int, int) -> int,
    /// Label carried through each cell.
    pub label: spec_fn(int, int) -> int,
    /// Label settled at each cell.
    pub end_state: spec_fn(int, int) -> int,
    /// Whether some neighbour moves into the cell.
    pub has_incoming: spec_fn(int, int) -> bool,
    /// Edge between `(y, x)` and `(y, x + 1)`.
    pub horizontal: spec_fn(int, int) -> bool,
    /// Edge between `(y, x)` and `(y + 1, x)`.
    pub vertical: spec_fn(int, int) -> bool,
}

/// 1 for true, 0 for false.
pub open spec fn unit(b: bool) -> int {
    if b { 1 } else { 0 }
}

/// Whether `(y, x)` is a cell of an `h` by `w` grid.
pub open spec fn in_grid(h: int, w: int, y: int, x: int) -> bool {
    0 <= y < h && 0 <= x < w
}

/// Sum of `f` over those of the four neighbours of `(y, x)` that lie in the grid.
pub open spec fn neighbor_sum(h: int, w: int, y: int, x: int, f: spec_fn(int, int) -> int) -> int {
    (if y > 0 { f(y - 1, x) } else { 0 })
        + (if y + 1 < h { f(y + 1, x) } else { 0 })
        + (if x > 0 { f(y, x - 1) } else { 0 })
        + (if x + 1 < w { f(y, x + 1) } else { 0 })
}

/// Number of neighbours whose direction points into `(y, x)`.
pub open spec fn in_degree(v: Valuation, h: int, w: int, y: int, x: int) -> int {
    unit(y > 0 && (v.direction)(y - 1, x) == DOWN)
        + unit(y + 1 < h && (v.direction)(y + 1, x) == UP)
        + unit(x > 0 && (v.direction)(y, x - 1) == RIGHT)
        + unit(x + 1 < w && (v.direction)(y, x + 1) == LEFT)
}

/// Number of neighbours that the direction of `(y, x)` points to.
pub open spec fn out_degree(v: Valuation, h: int, w: int, y: int, x: int) -> int {
    unit(y > 0 && (v.direction)(y, x) == UP) + unit(y + 1 < h && (v.direction)(y, x) == DOWN)
        + unit(x > 0 && (v.direction)(y, x) == LEFT) + unit(
        x + 1 < w && (v.direction)(y, x) == RIGHT,
    )
}

/// Number of active movement edges that touch `(y, x)`.
pub open spec fn active_edges(v: Valuation, h: int, w: int, y: int, x: int) -> int {
    unit(y > 0 && (v.vertical)(y - 1, x))
        + unit(y + 1 < h && (v.vertical)(y, x))
        + unit(x > 0 && (v.horizontal)(y, x - 1))
        + unit(x + 1 < w && (v.horizontal)(y, x))
}

/// Number of neighbours of `(y, x)` that hold a settled label: an end state of
/// at least 0.
pub open spec fn settled_neighbors(v: Valuation, h: int, w: int, y: int, x: int) -> int {
    neighbor_sum(h, w, y, x, |r: int, c: int| unit((v.end_state)(r, c) >= 0))
}

/// Sum of the end states of the neighbours of `(y, x)`, a negative one counted as 0.
pub open spec fn neighbor_total(v: Valuation, h: int, w: int, y: int, x: int) -> int {
    neighbor_sum(
        h,
        w,
        y,
        x,
        |r: int, c: int| if (v.end_state)(r, c) >= 0 { (v.end_state)(r, c) } else { 0 },
    )
}

/// The cell one step from `(y, x)` in direction `d`.
pub open spec fn step(y: int, x: int, d: int) -> (int, int) {
    if d == UP {
        (y - 1, x)
    } else if d == DOWN {
        (y + 1, x)
    } else if d == LEFT {
        (y, x - 1)
    } else if d == RIGHT {
        (y, x + 1)
    } else {
        (y, x)
    }
}

/// What a constraint says of the variables at its position.
#[derive(Clone, Copy, Debug, PartialEq, Eq)]
pub enum Rule {
    /// The direction is one of the five direction values.
    DirectionRange,
    /// The label lies between `UNSETTLED` and the given maximum.
    LabelRange(i32),
    /// The end state lies between `UNSETTLED` and the given maximum.
    EndRange(i32),
    /// The edge to the right is active iff this cell moves right or the next moves left.
    HorizontalLink,
    /// The edge below is active iff this cell moves down or the one below moves up.
    VerticalLink,
    /// The incoming flag, as 0 or 1, equals the number of neighbours that move in.
    InDegree,
    /// The label equals the given number.
    LabelIs(i32),
    /// The label is at least 0.
    LabelNonNegative,
    /// No neighbour moves in.
    NoIncoming,
    /// A cell without an active edge has no settled label.
    IsolatedUnsettled,
    /// The direction differs from the given one.
    DirectionNot(u8),
    /// Moving in the given direction keeps the label.
    Conserve(u8),
    /// A cell that moves on has no settled label.
    MovingUnsettled,
    /// The end state equals the label iff the cell moves nowhere.
    RestSettled,
    /// The edge to the right is inactive.
    HorizontalOff,
    /// The edge below is inactive.
    VerticalOff,
    /// An end state of 1 has no settled neighbour, or exactly one, and then the
    /// neighbours' settled labels total 2.
    UnitRule,
    /// An end state `e` of 2 or more has exactly one settled neighbour and the
    /// neighbours' settled labels total `e - 1`, or exactly two and they total
    /// `2 * e`.
    GrowthRule,
}

/// A rule at a cell.
#[derive(Clone, Copy, Debug, PartialEq, Eq)]
pub struct Constraint {
    pub rule: Rule,
    pub row: usize,
    pub col: usize,
}

/// Whether `v` meets `c` on an `h` by `w` grid.
pub open spec fn holds(c: Constraint, h: int, w: int, v: Valuation) -> bool {
    let y = c.row as int;
    let x = c.col as int;
    match c.rule {
        Rule::DirectionRange => 0 <= (v.direction)(y, x) <= 4,
        Rule::LabelRange(m) => UNSETTLED <= (v.label)(y, x) <= m,
        Rule::EndRange(m) => UNSETTLED <= (v.end_state)(y, x) <= m,
        Rule::HorizontalLink => (v.horizontal)(y, x) <==> ((v.direction)(y, x) == RIGHT || (
        v.direction)(y, x + 1) == LEFT),
        Rule::VerticalLink => (v.vertical)(y, x) <==> ((v.direction)(y, x) == DOWN || (
        v.direction)(y + 1, x) == UP),
        Rule::InDegree => unit((v.has_incoming)(y, x)) == in_degree(v, h, w, y, x),
        Rule::LabelIs(n) => (v.label)(y, x) == n,
        Rule::LabelNonNegative => (v.label)(y, x) >= 0,
        Rule::NoIncoming => !(v.has_incoming)(y, x),
        Rule::IsolatedUnsettled => active_edges(v, h, w, y, x) == 0 ==> (v.end_state)(y, x)
            == UNSETTLED,
        Rule::DirectionNot(d) => (v.direction)(y, x) != d,
        Rule::Conserve(d) => (v.direction)(y, x) == d ==> (v.label)(
            step(y, x, d as int).0,
            step(y, x, d as int).1,
        ) == (v.label)(y, x),
        Rule::MovingUnsettled => (v.direction)(y, x) != STAY ==> (v.end_state)(y, x) == UNSETTLED,
        Rule::RestSettled => ((v.end_state)(y, x) == (v.label)(y, x)) <==> (v.direction)(y, x)
            == STAY,
        Rule::HorizontalOff => !(v.horizontal)(y, x),
        Rule::VerticalOff => !(v.vertical)(y, x),
        Rule::UnitRule => (v.end_state)(y, x) == 1 ==> ((settled_neighbors(v, h, w, y, x) == 0)
            != (settled_neighbors(v, h, w, y, x) == 1 && neighbor_total(v, h, w, y, x) == 2)),
        Rule::GrowthRule => (v.end_state)(y, x) >= 2 ==> ((settled_neighbors(v, h, w, y, x) == 1
            && neighbor_total(v, h, w, y, x) == (v.end_state)(y, x) - 1) != (settled_neighbors(
            v,
            h,
            w,
            y,
            x,
        ) == 2 && neighbor_total(v, h, w, y, x) == 2 * (v.end_state)(y, x))),
    }
}

/// Whether the variables that `c` speaks of exist on an `h` by `w` grid.
pub open spec fn placed(c: Constraint, h: int, w: int) -> bool {
    let y = c.row as int;
    let x = c.col as int;
    &&& in_grid(h, w, y, x)
    &&& match c.rule {
        Rule::HorizontalLink | Rule::HorizontalOff => x + 1 < w,
        Rule::VerticalLink | Rule::VerticalOff => y + 1 < h,
        Rule::Conserve(d) => in_grid(h, w, step(y, x, d as int).0, step(y, x, d as int).1),
        _ => true,
    }
}

/// Whether `v` meets every constraint of `cs`.
#[verifier::opaque]
pub open spec fn all_hold(cs: Seq<Constraint>, h: int, w: int, v: Valuation) -> bool {
    forall|i: int| 0 <= i < cs.len() ==> holds(#[trigger] cs[i], h, w, v)
}

/// Whether every constraint of `cs` is placed on the grid.
#[verifier::opaque]
pub open spec fn all_placed(cs: Seq<Constraint>, h: int, w: int) -> bool {
    forall|i: int| 0 <= i < cs.len() ==> placed(#[trigger] cs[i], h, w)
}

/// One more constraint narrows the satisfying valuations by exactly that constraint.
pub proof fn lemma_push_holds(cs: Seq<Constraint>, c: Constraint, h: int, w: int)
    ensures
        forall|v: Valuation| #[trigger]
            all_hold(cs.push(c), h, w, v) <==> all_hold(cs, h, w, v) && holds(c, h, w, v),
        all_placed(cs.push(c), h, w) <==> all_placed(cs, h, w) && placed(c, h, w),
{
    reveal(all_hold);
    reveal(all_placed);
    let ext = cs.push(c);
    assert forall|v: Valuation| #[trigger]
        all_hold(ext, h, w, v) <==> all_hold(cs, h, w, v) && holds(c, h, w, v) by {
        if all_hold(ext, h, w, v) {
            assert(ext[cs.len() as int] == c);
            assert forall|i: int| 0 <= i < cs.len() implies holds(#[trigger] cs[i], h, w, v) by {
                assert(ext[i] == cs[i]);
            }
        }
        if all_hold(cs, h, w, v) && holds(c, h, w, v) {
            assert forall|i: int| 0 <= i < ext.len() implies holds(#[trigger] ext[i], h, w, v) by {
                if i < cs.len() {
                    assert(ext[i] == cs[i]);
                }
            }
        }
    }
    if all_placed(ext, h, w) {
        assert(ext[cs.len() as int] == c);
        assert forall|i: int| 0 <= i < cs.len() implies placed(#[trigger] cs[i], h, w) by {
            assert(ext[i] == cs[i]);
        }
    }
    if all_placed(cs, h, w) && placed(c, h, w) {
        assert forall|i: int| 0 <= i < ext.len() implies placed(#[trigger] ext[i], h, w) by {
            if i < cs.len() {
                assert(ext[i] == cs[i]);
            }
        }
    }
}

/// A grid shape and the constraints stated so far over its variables.
#[derive(Clone, Debug, PartialEq, Eq)]
pub struct Formula {
    pub height: usize,
    pub width: usize,
    pub constraints: Vec<Constraint>,
}

impl Formula {
    /// Whether `v` satisfies the formula.
    pub open spec fn admits(&self, v: Valuation) -> bool {
        all_hold(self.constraints@, self.height as int, self.width as int, v)
    }

    /// Whether every constraint speaks of variables that exist.
    pub open spec fn well_placed(&self) -> bool {
        all_placed(self.constraints@, self.height as int, self.width as int)
    }

    /// Whether `self` is `before` with constraints appended and nothing else changed.
    pub open spec fn extends(&self, before: Formula) -> bool {
        &&& self.height == before.height
        &&& self.width == before.width
        &&& before.constraints@.len() <= self.constraints@.len()
        &&& forall|i: int|
            0 <= i < before.constraints@.len() ==> #[trigger] self.constraints@[i]
                == before.constraints@[i]
    }

    /// The formula without constraints over a `height` by `width` grid.
    pub fn new(height: usize, width: usize) -> (f: Formula)
        ensures
            f.height == height,
            f.width == width,
            f.constraints@ == Seq::<Constraint>::empty(),
            f.well_placed(),
            forall|v: Valuation| f.admits(v),
    {
        proof {
            reveal(all_hold);
            reveal(all_placed);
        }
        Formula { height, width, constraints: Vec::new() }
    }

    /// Appends the constraint `rule` at `(row, col)`.
    pub fn emit(&mut self, rule: Rule, row: usize, col: usize)
        ensures
            final(self).height == old(self).height,
            final(self).width == old(self).width,
            final(self).constraints@ == old(self).constraints@.push(
                (Constraint { rule, row, col }),
            ),
            final(self).extends(*old(self)),
            forall|v: Valuation| #[trigger]
                final(self).admits(v) <==> old(self).admits(v) && holds(
                    (Constraint { rule, row, col }),
                    old(self).height as int,
                    old(self).width as int,
                    v,
                ),
            final(self).well_placed() <==> old(self).well_placed() && placed(
                (Constraint { rule, row, col }),
                old(self).height as int,
                old(self).width as int,
            ),
    {
        let c = Constraint { rule, row, col };
        proof {
            lemma_push_holds(self.constraints@, c, self.height as int, self.width as int);
        }
        self.constraints.push(c);
    }
}

/// Whether `g` has `rows` rows of `cols` entries each.
pub open spec fn grid_shape<T>(g: Seq<Vec<T>>, rows: int, cols: int) -> bool {
    &&& g.len() == rows
    &&& forall|y: int| 0 <= y < g.len() ==> (#[trigger] g[y])@.len() == cols
}

/// Whether `g` has `rows` rows of `cols` entries each.
pub fn has_shape<T>(g: &Vec<Vec<T>>, rows: usize, cols: usize) -> (r: bool)
    ensures
        r == grid_shape(g@, rows as int, cols as int),
{
    if g.len() != rows {
        return false;
    }
    let mut y: usize = 0;
    while y < g.len()
        invariant
            y <= g.len(),
            g.len() == rows,
            forall|r: int| 0 <= r < y ==> (#[trigger] g@[r])@.len() == cols,
        decreases g.len() - y,
    {
        if g[y].len() != cols {
            return false;
        }
        y += 1;
    }
    true
}

} // verus!
