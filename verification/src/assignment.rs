//! Concrete assignments, and checking one against a formula.

use crate::formula::{
    active_edges, all_hold, all_placed, grid_shape, has_shape, holds, in_degree, neighbor_total,
    settled_neighbors, placed, Constraint, Formula, Rule, Valuation, DOWN, LEFT, RIGHT, STAY,
    UNSETTLED, UP,
};
use vstd::prelude::*;

verus! {

/// A value for every decision variable of a grid.
#[derive(Clone, Debug, PartialEq, Eq)]
pub struct Assignment {
    /// Outgoing direction of each cell.
    pub direction: Vec<Vec<u8>>,
    /// Label carried through each cell.
    pub label: Vec<Vec<i32>>,
    /// Label settled at each cell.
    pub end_state: Vec<Vec<i32>>,
    /// Whether some neighbour moves into the cell.
    pub has_incoming: Vec<Vec<bool>>,
    /// `horizontal[y][x]`: the edge between `(y, x)` and `(y, x + 1)`.
    pub horizontal: Vec<Vec<bool>>,
    /// `vertical[y][x]`: the edge between `(y, x)` and `(y + 1, x)`.
    pub vertical: Vec<Vec<bool>>,
}

impl View for Assignment {
    type V = Valuation;

    open spec fn view(&self) -> Valuation {
        Valuation {
            direction: |y: int, x: int| self.direction@[y]@[x] as int,
            label: |y: int, x: int| self.label@[y]@[x] as int,
            end_state: |y: int, x: int| self.end_state@[y]@[x] as int,
            has_incoming: |y: int, x: int| self.has_incoming@[y]@[x],
            horizontal: |y: int, x: int| self.horizontal@[y]@[x],
            vertical: |y: int, x: int| self.vertical@[y]@[x],
        }
    }
}

impl Assignment {
    /// Whether the assignment has the variables of an `h` by `w` grid with at
    /// least one cell.
    pub open spec fn fits(&self, h: int, w: int) -> bool {
        &&& h >= 1
        &&& w >= 1
        &&& grid_shape(self.direction@, h, w)
        &&& grid_shape(self.label@, h, w)
        &&& grid_shape(self.end_state@, h, w)
        &&& grid_shape(self.has_incoming@, h, w)
        &&& grid_shape(self.horizontal@, h, w - 1)
        &&& grid_shape(self.vertical@, h - 1, w)
    }

    /// Whether the assignment has the variables of an `h` by `w` grid with at
    /// least one cell.
    pub fn has_grid_shape(&self, h: usize, w: usize) -> (r: bool)
        ensures
            r == self.fits(h as int, w as int),
    {
        h >= 1 && w >= 1 && has_shape(&self.direction, h, w) && has_shape(&self.label, h, w)
            && has_shape(&self.end_state, h, w) && has_shape(&self.has_incoming, h, w) && has_shape(
            &self.horizontal,
            h,
            w - 1,
        ) && has_shape(&self.vertical, h - 1, w)
    }

    /// Number of neighbours whose direction points into `(y, x)`.
    pub fn count_incoming(&self, h: usize, w: usize, y: usize, x: usize) -> (n: u8)
        requires
            self.fits(h as int, w as int),
            y < h,
            x < w,
        ensures
            n == in_degree(self@, h as int, w as int, y as int, x as int),
    {
        let mut n: u8 = 0;
        if y > 0 && self.direction[y - 1][x] == DOWN {
            n += 1;
        }
        if y + 1 < h && self.direction[y + 1][x] == UP {
            n += 1;
        }
        if x > 0 && self.direction[y][x - 1] == RIGHT {
            n += 1;
        }
        if x + 1 < w && self.direction[y][x + 1] == LEFT {
            n += 1;
        }
        n
    }

    /// Number of active movement edges that touch `(y, x)`.
    pub fn count_active_edges(&self, h: usize, w: usize, y: usize, x: usize) -> (n: u8)
        requires
            self.fits(h as int, w as int),
            y < h,
            x < w,
        ensures
            n == active_edges(self@, h as int, w as int, y as int, x as int),
    {
        let mut n: u8 = 0;
        if y > 0 && self.vertical[y - 1][x] {
            n += 1;
        }
        if y + 1 < h && self.vertical[y][x] {
            n += 1;
        }
        if x > 0 && self.horizontal[y][x - 1] {
            n += 1;
        }
        if x + 1 < w && self.horizontal[y][x] {
            n += 1;
        }
        n
    }

    /// Number of neighbours of `(y, x)` whose end state is at least 0.
    pub fn count_settled(&self, h: usize, w: usize, y: usize, x: usize) -> (n: u8)
        requires
            self.fits(h as int, w as int),
            y < h,
            x < w,
        ensures
            n == settled_neighbors(self@, h as int, w as int, y as int, x as int),
    {
        let mut n: u8 = 0;
        if y > 0 && self.end_state[y - 1][x] >= 0 {
            n += 1;
        }
        if y + 1 < h && self.end_state[y + 1][x] >= 0 {
            n += 1;
        }
        if x > 0 && self.end_state[y][x - 1] >= 0 {
            n += 1;
        }
        if x + 1 < w && self.end_state[y][x + 1] >= 0 {
            n += 1;
        }
        n
    }

    /// Sum of the end states of the neighbours of `(y, x)`, a negative one
    /// counted as 0.
    pub fn sum_neighbors(&self, h: usize, w: usize, y: usize, x: usize) -> (n: i64)
        requires
            self.fits(h as int, w as int),
            y < h,
            x < w,
        ensures
            n == neighbor_total(self@, h as int, w as int, y as int, x as int),
    {
        let mut n: i64 = 0;
        if y > 0 && self.end_state[y - 1][x] >= 0 {
            n += self.end_state[y - 1][x] as i64;
        }
        if y + 1 < h && self.end_state[y + 1][x] >= 0 {
            n += self.end_state[y + 1][x] as i64;
        }
        if x > 0 && self.end_state[y][x - 1] >= 0 {
            n += self.end_state[y][x - 1] as i64;
        }
        if x + 1 < w && self.end_state[y][x + 1] >= 0 {
            n += self.end_state[y][x + 1] as i64;
        }
        n
    }

    /// Whether the assignment meets `c` on an `h` by `w` grid.
    pub fn meets(&self, c: &Constraint, h: usize, w: usize) -> (r: bool)
        requires
            self.fits(h as int, w as int),
            placed(*c, h as int, w as int),
        ensures
            r == holds(*c, h as int, w as int, self@),
    {
        let y = c.row;
        let x = c.col;
        let d = self.direction[y][x];
        let n = self.label[y][x];
        let e = self.end_state[y][x];
        match c.rule {
            Rule::DirectionRange => d <= 4,
            Rule::LabelRange(m) => UNSETTLED <= n && n <= m,
            Rule::EndRange(m) => UNSETTLED <= e && e <= m,
            Rule::HorizontalLink => self.horizontal[y][x] == (d == RIGHT || self.direction[y][x
                + 1] == LEFT),
            Rule::VerticalLink => self.vertical[y][x] == (d == DOWN || self.direction[y
                + 1][x] == UP),
            Rule::InDegree => {
                let k = self.count_incoming(h, w, y, x);
                if self.has_incoming[y][x] {
                    k == 1
                } else {
                    k == 0
                }
            },
            Rule::LabelIs(k) => n == k,
            Rule::LabelNonNegative => n >= 0,
            Rule::NoIncoming => !self.has_incoming[y][x],
            Rule::IsolatedUnsettled => self.count_active_edges(h, w, y, x) != 0 || e == UNSETTLED,
            Rule::DirectionNot(k) => d != k,
            Rule::Conserve(k) => {
                if d != k {
                    true
                } else if k == UP {
                    self.label[y - 1][x] == n
                } else if k == DOWN {
                    self.label[y + 1][x] == n
                } else if k == LEFT {
                    self.label[y][x - 1] == n
                } else if k == RIGHT {
                    self.label[y][x + 1] == n
                } else {
                    true
                }
            },
            Rule::MovingUnsettled => d == STAY || e == UNSETTLED,
            Rule::RestSettled => (e == n) == (d == STAY),
            Rule::HorizontalOff => !self.horizontal[y][x],
            Rule::VerticalOff => !self.vertical[y][x],
            Rule::UnitRule => {
                let settled = self.count_settled(h, w, y, x);
                let total = self.sum_neighbors(h, w, y, x);
                e != 1 || ((settled == 0) != (settled == 1 && total == 2))
            },
            Rule::GrowthRule => {
                let settled = self.count_settled(h, w, y, x);
                let total = self.sum_neighbors(h, w, y, x);
                let wide = e as i64;
                e < 2 || ((settled == 1 && total == wide - 1) != (settled == 2 && total == 2
                    * wide))
            },
        }
    }
}

impl Constraint {
    /// Whether the variables that the constraint speaks of exist on an `h` by
    /// `w` grid.
    pub fn is_placed(&self, h: usize, w: usize) -> (r: bool)
        ensures
            r == placed(*self, h as int, w as int),
    {
        if self.row >= h || self.col >= w {
            return false;
        }
        match self.rule {
            Rule::HorizontalLink | Rule::HorizontalOff => self.col + 1 < w,
            Rule::VerticalLink | Rule::VerticalOff => self.row + 1 < h,
            Rule::Conserve(k) => {
                if k == UP {
                    self.row > 0
                } else if k == DOWN {
                    self.row + 1 < h
                } else if k == LEFT {
                    self.col > 0
                } else if k == RIGHT {
                    self.col + 1 < w
                } else {
                    true
                }
            },
            _ => true,
        }
    }
}

impl Formula {
    /// Whether `a` is an assignment to the variables of this formula that
    /// satisfies every constraint of it. An assignment of another shape, and a
    /// formula with a constraint on a variable that does not exist, give false.
    pub fn satisfied_by(&self, a: &Assignment) -> (r: bool)
        ensures
            r == (a.fits(self.height as int, self.width as int) && self.well_placed()
                && self.admits(a@)),
    {
        let h = self.height;
        let w = self.width;
        if !a.has_grid_shape(h, w) {
            return false;
        }
        let mut i: usize = 0;
        while i < self.constraints.len()
            invariant
                i <= self.constraints.len(),
                h == self.height,
                w == self.width,
                a.fits(h as int, w as int),
                forall|j: int|
                    0 <= j < i ==> placed(#[trigger] self.constraints@[j], h as int, w as int)
                        && holds(self.constraints@[j], h as int, w as int, a@),
            decreases self.constraints.len() - i,
        {
            let c = &self.constraints[i];
            proof {
                reveal(all_hold);
                reveal(all_placed);
                assert(self.constraints@[i as int] == *c);
            }
            if !c.is_placed(h, w) {
                return false;
            }
            if !a.meets(c, h, w) {
                return false;
            }
            i += 1;
        }
        proof {
            reveal(all_hold);
            reveal(all_placed);
        }
        true
    }
}

} // verus!
