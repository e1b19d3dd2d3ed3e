use vstd::prelude::*;
use crate::color::{Kumipuyo, PuyoColor};
use crate::decision::{child_column, Decision};

verus! {

/// Columns of the playfield.
pub const WIDTH: usize = 6;

/// Rows of the playfield; row 13 is the hidden top row.
pub const HEIGHT: usize = 13;

/// A column whose stack reaches this row takes no hypothetical block.
pub const CEILING: usize = 12;

/// Number of cells.
pub const CELLS: usize = 78;

/// Position of cell (x, y) in the cell vector, columns 1..=6, rows 1..=13.
pub open spec fn cell_index(x: int, y: int) -> int {
    (x - 1) * 13 + (y - 1)
}

pub open spec fn in_field(x: int, y: int) -> bool {
    1 <= x <= 6 && 1 <= y <= 13
}

pub proof fn lemma_index_in_range(x: int, y: int)
    requires
        in_field(x, y),
    ensures
        0 <= cell_index(x, y) < 78,
{
    assert(0 <= cell_index(x, y) < 78) by (nonlinear_arith)
        requires
            1 <= x <= 6,
            1 <= y <= 13,
    ;
}

pub proof fn lemma_index_injective(x1: int, y1: int, x2: int, y2: int)
    requires
        in_field(x1, y1),
        in_field(x2, y2),
        x1 != x2 || y1 != y2,
    ensures
        cell_index(x1, y1) != cell_index(x2, y2),
{
    assert(cell_index(x1, y1) != cell_index(x2, y2)) by (nonlinear_arith)
        requires
            1 <= x1 <= 6,
            1 <= y1 <= 13,
            1 <= x2 <= 6,
            1 <= y2 <= 13,
            x1 != x2 || y1 != y2,
    ;
}

/// The color at (x, y) of a grid given by its cells.
pub open spec fn cell_at(g: Seq<PuyoColor>, x: int, y: int) -> PuyoColor {
    g[cell_index(x, y)]
}

/// Highest non-empty row of column x at or below row y (0 when there is none).
pub open spec fn top_from(g: Seq<PuyoColor>, x: int, y: int) -> int
    decreases y,
{
    if y <= 0 {
        0
    } else if cell_at(g, x, y) != PuyoColor::Empty {
        y
    } else {
        top_from(g, x, y - 1)
    }
}

/// Height of column x: its highest non-empty row.
pub open spec fn height_at(g: Seq<PuyoColor>, x: int) -> int {
    top_from(g, x, 13)
}

/// A grid with one cell set.
pub open spec fn with_cell(g: Seq<PuyoColor>, x: int, y: int, c: PuyoColor) -> Seq<PuyoColor> {
    g.update(cell_index(x, y), c)
}

/// Rows at which the axis and the child of a piece come to rest.
pub open spec fn landing_rows(g: Seq<PuyoColor>, d: Decision) -> (int, int) {
    let hx = height_at(g, d.x as int);
    if d.r == 0 {
        (hx + 1, hx + 2)
    } else if d.r == 2 {
        (hx + 2, hx + 1)
    } else {
        (hx + 1, height_at(g, child_column(d.x as int, d.r as int)) + 1)
    }
}

/// A valid decision is legal on a grid when both blocks land inside the playfield.
pub open spec fn is_legal(g: Seq<PuyoColor>, d: Decision) -> bool {
    &&& d.is_valid_spec()
    &&& landing_rows(g, d).0 <= 13
    &&& landing_rows(g, d).1 <= 13
}

/// The grid after the piece is dropped by decision d.
pub open spec fn dropped(g: Seq<PuyoColor>, k: Kumipuyo, d: Decision) -> Seq<PuyoColor> {
    let (ay, cy) = landing_rows(g, d);
    with_cell(with_cell(g, d.x as int, ay, k.axis), child_column(d.x as int, d.r as int), cy, k.child)
}

/// A split placement: the two blocks of the piece land at different heights.
pub open spec fn is_split(g: Seq<PuyoColor>, d: Decision) -> bool {
    landing_rows(g, d).0 != landing_rows(g, d).1 && (d.r == 1 || d.r == 3)
}

/// A column is open when its stack is below the ceiling.
pub open spec fn is_open(g: Seq<PuyoColor>, x: int) -> bool {
    height_at(g, x) < 12
}

/// The playfield: 6 columns of 13 cells, stored column by column, bottom up.
#[derive(Clone, Debug, PartialEq, Eq)]
pub struct Grid {
    pub cells: Vec<PuyoColor>,
}

impl View for Grid {
    type V = Seq<PuyoColor>;

    open spec fn view(&self) -> Seq<PuyoColor> {
        self.cells@
    }
}

impl Grid {
    pub open spec fn wf(&self) -> bool {
        self.cells@.len() == 78
    }

    /// A copy of this grid.
    pub fn duplicate(&self) -> (g: Grid)
        ensures
            g@ == self@,
    {
        let cells = self.cells.clone();
        assert(cells@ =~= self.cells@);
        Grid { cells }
    }

    /// An empty playfield.
    pub fn new() -> (g: Grid)
        ensures
            g.wf(),
            forall|i: int| 0 <= i < 78 ==> g@[i] == PuyoColor::Empty,
    {
        let mut cells: Vec<PuyoColor> = Vec::new();
        let mut i: usize = 0;
        while i < CELLS
            invariant
                i <= 78,
                cells@.len() == i,
                forall|j: int| 0 <= j < i ==> cells@[j] == PuyoColor::Empty,
            decreases 78 - i,
        {
            cells.push(PuyoColor::Empty);
            i = i + 1;
        }
        Grid { cells }
    }

    pub fn color(&self, x: usize, y: usize) -> (c: PuyoColor)
        requires
            self.wf(),
            in_field(x as int, y as int),
        ensures
            c == cell_at(self@, x as int, y as int),
    {
        proof {
            lemma_index_in_range(x as int, y as int);
        }
        self.cells[(x - 1) * HEIGHT + (y - 1)]
    }

    pub fn is_empty(&self, x: usize, y: usize) -> (b: bool)
        requires
            self.wf(),
            in_field(x as int, y as int),
        ensures
            b == (cell_at(self@, x as int, y as int) == PuyoColor::Empty),
    {
        self.color(x, y).is_empty_cell()
    }

    pub fn set_color(&mut self, x: usize, y: usize, c: PuyoColor)
        requires
            old(self).wf(),
            in_field(x as int, y as int),
        ensures
            final(self).wf(),
            final(self)@ == with_cell(old(self)@, x as int, y as int, c),
    {
        proof {
            lemma_index_in_range(x as int, y as int);
        }
        self.cells.set((x - 1) * HEIGHT + (y - 1), c);
    }

    pub fn height(&self, x: usize) -> (h: usize)
        requires
            self.wf(),
            1 <= x <= 6,
        ensures
            h == height_at(self@, x as int),
            h <= 13,
    {
        let mut y: usize = HEIGHT;
        while y > 0
            invariant
                y <= 13,
                1 <= x <= 6,
                self.wf(),
                top_from(self@, x as int, 13) == top_from(self@, x as int, y as int),
            decreases y,
        {
            if !self.is_empty(x, y) {
                return y;
            }
            y = y - 1;
        }
        0
    }

    /// Heights of the six columns; index 0 holds column 1.
    pub fn heights(&self) -> (hs: Vec<usize>)
        requires
            self.wf(),
        ensures
            hs@.len() == 6,
            forall|i: int| 0 <= i < 6 ==> hs@[i] == height_at(self@, i + 1) && hs@[i] <= 13,
    {
        let mut hs: Vec<usize> = Vec::new();
        let mut x: usize = 1;
        while x <= WIDTH
            invariant
                1 <= x <= 7,
                self.wf(),
                hs@.len() == x - 1,
                forall|i: int| 0 <= i < x - 1 ==> hs@[i] == height_at(self@, i + 1) && hs@[i] <= 13,
            decreases 7 - x,
        {
            let h = self.height(x);
            hs.push(h);
            x = x + 1;
        }
        hs
    }

    /// Whether decision d keeps both blocks of a piece inside the playfield.
    pub fn can_drop(&self, d: &Decision) -> (b: bool)
        requires
            self.wf(),
        ensures
            b == is_legal(self@, *d),
    {
        if !d.is_valid() {
            return false;
        }
        let hx = self.height(d.x);
        if d.r == 0 || d.r == 2 {
            hx + 2 <= HEIGHT
        } else {
            let hc = self.height(d.child_x());
            hx + 1 <= HEIGHT && hc + 1 <= HEIGHT
        }
    }

    /// Drops a piece by a legal decision; a new grid, this one unchanged.
    pub fn drop_kumipuyo(&self, k: &Kumipuyo, d: &Decision) -> (g: Grid)
        requires
            self.wf(),
            is_legal(self@, *d),
        ensures
            g.wf(),
            g@ == dropped(self@, *k, *d),
    {
        let hx = self.height(d.x);
        let cx = d.child_x();
        let (ay, cy) = if d.r == 0 {
            (hx + 1, hx + 2)
        } else if d.r == 2 {
            (hx + 2, hx + 1)
        } else {
            (hx + 1, self.height(cx) + 1)
        };
        let mut g = self.duplicate();
        g.set_color(d.x, ay, k.axis);
        g.set_color(cx, cy, k.child);
        g
    }

    /// Whether a legal decision leaves the two blocks at different heights.
    pub fn is_split_drop(&self, d: &Decision) -> (b: bool)
        requires
            self.wf(),
            is_legal(self@, *d),
        ensures
            b == is_split(self@, *d),
    {
        if d.r == 1 || d.r == 3 {
            self.height(d.x) != self.height(d.child_x())
        } else {
            false
        }
    }

    /// Puts one block on top of an open column.
    pub fn place_on_top(&self, x: usize, c: PuyoColor) -> (g: Grid)
        requires
            self.wf(),
            1 <= x <= 6,
            is_open(self@, x as int),
        ensures
            g.wf(),
            g@ == with_cell(self@, x as int, height_at(self@, x as int) + 1, c),
    {
        let h = self.height(x);
        let mut g = self.duplicate();
        g.set_color(x, h + 1, c);
        g
    }

    /// Whether the column is open for another block.
    pub fn is_open_column(&self, x: usize) -> (b: bool)
        requires
            self.wf(),
            1 <= x <= 6,
        ensures
            b == is_open(self@, x as int),
    {
        self.height(x) < CEILING
    }
}

} // verus!
