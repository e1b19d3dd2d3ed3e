use vstd::prelude::*;
use crate::color::PuyoColor;
use crate::connect::{sized_cells, small_group_cells};
use crate::grid::{cell_at, height_at, Grid};

verus! {

/// What the planner knows of one placement besides the grid it leaves.
#[derive(Clone, Copy, Debug, PartialEq, Eq, Structural)]
pub struct MoveSummary {
    /// Chains fired by the placement (0 when nothing vanished).
    pub chain_count: u32,
    /// Points scored by those chains.
    pub chain_score: u32,
    /// Frames the placement and its chains take.
    pub frames: u32,
    /// Best score of a hypothetical chain on the resulting grid.
    pub potential: u32,
    /// Whether the two blocks landed at different heights.
    pub split: bool,
}

/// The weight table of the heuristic: each field multiplies one feature.
#[derive(Clone, Copy, Debug, PartialEq, Eq, Structural)]
pub struct Evaluator {
    pub chain: i32,
    pub chain_sq: i32,
    pub chain_score: i32,
    pub chain_frame: i32,
    pub potential_main_chain: i32,
    pub potential_main_chain_sq: i32,
    pub potential_sub_chain: i32,
    pub connectivity_2: i32,
    pub connectivity_3: i32,
    pub valley: i32,
    pub ridge: i32,
    pub ideal_height_diff: i32,
    pub ideal_height_diff_sq: i32,
    pub third_column_height: i32,
    pub unreachable_space: i32,
    pub chigiri: i32,
    pub move_frame: i32,
    pub gtr_base_1: i32,
    pub gtr_base_2: i32,
    pub gtr_base_3: i32,
}

/// Heights of the six columns; index i is column i + 1.
pub open spec fn heights_of(g: Seq<PuyoColor>) -> Seq<int> {
    Seq::new(6, |i: int| height_at(g, i + 1))
}

pub open spec fn max_int(a: int, b: int) -> int {
    if a >= b {
        a
    } else {
        b
    }
}

pub open spec fn min_int(a: int, b: int) -> int {
    if a <= b {
        a
    } else {
        b
    }
}

/// How far column i sits below its neighbours (one neighbour at an edge).
pub open spec fn valley_at(hs: Seq<int>, i: int) -> int {
    let nb = if i == 0 {
        hs[1]
    } else if i == 5 {
        hs[4]
    } else {
        min_int(hs[i - 1], hs[i + 1])
    };
    max_int(0, nb - hs[i])
}

/// How far column i rises above its neighbours (one neighbour at an edge).
pub open spec fn ridge_at(hs: Seq<int>, i: int) -> int {
    let nb = if i == 0 {
        hs[1]
    } else if i == 5 {
        hs[4]
    } else {
        max_int(hs[i - 1], hs[i + 1])
    };
    max_int(0, hs[i] - nb)
}

/// Preferred offset of each column from the mean height: edges high, centre low.
pub open spec fn ideal_offset(i: int) -> int {
    if i == 0 || i == 5 {
        2
    } else if i == 2 || i == 3 {
        -2
    } else {
        0
    }
}

pub open spec fn height_total(hs: Seq<int>, n: int) -> int
    decreases n,
{
    if n <= 0 {
        0
    } else {
        height_total(hs, n - 1) + hs[n - 1]
    }
}

pub open spec fn total_height(hs: Seq<int>) -> int {
    height_total(hs, 6)
}

/// Six times the distance of column i from its preferred height.
pub open spec fn ideal_gap(hs: Seq<int>, i: int) -> int {
    6 * hs[i] - total_height(hs) - 6 * ideal_offset(i)
}

pub open spec fn abs_int(a: int) -> int {
    if a < 0 {
        -a
    } else {
        a
    }
}

/// Column i + 1 can be reached from the spawn column 3: no column on the way
/// (both ends included) is at or above the ceiling.
pub open spec fn reachable_col(hs: Seq<int>, i: int) -> bool {
    forall|j: int| min_int(i, 2) <= j <= max_int(i, 2) ==> #[trigger] hs[j] < 12
}

/// Empty cells of a column that no piece can reach.
pub open spec fn unreachable_at(hs: Seq<int>, i: int) -> int {
    if reachable_col(hs, i) {
        0
    } else {
        13 - hs[i]
    }
}

/// Two cells hold the same normal color.
pub open spec fn same_normal(g: Seq<PuyoColor>, x1: int, y1: int, x2: int, y2: int) -> bool {
    cell_at(g, x1, y1).is_normal() && cell_at(g, x1, y1) == cell_at(g, x2, y2)
}

pub open spec fn indicator(b: bool) -> int {
    if b {
        1
    } else {
        0
    }
}

pub open spec fn valley_total(hs: Seq<int>, n: int) -> int
    decreases n,
{
    if n <= 0 {
        0
    } else {
        valley_total(hs, n - 1) + valley_at(hs, n - 1)
    }
}

pub open spec fn ridge_total(hs: Seq<int>, n: int) -> int
    decreases n,
{
    if n <= 0 {
        0
    } else {
        ridge_total(hs, n - 1) + ridge_at(hs, n - 1)
    }
}

pub open spec fn ideal_abs_total(hs: Seq<int>, n: int) -> int
    decreases n,
{
    if n <= 0 {
        0
    } else {
        ideal_abs_total(hs, n - 1) + abs_int(ideal_gap(hs, n - 1))
    }
}

pub open spec fn ideal_sq_total(hs: Seq<int>, n: int) -> int
    decreases n,
{
    if n <= 0 {
        0
    } else {
        ideal_sq_total(hs, n - 1) + ideal_gap(hs, n - 1) * ideal_gap(hs, n - 1)
    }
}

pub open spec fn unreachable_total(hs: Seq<int>, n: int) -> int
    decreases n,
{
    if n <= 0 {
        0
    } else {
        unreachable_total(hs, n - 1) + unreachable_at(hs, n - 1)
    }
}

/// The terms of the heuristic that come from the move itself.
pub open spec fn move_terms(w: Evaluator, m: MoveSummary) -> int {
    let c = m.chain_count as int;
    let p = m.potential as int;
    w.chain * c + w.chain_sq * (c * c) + w.chain_score * m.chain_score + w.chain_frame * (if c > 0 {
        m.frames as int
    } else {
        0
    }) + w.move_frame * m.frames + w.potential_main_chain * p + w.potential_main_chain_sq * ((p
        / 100) * (p / 100)) + w.potential_sub_chain * (if c == 0 {
        p
    } else {
        0
    }) + w.chigiri * indicator(m.split)
}

/// The terms of the heuristic that come from the shape of the grid.
pub open spec fn shape_terms(w: Evaluator, g: Seq<PuyoColor>) -> int {
    let hs = heights_of(g);
    w.valley * valley_total(hs, 6) + w.ridge * ridge_total(hs, 6) + w.ideal_height_diff
        * ideal_abs_total(hs, 6) + w.ideal_height_diff_sq * ideal_sq_total(hs, 6)
        + w.third_column_height * hs[2] + w.unreachable_space * unreachable_total(hs, 6)
        + w.gtr_base_1 * indicator(same_normal(g, 1, 1, 1, 2) && same_normal(g, 1, 1, 2, 1))
        + w.gtr_base_2 * indicator(same_normal(g, 1, 3, 2, 2)) + w.gtr_base_3 * indicator(
        same_normal(g, 2, 2, 3, 1),
    ) + w.connectivity_2 * sized_cells(g, 2, 78) + w.connectivity_3 * sized_cells(g, 3, 78)
}

/// The heuristic score of a grid reached by a move with the given summary.
pub open spec fn evaluation(w: Evaluator, g: Seq<PuyoColor>, m: MoveSummary) -> int {
    move_terms(w, m) + shape_terms(w, g)
}

/// Heights given as a vector stand for the spec heights `h`.
pub open spec fn heights_match(hs: Seq<usize>, h: Seq<int>) -> bool {
    &&& hs.len() == 6
    &&& h.len() == 6
    &&& forall|i: int| 0 <= i < 6 ==> hs[i] as int == h[i] && hs[i] <= 13
}

proof fn lemma_square_bound(a: int, b: int)
    requires
        -b <= a <= b,
    ensures
        0 <= a * a <= b * b,
{
    assert(0 <= a * a <= b * b) by (nonlinear_arith)
        requires
            -b <= a <= b,
    ;
}

fn weighted(w: i32, f: i128) -> (r: i128)
    requires
        -0x1_0000_0000_0000_0000 <= f <= 0x1_0000_0000_0000_0000,
    ensures
        r == w * f,
        -0x8000_0000_0000_0000_0000_0000 <= r <= 0x8000_0000_0000_0000_0000_0000,
{
    proof {
        assert(-0x8000_0000_0000_0000_0000_0000 <= (w as int) * (f as int)
            <= 0x8000_0000_0000_0000_0000_0000) by (nonlinear_arith)
            requires
                -0x8000_0000 <= w <= 0x7fff_ffff,
                -0x1_0000_0000_0000_0000 <= f <= 0x1_0000_0000_0000_0000,
        ;
    }
    (w as i128) * f
}

pub(crate) fn valley_sum(hs: &Vec<usize>, Ghost(h): Ghost<Seq<int>>) -> (r: i128)
    requires
        heights_match(hs@, h),
    ensures
        r == valley_total(h, 6),
        0 <= r <= 78,
{
    let mut acc: i128 = 0;
    let mut i: usize = 0;
    while i < 6
        invariant
            heights_match(hs@, h),
            i <= 6,
            acc == valley_total(h, i as int),
            0 <= acc <= 13 * i,
        decreases 6 - i,
    {
        let nb = if i == 0 {
            hs[1]
        } else if i == 5 {
            hs[4]
        } else if hs[i - 1] <= hs[i + 1] {
            hs[i - 1]
        } else {
            hs[i + 1]
        };
        if nb > hs[i] {
            acc = acc + (nb - hs[i]) as i128;
        }
        i = i + 1;
    }
    acc
}

fn ridge_sum(hs: &Vec<usize>, Ghost(h): Ghost<Seq<int>>) -> (r: i128)
    requires
        heights_match(hs@, h),
    ensures
        r == ridge_total(h, 6),
        0 <= r <= 78,
{
    let mut acc: i128 = 0;
    let mut i: usize = 0;
    while i < 6
        invariant
            heights_match(hs@, h),
            i <= 6,
            acc == ridge_total(h, i as int),
            0 <= acc <= 13 * i,
        decreases 6 - i,
    {
        let nb = if i == 0 {
            hs[1]
        } else if i == 5 {
            hs[4]
        } else if hs[i - 1] >= hs[i + 1] {
            hs[i - 1]
        } else {
            hs[i + 1]
        };
        if hs[i] > nb {
            acc = acc + (hs[i] - nb) as i128;
        }
        i = i + 1;
    }
    acc
}

pub(crate) fn height_sum(hs: &Vec<usize>, Ghost(h): Ghost<Seq<int>>) -> (r: i128)
    requires
        heights_match(hs@, h),
    ensures
        r == total_height(h),
        0 <= r <= 78,
{
    let mut acc: i128 = 0;
    let mut i: usize = 0;
    while i < 6
        invariant
            heights_match(hs@, h),
            i <= 6,
            acc == height_total(h, i as int),
            0 <= acc <= 13 * i,
        decreases 6 - i,
    {
        acc = acc + hs[i] as i128;
        i = i + 1;
    }
    acc
}

/// Returns the sums of |gap| and of gap squared over the six columns.
fn ideal_sums(hs: &Vec<usize>, Ghost(h): Ghost<Seq<int>>) -> (r: (i128, i128))
    requires
        heights_match(hs@, h),
    ensures
        r.0 == ideal_abs_total(h, 6),
        r.1 == ideal_sq_total(h, 6),
        0 <= r.0 <= 6 * 100,
        0 <= r.1 <= 6 * 10000,
{
    let total = height_sum(hs, Ghost(h));
    let mut a: i128 = 0;
    let mut q: i128 = 0;
    let mut i: usize = 0;
    while i < 6
        invariant
            heights_match(hs@, h),
            i <= 6,
            total == total_height(h),
            0 <= total <= 78,
            a == ideal_abs_total(h, i as int),
            q == ideal_sq_total(h, i as int),
            0 <= a <= 100 * i,
            0 <= q <= 10000 * i,
        decreases 6 - i,
    {
        let off: i128 = if i == 0 || i == 5 {
            2
        } else if i == 2 || i == 3 {
            -2
        } else {
            0
        };
        let gap: i128 = 6 * (hs[i] as i128) - total - 6 * off;
        assert(gap == ideal_gap(h, i as int));
        let ab = if gap < 0 {
            -gap
        } else {
            gap
        };
        assert(ab <= 100);
        proof {
            lemma_square_bound(gap as int, 100);
        }
        a = a + ab;
        q = q + gap * gap;
        i = i + 1;
    }
    (a, q)
}

/// Sum over the columns of |6 h - total - 6 offset|.
pub(crate) fn ideal_abs(hs: &Vec<usize>, Ghost(h): Ghost<Seq<int>>) -> (r: i128)
    requires
        heights_match(hs@, h),
    ensures
        r == ideal_abs_total(h, 6),
        0 <= r <= 600,
{
    ideal_sums(hs, Ghost(h)).0
}

fn is_reachable_column(hs: &Vec<usize>, i: usize, Ghost(h): Ghost<Seq<int>>) -> (b: bool)
    requires
        heights_match(hs@, h),
        i < 6,
    ensures
        b == reachable_col(h, i as int),
{
    let lo: usize = if i <= 2 {
        i
    } else {
        2
    };
    let hi: usize = if i >= 2 {
        i
    } else {
        2
    };
    let mut j: usize = lo;
    while j <= hi
        invariant
            heights_match(hs@, h),
            lo == min_int(i as int, 2),
            hi == max_int(i as int, 2),
            hi < 6,
            lo <= j <= hi + 1,
            forall|k: int| lo <= k < j ==> #[trigger] h[k] < 12,
        decreases hi + 1 - j,
    {
        if hs[j] >= 12 {
            return false;
        }
        j = j + 1;
    }
    true
}

fn unreachable_sum(hs: &Vec<usize>, Ghost(h): Ghost<Seq<int>>) -> (r: i128)
    requires
        heights_match(hs@, h),
    ensures
        r == unreachable_total(h, 6),
        0 <= r <= 78,
{
    let mut acc: i128 = 0;
    let mut i: usize = 0;
    while i < 6
        invariant
            heights_match(hs@, h),
            i <= 6,
            acc == unreachable_total(h, i as int),
            0 <= acc <= 13 * i,
        decreases 6 - i,
    {
        if !is_reachable_column(hs, i, Ghost(h)) {
            acc = acc + (13 - hs[i]) as i128;
        }
        i = i + 1;
    }
    acc
}

fn same_normal_cells(g: &Grid, x1: usize, y1: usize, x2: usize, y2: usize) -> (b: bool)
    requires
        g.wf(),
        1 <= x1 <= 6,
        1 <= y1 <= 13,
        1 <= x2 <= 6,
        1 <= y2 <= 13,
    ensures
        b == same_normal(g@, x1 as int, y1 as int, x2 as int, y2 as int),
{
    let a = g.color(x1, y1);
    let c = g.color(x2, y2);
    a.is_normal_color() && a == c
}

pub(crate) fn flag(b: bool) -> (r: i128)
    ensures
        r == indicator(b),
{
    if b {
        1
    } else {
        0
    }
}

impl Evaluator {
    fn move_part(&self, m: &MoveSummary) -> (r: i128)
        ensures
            r == move_terms(*self, *m),
            -9 * 0x8000_0000_0000_0000_0000_0000 <= r <= 9 * 0x8000_0000_0000_0000_0000_0000,
    {
        let c = m.chain_count as i128;
        let p = m.potential as i128;
        let fired = m.chain_count > 0;
        proof {
            lemma_square_bound(c as int, 0x1_0000_0000);
            lemma_square_bound((p / 100) as int, 0x1_0000_0000);
        }
        let t_chain = weighted(self.chain, c);
        let t_chain_sq = weighted(self.chain_sq, c * c);
        let t_score = weighted(self.chain_score, m.chain_score as i128);
        let t_chain_frame = weighted(
            self.chain_frame,
            if fired {
                m.frames as i128
            } else {
                0
            },
        );
        let t_move_frame = weighted(self.move_frame, m.frames as i128);
        let t_pot = weighted(self.potential_main_chain, p);
        let t_pot_sq = weighted(self.potential_main_chain_sq, (p / 100) * (p / 100));
        let t_sub = weighted(
            self.potential_sub_chain,
            if fired {
                0
            } else {
                p
            },
        );
        let t_split = weighted(self.chigiri, flag(m.split));
        t_chain + t_chain_sq + t_score + t_chain_frame + t_move_frame + t_pot + t_pot_sq + t_sub
            + t_split
    }

    fn shape_part(&self, g: &Grid) -> (r: i128)
        requires
            g.wf(),
        ensures
            r == shape_terms(*self, g@),
            -11 * 0x8000_0000_0000_0000_0000_0000 <= r <= 11 * 0x8000_0000_0000_0000_0000_0000,
    {
        let hs = g.heights();
        let ghost h = heights_of(g@);
        assert(heights_match(hs@, h));
        let t_valley = weighted(self.valley, valley_sum(&hs, Ghost(h)));
        let t_ridge = weighted(self.ridge, ridge_sum(&hs, Ghost(h)));
        let (ab, sq) = ideal_sums(&hs, Ghost(h));
        let t_ideal = weighted(self.ideal_height_diff, ab);
        let t_ideal_sq = weighted(self.ideal_height_diff_sq, sq);
        let t_third = weighted(self.third_column_height, hs[2] as i128);
        let t_unreach = weighted(self.unreachable_space, unreachable_sum(&hs, Ghost(h)));
        let g1 = same_normal_cells(g, 1, 1, 1, 2) && same_normal_cells(g, 1, 1, 2, 1);
        let t_gtr1 = weighted(self.gtr_base_1, flag(g1));
        let t_gtr2 = weighted(self.gtr_base_2, flag(same_normal_cells(g, 1, 3, 2, 2)));
        let t_gtr3 = weighted(self.gtr_base_3, flag(same_normal_cells(g, 2, 2, 3, 1)));
        let (two, three) = small_group_cells(g);
        let t_conn2 = weighted(self.connectivity_2, two as i128);
        let t_conn3 = weighted(self.connectivity_3, three as i128);
        t_valley + t_ridge + t_ideal + t_ideal_sq + t_third + t_unreach + t_gtr1 + t_gtr2 + t_gtr3 + t_conn2
            + t_conn3
    }

    /// The heuristic score of grid `g`, reached by a move summarised by `m`.
    pub fn evaluate(&self, g: &Grid, m: &MoveSummary) -> (r: i128)
        requires
            g.wf(),
        ensures
            r == evaluation(*self, g@, *m),
            -0x10_0000_0000_0000_0000_0000_0000 <= r <= 0x10_0000_0000_0000_0000_0000_0000,
    {
        self.move_part(m) + self.shape_part(g)
    }
}

/// The base weight table.
pub open spec fn default_weights() -> Evaluator {
    Evaluator {
        chain: 1000,
        chain_sq: 100,
        chain_score: 1,
        chain_frame: (-1) as i32,
        potential_main_chain: 2,
        potential_main_chain_sq: 1,
        potential_sub_chain: 1,
        connectivity_2: 50,
        connectivity_3: 150,
        valley: (-100) as i32,
        ridge: (-100) as i32,
        ideal_height_diff: (-10) as i32,
        ideal_height_diff_sq: (-2) as i32,
        third_column_height: (-20) as i32,
        unreachable_space: (-500) as i32,
        chigiri: (-200) as i32,
        move_frame: (-2) as i32,
        gtr_base_1: 300,
        gtr_base_2: 200,
        gtr_base_3: 200,
    }
}

impl Evaluator {
    /// The base weight table.
    pub fn default_table() -> (e: Evaluator)
        ensures
            e == default_weights(),
    {
        Evaluator {
            chain: 1000,
            chain_sq: 100,
            chain_score: 1,
            chain_frame: -1,
            potential_main_chain: 2,
            potential_main_chain_sq: 1,
            potential_sub_chain: 1,
            connectivity_2: 50,
            connectivity_3: 150,
            valley: -100,
            ridge: -100,
            ideal_height_diff: -10,
            ideal_height_diff_sq: -2,
            third_column_height: -20,
            unreachable_space: -500,
            chigiri: -200,
            move_frame: -2,
            gtr_base_1: 300,
            gtr_base_2: 200,
            gtr_base_3: 200,
        }
    }
}

impl Default for Evaluator {
    fn default() -> (e: Evaluator)
        ensures
            e == default_weights(),
    {
        Evaluator::default_table()
    }
}

} // verus!
