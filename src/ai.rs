use vstd::prelude::*;
use crate::color::PuyoColor;
use crate::decision::{default_spec, Decision};
use crate::evaluator::{default_weights, evaluation, heights_match, height_sum, heights_of, total_height, Evaluator, MoveSummary};
use crate::grid::{cell_at, height_at, Grid};
use crate::connect::{sized_cells, small_group_cells};
use crate::planner::{Expansion, Resolution};

verus! {

/// Bonus of a move that fires, for the chain-focused player.
pub open spec fn chain_bonus(m: MoveSummary, per_chain: int) -> int {
    if m.chain_count > 0 {
        m.chain_count * per_chain + m.chain_score / 100
    } else {
        0
    }
}

fn chain_bonus_exec(m: &MoveSummary, per_chain: i128) -> (r: i128)
    requires
        0 <= per_chain <= 10000,
    ensures
        r == chain_bonus(*m, per_chain as int),
        0 <= r <= 0x1_0000_0000 * 10001,
{
    if m.chain_count > 0 {
        proof {
            assert(m.chain_count * per_chain <= 0x1_0000_0000 * 10000) by (nonlinear_arith)
                requires
                    m.chain_count <= 0x1_0000_0000,
                    0 <= per_chain <= 10000,
            ;
        }
        (m.chain_count as i128) * per_chain + (m.chain_score / 100) as i128
    } else {
        0
    }
}

/// The weights of the chain-focused player: chains count three times as
/// much, shape half as much.
pub open spec fn chain_focused_weights() -> Evaluator {
    let d = default_weights();
    Evaluator {
        chain: (d.chain * 3) as i32,
        chain_sq: (d.chain_sq * 2) as i32,
        chain_score: (d.chain_score * 3) as i32,
        chain_frame: (d.chain_frame * 2) as i32,
        potential_main_chain: (d.potential_main_chain * 3) as i32,
        potential_main_chain_sq: (d.potential_main_chain_sq * 2) as i32,
        potential_sub_chain: (d.potential_sub_chain * 2) as i32,
        connectivity_3: (d.connectivity_3 * 2) as i32,
        valley: (d.valley * 5 / 10) as i32,
        ridge: (d.ridge * 5 / 10) as i32,
        third_column_height: (d.third_column_height * 7 / 10) as i32,
        ..d
    }
}

/// A player that searches a few pieces ahead and favours firing chains.
pub struct ChainFocusedAI {
    pub evaluator: Evaluator,
}

impl ChainFocusedAI {
    pub fn new_customize(evaluator: Evaluator) -> (a: ChainFocusedAI)
        ensures
            a.evaluator == evaluator,
    {
        ChainFocusedAI { evaluator }
    }

    pub fn new() -> (a: ChainFocusedAI)
        ensures
            a.evaluator == chain_focused_weights(),
    {
        ChainFocusedAI { evaluator: Self::create_evaluator() }
    }

    pub fn create_evaluator() -> (e: Evaluator)
        ensures
            e == chain_focused_weights(),
    {
        let mut e = Evaluator::default_table();
        e.chain = e.chain * 3;
        e.chain_sq = e.chain_sq * 2;
        e.chain_score = e.chain_score * 3;
        e.chain_frame = e.chain_frame * 2;
        e.potential_main_chain = e.potential_main_chain * 3;
        e.potential_main_chain_sq = e.potential_main_chain_sq * 2;
        e.potential_sub_chain = e.potential_sub_chain * 2;
        e.connectivity_3 = e.connectivity_3 * 2;
        e.valley = e.valley * 5 / 10;
        e.ridge = e.ridge * 5 / 10;
        e.third_column_height = e.third_column_height * 7 / 10;
        e
    }

    /// Pieces searched: three, or fewer when fewer are visible.
    pub fn search_depth(visible: usize) -> (d: usize)
        ensures
            d == if visible < 3 { visible } else { 3 },
    {
        if visible < 3 {
            visible
        } else {
            3
        }
    }

    /// Score of one plan: the evaluation, plus 5000 per chain and a
    /// hundredth of the points when the plan fires.
    pub fn score_plan(&self, g: &Grid, m: &MoveSummary) -> (r: i128)
        requires
            g.wf(),
        ensures
            r == evaluation(self.evaluator, g@, *m) + chain_bonus(*m, 5000),
    {
        self.evaluator.evaluate(g, m) + chain_bonus_exec(m, 5000)
    }
}

/// The weights of the stable player: shape and connection count more,
/// chains less.
pub open spec fn stable_weights() -> Evaluator {
    let d = default_weights();
    Evaluator {
        valley: (d.valley * 3) as i32,
        ridge: (d.ridge * 3) as i32,
        ideal_height_diff: (d.ideal_height_diff * 2) as i32,
        ideal_height_diff_sq: (d.ideal_height_diff_sq * 2) as i32,
        third_column_height: (d.third_column_height * 2) as i32,
        unreachable_space: (d.unreachable_space * 3) as i32,
        connectivity_2: (d.connectivity_2 * 2) as i32,
        connectivity_3: (d.connectivity_3 * 2) as i32,
        chain: (d.chain * 7 / 10) as i32,
        chain_score: (d.chain_score * 7 / 10) as i32,
        chigiri: (d.chigiri * 2) as i32,
        move_frame: (d.move_frame * 2) as i32,
        gtr_base_1: (d.gtr_base_1 * 2) as i32,
        gtr_base_2: (d.gtr_base_2 * 2) as i32,
        gtr_base_3: (d.gtr_base_3 * 2) as i32,
        ..d
    }
}

/// Sum over the first n columns of (6 h - total)^2: 216 times the variance.
pub open spec fn spread_total(hs: Seq<int>, n: int) -> int
    decreases n,
{
    if n <= 0 {
        0
    } else {
        spread_total(hs, n - 1) + (6 * hs[n - 1] - total_height(hs)) * (6 * hs[n - 1] - total_height(hs))
    }
}

/// Penalty for the steps between neighbouring columns i - 1 and i, i in 1..n.
pub open spec fn step_penalty(hs: Seq<int>, n: int) -> int
    decreases n,
{
    if n <= 1 {
        0
    } else {
        let diff = if hs[n - 1] >= hs[n - 2] {
            hs[n - 1] - hs[n - 2]
        } else {
            hs[n - 2] - hs[n - 1]
        };
        step_penalty(hs, n - 1) + if diff > 3 {
            diff * 50
        } else {
            0
        }
    }
}

/// Stability of a grid: minus a hundred times the variance of the heights
/// (rounded toward zero), minus 50 per unit of a step above 3 between
/// neighbours, minus 100 per row the third column stands above row 10.
pub open spec fn stability(g: Seq<PuyoColor>) -> int {
    let hs = heights_of(g);
    -((100 * spread_total(hs, 6)) / 216) - step_penalty(hs, 6) - if hs[2] > 10 {
        (hs[2] - 10) * 100
    } else {
        0
    }
}

/// The grid is lost: the third column reaches row 12.
pub open spec fn is_dead(g: Seq<PuyoColor>) -> bool {
    cell_at(g, 3, 12) != PuyoColor::Empty
}

/// Columns among the first n whose hidden top row is filled.
pub open spec fn top_row_count(g: Seq<PuyoColor>, n: int) -> int
    decreases n,
{
    if n <= 0 {
        0
    } else {
        top_row_count(g, n - 1) + if cell_at(g, n, 13) != PuyoColor::Empty {
            1int
        } else {
            0
        }
    }
}

fn spread_sum(hs: &Vec<usize>, Ghost(h): Ghost<Seq<int>>) -> (r: i128)
    requires
        heights_match(hs@, h),
    ensures
        r == spread_total(h, 6),
        0 <= r <= 6 * 10000,
{
    let total = height_sum(hs, Ghost(h));
    let mut acc: i128 = 0;
    let mut i: usize = 0;
    while i < 6
        invariant
            heights_match(hs@, h),
            i <= 6,
            total == total_height(h),
            0 <= total <= 78,
            acc == spread_total(h, i as int),
            0 <= acc <= 10000 * i,
        decreases 6 - i,
    {
        let dev: i128 = 6 * (hs[i] as i128) - total;
        assert(0 <= dev * dev <= 10000) by (nonlinear_arith)
            requires
                -100 <= dev <= 100,
        ;
        acc = acc + dev * dev;
        i = i + 1;
    }
    acc
}

fn step_sum(hs: &Vec<usize>, Ghost(h): Ghost<Seq<int>>) -> (r: i128)
    requires
        heights_match(hs@, h),
    ensures
        r == step_penalty(h, 6),
        0 <= r <= 6 * 650,
{
    let mut acc: i128 = 0;
    let mut i: usize = 1;
    while i < 6
        invariant
            heights_match(hs@, h),
            1 <= i <= 6,
            acc == step_penalty(h, i as int),
            0 <= acc <= 650 * i,
        decreases 6 - i,
    {
        let diff: i128 = if hs[i] >= hs[i - 1] {
            (hs[i] - hs[i - 1]) as i128
        } else {
            (hs[i - 1] - hs[i]) as i128
        };
        if diff > 3 {
            acc = acc + diff * 50;
        }
        i = i + 1;
    }
    acc
}

/// A player that keeps the grid flat and safe.
pub struct StableAI {
    pub evaluator: Evaluator,
}

impl StableAI {
    pub fn new_customize(evaluator: Evaluator) -> (a: StableAI)
        ensures
            a.evaluator == evaluator,
    {
        StableAI { evaluator }
    }

    pub fn new() -> (a: StableAI)
        ensures
            a.evaluator == stable_weights(),
    {
        StableAI { evaluator: Self::create_evaluator() }
    }

    pub fn create_evaluator() -> (e: Evaluator)
        ensures
            e == stable_weights(),
    {
        let mut e = Evaluator::default_table();
        e.valley = e.valley * 3;
        e.ridge = e.ridge * 3;
        e.ideal_height_diff = e.ideal_height_diff * 2;
        e.ideal_height_diff_sq = e.ideal_height_diff_sq * 2;
        e.third_column_height = e.third_column_height * 2;
        e.unreachable_space = e.unreachable_space * 3;
        e.connectivity_2 = e.connectivity_2 * 2;
        e.connectivity_3 = e.connectivity_3 * 2;
        e.chain = e.chain * 7 / 10;
        e.chain_score = e.chain_score * 7 / 10;
        e.chigiri = e.chigiri * 2;
        e.move_frame = e.move_frame * 2;
        e.gtr_base_1 = e.gtr_base_1 * 2;
        e.gtr_base_2 = e.gtr_base_2 * 2;
        e.gtr_base_3 = e.gtr_base_3 * 2;
        e
    }

    /// Pieces searched: two, or fewer when fewer are visible.
    pub fn search_depth(visible: usize) -> (d: usize)
        ensures
            d == if visible < 2 { visible } else { 2 },
    {
        if visible < 2 {
            visible
        } else {
            2
        }
    }

    pub fn evaluate_stability(g: &Grid) -> (r: i128)
        requires
            g.wf(),
        ensures
            r == stability(g@),
            -40000 <= r <= 0,
    {
        let hs = g.heights();
        let ghost h = heights_of(g@);
        assert(heights_match(hs@, h));
        let spread = spread_sum(&hs, Ghost(h));
        let steps = step_sum(&hs, Ghost(h));
        let tall: i128 = if hs[2] > 10 {
            (hs[2] as i128 - 10) * 100
        } else {
            0
        };
        -((100 * spread) / 216) - steps - tall
    }

    /// Score of one plan: the evaluation and the stability, minus 100000
    /// when the grid is lost and 5000 per filled cell of the hidden top row.
    pub fn score_plan(&self, g: &Grid, m: &MoveSummary) -> (r: i128)
        requires
            g.wf(),
        ensures
            r == evaluation(self.evaluator, g@, *m) + stability(g@) - (if is_dead(g@) {
                100000int
            } else {
                0
            }) - 5000 * top_row_count(g@, 6),
    {
        let mut score = self.evaluator.evaluate(g, m) + Self::evaluate_stability(g);
        if !g.is_empty(3, 12) {
            score = score - 100000;
        }
        let mut x: usize = 1;
        let mut filled: i128 = 0;
        while x <= 6
            invariant
                g.wf(),
                1 <= x <= 7,
                filled == top_row_count(g@, x - 1),
                0 <= filled < x,
            decreases 7 - x,
        {
            if !g.is_empty(x, 13) {
                filled = filled + 1;
            }
            x = x + 1;
        }
        score - 5000 * filled
    }
}

/// Index of the first highest score, if any.
pub fn best_index(scores: &Vec<i128>) -> (r: Option<usize>)
    ensures
        scores@.len() == 0 <==> r is None,
        r matches Some(k) ==> k < scores@.len() && (forall|i: int| 0 <= i < scores@.len() ==> #[trigger] scores@[i] <= scores@[k as int])
            && (forall|i: int| 0 <= i < k ==> #[trigger] scores@[i] < scores@[k as int]),
{
    if scores.len() == 0 {
        return None;
    }
    let mut best: usize = 0;
    let mut i: usize = 1;
    while i < scores.len()
        invariant
            1 <= i <= scores@.len(),
            best < i,
            forall|j: int| 0 <= j < i ==> #[trigger] scores@[j] <= scores@[best as int],
            forall|j: int| 0 <= j < best ==> #[trigger] scores@[j] < scores@[best as int],
        decreases scores@.len() - i,
    {
        if scores[i] > scores[best] {
            best = i;
        }
        i = i + 1;
    }
    Some(best)
}

/// The decision to play from scored plans, and which plan gave it: the
/// first decision of the first plan with the highest score; the default and
/// no plan when there is none.
pub fn choose_plan(firsts: &Vec<Decision>, scores: &Vec<i128>) -> (r: (Decision, Option<usize>))
    requires
        firsts@.len() == scores@.len(),
    ensures
        scores@.len() == 0 <==> r.1 is None,
        r.1 is None ==> r.0 == default_spec(),
        r.1 matches Some(k) ==> {
            &&& k < scores@.len()
            &&& r.0 == firsts@[k as int]
            &&& forall|i: int| 0 <= i < scores@.len() ==> #[trigger] scores@[i] <= scores@[k as int]
            &&& forall|i: int| 0 <= i < k ==> #[trigger] scores@[i] < scores@[k as int]
        },
{
    match best_index(scores) {
        Some(k) => (firsts[k], Some(k)),
        None => (Decision::default_decision(), None),
    }
}

/// The player that searches deep with a beam, votes over several sampled
/// futures, and weighs the chain potential of each grid.
pub struct ChainPotentialAI {
    pub evaluator: Evaluator,
}

/// Pieces visible from which the opening book is no longer consulted.
pub const OPENING_TURNS: usize = 5;

/// Independent searches when part of the queue is hidden.
pub const MONTE_CARLO_POOL: usize = 10;

/// Weight of the chain potential in a candidate's score.
pub const POTENTIAL_WEIGHT: i128 = 20;

/// What the evaluator learns of a resolved placement.
pub open spec fn summary_of(e: Expansion, r: Resolution) -> MoveSummary {
    MoveSummary {
        chain_count: r.chain_count,
        chain_score: r.chain_score,
        frames: r.frames,
        potential: r.potential,
        split: e.split,
    }
}

impl ChainPotentialAI {
    /// Score of a placement of the beam: the points of its chains when it
    /// fires; otherwise the evaluation of the grid it leaves plus 20 times
    /// its chain potential.
    pub fn candidate_score(&self, e: &Expansion, r: &Resolution) -> (s: i128)
        requires
            r.grid.wf(),
        ensures
            r.chain_count > 0 ==> s == r.chain_score,
            r.chain_count == 0 ==> s == evaluation(self.evaluator, r.grid@, summary_of(*e, *r)) + POTENTIAL_WEIGHT * r.potential,
    {
        if r.chain_count > 0 {
            return r.chain_score as i128;
        }
        let m = MoveSummary {
            chain_count: r.chain_count,
            chain_score: r.chain_score,
            frames: r.frames,
            potential: r.potential,
            split: e.split,
        };
        self.evaluator.evaluate(&r.grid, &m) + POTENTIAL_WEIGHT * (r.potential as i128)
    }

    pub fn new() -> (a: ChainPotentialAI)
        ensures
            a.evaluator == default_weights(),
    {
        ChainPotentialAI { evaluator: Evaluator::default_table() }
    }

    /// Depth and width of the search for a think budget: (20, 100) up to 2
    /// frames, (30, 200) up to 8, (40, 400) beyond; no budget counts as 0.
    pub fn search_parameters(think_frame: Option<usize>) -> (p: (usize, usize))
        ensures
            p == match think_frame {
                None => (20usize, 100usize),
                Some(f) => if f <= 2 { (20usize, 100usize) } else if f <= 8 { (30usize, 200usize) } else { (40usize, 400usize) },
            },
    {
        let f = match think_frame {
            Some(f) => f,
            None => 0,
        };
        if f <= 2 {
            (20, 100)
        } else if f <= 8 {
            (30, 200)
        } else {
            (40, 400)
        }
    }

    /// The opening book is consulted for the first few turns only.
    pub fn consults_opening_book(tumo_index: usize) -> (b: bool)
        ensures
            b == (tumo_index < OPENING_TURNS),
    {
        tumo_index < OPENING_TURNS
    }
}

/// Searches to run: `parallel` when part of the queue is hidden, else one.
pub fn pool_size(visible: usize, depth: usize, parallel: usize) -> (p: usize)
    ensures
        p == if visible < depth { parallel } else { 1 },
{
    if visible < depth {
        parallel
    } else {
        1
    }
}

/// Random pieces needed to extend the visible queue to the search depth.
pub fn padding_needed(visible: usize, depth: usize) -> (n: usize)
    ensures
        n == if depth > visible { depth - visible } else { 0 },
{
    if depth > visible {
        depth - visible
    } else {
        0
    }
}

/// A beam-search player after takapt's design, run over several sampled futures.
pub struct TakaptAI {
    pub beam_width: usize,
    pub beam_depth: usize,
    pub parallel: usize,
}

impl TakaptAI {
    pub fn new_customize(beam_width: usize, beam_depth: usize, parallel: usize) -> (a: TakaptAI)
        ensures
            a.beam_width == beam_width,
            a.beam_depth == beam_depth,
            a.parallel == parallel,
    {
        TakaptAI { beam_width, beam_depth, parallel }
    }

    pub fn new() -> (a: TakaptAI)
        ensures
            a.beam_width == 400,
            a.beam_depth == 20,
            a.parallel == 5,
    {
        TakaptAI { beam_width: 400, beam_depth: 20, parallel: 5 }
    }
}

/// Stage of the game, by turn and mean height.
#[derive(Clone, Copy, Debug, PartialEq, Eq, Structural)]
pub enum Phase {
    /// Building the shape.
    Opening,
    /// Preparing a chain.
    Middle,
    /// Firing.
    Endgame,
}

/// The stage: opening before turn 15 or under a mean height of 4, middle
/// before turn 35 or under a mean height of 7, endgame after.
pub open spec fn phase_of(g: Seq<PuyoColor>, tumo_index: int) -> Phase {
    let s = total_height(heights_of(g));
    if tumo_index < 15 || s < 24 {
        Phase::Opening
    } else if tumo_index < 35 || s < 42 {
        Phase::Middle
    } else {
        Phase::Endgame
    }
}

/// Weights for the opening: shape and connection first.
pub open spec fn hybrid_stable_weights() -> Evaluator {
    let d = default_weights();
    Evaluator {
        valley: (d.valley * 2) as i32,
        ridge: (d.ridge * 2) as i32,
        ideal_height_diff: (d.ideal_height_diff * 2) as i32,
        connectivity_2: (d.connectivity_2 * 15 / 10) as i32,
        connectivity_3: (d.connectivity_3 * 15 / 10) as i32,
        third_column_height: (d.third_column_height * 15 / 10) as i32,
        gtr_base_1: (d.gtr_base_1 * 3) as i32,
        gtr_base_2: (d.gtr_base_2 * 3) as i32,
        gtr_base_3: (d.gtr_base_3 * 3) as i32,
        ..d
    }
}

/// Weights for the middle and the end: chains first, shape kept.
pub open spec fn hybrid_chain_weights() -> Evaluator {
    let d = default_weights();
    Evaluator {
        chain: (d.chain * 2) as i32,
        chain_score: (d.chain_score * 2) as i32,
        potential_main_chain: (d.potential_main_chain * 2) as i32,
        potential_main_chain_sq: (d.potential_main_chain_sq * 15 / 10) as i32,
        potential_sub_chain: (d.potential_sub_chain * 15 / 10) as i32,
        valley: (d.valley * 8 / 10) as i32,
        ridge: (d.ridge * 8 / 10) as i32,
        ..d
    }
}

/// What the phase adds to the evaluation of a plan.
pub open spec fn phase_bonus(phase: Phase, g: Seq<PuyoColor>, m: MoveSummary, opponent_third: Option<usize>) -> int {
    match phase {
        Phase::Opening => if height_at(g, 3) > 8 {
            -1000
        } else {
            0
        },
        Phase::Middle => if m.chain_count == 0 {
            100 * sized_cells(g, 3, 78)
        } else {
            0
        },
        Phase::Endgame => chain_bonus(m, 3000) + match opponent_third {
            Some(h) => if h > 10 && m.chain_count > 3 {
                5000int
            } else {
                0
            },
            None => 0,
        },
    }
}

/// A player that builds shape first and turns to chains as the game goes on.
pub struct HybridAI {
    pub stable_evaluator: Evaluator,
    pub chain_evaluator: Evaluator,
}

impl HybridAI {
    /// The two tables of this player; the given table is not used.
    pub fn new_customize(_base_evaluator: Evaluator) -> (a: HybridAI)
        ensures
            a.stable_evaluator == hybrid_stable_weights(),
            a.chain_evaluator == hybrid_chain_weights(),
    {
        HybridAI { stable_evaluator: Self::create_stable_evaluator(), chain_evaluator: Self::create_chain_evaluator() }
    }

    pub fn new() -> (a: HybridAI)
        ensures
            a.stable_evaluator == hybrid_stable_weights(),
            a.chain_evaluator == hybrid_chain_weights(),
    {
        HybridAI { stable_evaluator: Self::create_stable_evaluator(), chain_evaluator: Self::create_chain_evaluator() }
    }

    pub fn create_stable_evaluator() -> (e: Evaluator)
        ensures
            e == hybrid_stable_weights(),
    {
        let mut e = Evaluator::default_table();
        e.valley = e.valley * 2;
        e.ridge = e.ridge * 2;
        e.ideal_height_diff = e.ideal_height_diff * 2;
        e.connectivity_2 = e.connectivity_2 * 15 / 10;
        e.connectivity_3 = e.connectivity_3 * 15 / 10;
        e.third_column_height = e.third_column_height * 15 / 10;
        e.gtr_base_1 = e.gtr_base_1 * 3;
        e.gtr_base_2 = e.gtr_base_2 * 3;
        e.gtr_base_3 = e.gtr_base_3 * 3;
        e
    }

    pub fn create_chain_evaluator() -> (e: Evaluator)
        ensures
            e == hybrid_chain_weights(),
    {
        let mut e = Evaluator::default_table();
        e.chain = e.chain * 2;
        e.chain_score = e.chain_score * 2;
        e.potential_main_chain = e.potential_main_chain * 2;
        e.potential_main_chain_sq = e.potential_main_chain_sq * 15 / 10;
        e.potential_sub_chain = e.potential_sub_chain * 15 / 10;
        e.valley = e.valley * 8 / 10;
        e.ridge = e.ridge * 8 / 10;
        e
    }

    pub fn get_phase(g: &Grid, tumo_index: usize) -> (p: Phase)
        requires
            g.wf(),
        ensures
            p == phase_of(g@, tumo_index as int),
    {
        let hs = g.heights();
        let ghost h = heights_of(g@);
        assert(heights_match(hs@, h));
        let s = height_sum(&hs, Ghost(h));
        if tumo_index < 15 || s < 24 {
            Phase::Opening
        } else if tumo_index < 35 || s < 42 {
            Phase::Middle
        } else {
            Phase::Endgame
        }
    }

    pub fn select_evaluator(&self, phase: &Phase) -> (e: &Evaluator)
        ensures
            *phase == Phase::Opening ==> *e == self.stable_evaluator,
            *phase != Phase::Opening ==> *e == self.chain_evaluator,
    {
        match phase {
            Phase::Opening => &self.stable_evaluator,
            Phase::Middle | Phase::Endgame => &self.chain_evaluator,
        }
    }

    /// Pieces searched: 2, 3 or 4 by phase, or fewer when fewer are visible.
    pub fn search_depth(phase: Phase, visible: usize) -> (d: usize)
        ensures
            d == {
                let want: int = match phase {
                    Phase::Opening => 2,
                    Phase::Middle => 3,
                    Phase::Endgame => 4,
                };
                if visible < want { visible as int } else { want }
            },
    {
        let want: usize = match phase {
            Phase::Opening => 2,
            Phase::Middle => 3,
            Phase::Endgame => 4,
        };
        if visible < want {
            visible
        } else {
            want
        }
    }

    /// Score of one plan in a phase: the phase's evaluation and its bonus.
    /// `opponent_third` is the height of the opponent's third column, if known.
    pub fn score_plan(&self, phase: Phase, g: &Grid, m: &MoveSummary, opponent_third: Option<usize>) -> (r: i128)
        requires
            g.wf(),
        ensures
            r == evaluation(if phase == Phase::Opening { self.stable_evaluator } else { self.chain_evaluator }, g@, *m)
                + phase_bonus(phase, g@, *m, opponent_third),
    {
        let e = self.select_evaluator(&phase);
        let base = e.evaluate(g, m);
        let bonus: i128 = match phase {
            Phase::Opening => if g.height(3) > 8 {
                -1000
            } else {
                0
            },
            Phase::Middle => if m.chain_count == 0 {
                let (_, three) = small_group_cells(g);
                100 * three as i128
            } else {
                0
            },
            Phase::Endgame => {
                let extra: i128 = match opponent_third {
                    Some(h) => if h > 10 && m.chain_count > 3 {
                        5000
                    } else {
                        0
                    },
                    None => 0,
                };
                chain_bonus_exec(m, 3000) + extra
            },
        };
        base + bonus
    }
}

} // verus!
