use vstd::prelude::*;
use crate::ai::TakaptAI;
use crate::color::PuyoColor;
use crate::decision::{precedes, Decision};
use crate::evaluator::{heights_match, height_sum, heights_of, ideal_abs_total, total_height};
use crate::grid::{cell_at, Grid};
use crate::planner::{PlanKind, PlanResult, Resolution};

verus! {

/// Penalty of a filled hidden top row, by column.
pub open spec fn top_row_coef(x: int) -> int {
    if x == 1 || x == 6 {
        1
    } else if x == 2 || x == 4 {
        3
    } else if x == 5 {
        2
    } else {
        0
    }
}

/// Penalty of the filled top-row cells among the first n columns.
pub open spec fn top_row_penalty(g: Seq<PuyoColor>, n: int) -> int
    decreases n,
{
    if n <= 0 {
        0
    } else {
        top_row_penalty(g, n - 1) + if cell_at(g, n, 13) != PuyoColor::Empty {
            top_row_coef(n)
        } else {
            0
        }
    }
}

/// Six times the beam score of a state: the chain score of a placement that
/// fires, 1000 per chain of the best detected chain from 2 chains on, 60
/// times minus the distances of the columns from the ideal profile around
/// the mean height, 10 times the height of the detected chain's ignition
/// above the mean, and the top-row penalties.
pub open spec fn takapt_score6(
    g: Seq<PuyoColor>,
    chain_count: int,
    chain_score: int,
    max_chains: int,
    ignition_y: int,
) -> int {
    let hs = heights_of(g);
    6 * (if chain_count > 0 {
        chain_score
    } else {
        0
    }) + 6000 * (if max_chains >= 2 {
        max_chains
    } else {
        0
    }) - 60 * ideal_abs_total(hs, 6) + 60 * ignition_y - 10 * total_height(hs) - 6 * top_row_penalty(g, 6)
}

/// The best detected chain: the most chains, then the highest ignition row;
/// (0, 0) when nothing was detected.
pub open spec fn is_best_detection(found: Seq<(u32, u32)>, r: (u32, u32)) -> bool {
    &&& forall|i: int|
        0 <= i < found.len() ==> (#[trigger] found[i]).0 < r.0 || (found[i].0 == r.0 && found[i].1 <= r.1)
    &&& (r == (0u32, 0u32) || exists|i: int| 0 <= i < found.len() && found[i] == r)
}

/// Picks the best of the chains found by completing the grid: for each, its
/// chain count and the row at which its triggering block lands.
pub fn best_detection(found: &Vec<(u32, u32)>) -> (r: (u32, u32))
    ensures
        is_best_detection(found@, r),
{
    let mut best: (u32, u32) = (0, 0);
    let mut i: usize = 0;
    while i < found.len()
        invariant
            i <= found@.len(),
            forall|j: int|
                0 <= j < i ==> (#[trigger] found@[j]).0 < best.0 || (found@[j].0 == best.0 && found@[j].1 <= best.1),
            best == (0u32, 0u32) || exists|j: int| 0 <= j < i && found@[j] == best,
        decreases found@.len() - i,
    {
        let f = found[i];
        if f.0 > best.0 || (f.0 == best.0 && f.1 > best.1) {
            best = f;
        }
        i = i + 1;
    }
    best
}

impl TakaptAI {
    /// Six times the beam score of a grid (see `takapt_score6`).
    pub fn evaluate_state(g: &Grid, chain_count: u32, chain_score: u32, max_chains: u32, ignition_y: u32) -> (r: i128)
        requires
            g.wf(),
        ensures
            r == takapt_score6(g@, chain_count as int, chain_score as int, max_chains as int, ignition_y as int),
    {
        let hs = g.heights();
        let ghost h = heights_of(g@);
        assert(heights_match(hs@, h));
        let total = height_sum(&hs, Ghost(h));
        let ab = crate::evaluator::ideal_abs(&hs, Ghost(h));
        let mut pen: i128 = 0;
        let mut x: usize = 1;
        while x <= 6
            invariant
                g.wf(),
                1 <= x <= 7,
                pen == top_row_penalty(g@, x - 1),
                0 <= pen <= 3 * (x - 1),
            decreases 7 - x,
        {
            if !g.is_empty(x, 13) {
                let c: i128 = if x == 1 || x == 6 {
                    1
                } else if x == 2 || x == 4 {
                    3
                } else if x == 5 {
                    2
                } else {
                    0
                };
                pen = pen + c;
            }
            x = x + 1;
        }
        let fired: i128 = if chain_count > 0 {
            chain_score as i128
        } else {
            0
        };
        let detected: i128 = if max_chains >= 2 {
            max_chains as i128
        } else {
            0
        };
        6 * fired + 6000 * detected - 60 * ab + 60 * (ignition_y as i128) - 10 * total - 6 * pen
    }

    /// Score of a candidate of the beam, given the best chain detected on
    /// its grid (chains, ignition row).
    pub fn candidate_score(r: &Resolution, detection: (u32, u32)) -> (s: i128)
        requires
            r.grid.wf(),
        ensures
            s == takapt_score6(r.grid@, r.chain_count as int, r.chain_score as int, detection.0 as int, detection.1 as int),
    {
        Self::evaluate_state(&r.grid, r.chain_count, r.chain_score, detection.0, detection.1)
    }
}

/// The outcome of one sampled search of this player.
pub struct SimulationResult {
    pub decisions: Vec<Decision>,
    pub max_chains: u32,
    /// How the search settled, and the scores of the state it settled on.
    pub kind: PlanKind,
    pub eval_score: i128,
    pub chain_score: u32,
}

impl SimulationResult {
    /// What one search reports to the vote: its decisions, and the chains
    /// of the fired state it settled on (none when it settled on a quiet one).
    pub fn from_plan(plan: PlanResult) -> (r: SimulationResult)
        ensures
            r.decisions@ == plan.decisions@,
            r.max_chains == if plan.kind == PlanKind::Chain || plan.kind == PlanKind::Fire {
                plan.chain_count
            } else {
                0
            },
            r.kind == plan.kind,
            r.eval_score == plan.eval_score,
            r.chain_score == plan.chain_score,
    {
        let max_chains = if plan.kind == PlanKind::Chain || plan.kind == PlanKind::Fire {
            plan.chain_count
        } else {
            0
        };
        SimulationResult {
            decisions: plan.decisions,
            max_chains,
            kind: plan.kind,
            eval_score: plan.eval_score,
            chain_score: plan.chain_score,
        }
    }

    /// The default decision alone, for when no search reported.
    pub fn fallback() -> (r: SimulationResult)
        ensures
            r.decisions@ == seq![Decision { x: 3, r: 0 }],
            r.max_chains == 0,
            r.kind == PlanKind::Fallback,
            r.eval_score == 0,
            r.chain_score == 0,
    {
        let mut decisions: Vec<Decision> = Vec::new();
        decisions.push(Decision::default_decision());
        assert(decisions@ =~= seq![Decision { x: 3, r: 0 }]);
        SimulationResult { decisions, max_chains: 0, kind: PlanKind::Fallback, eval_score: 0, chain_score: 0 }
    }
}

/// The outcome of the chain vote: the result played, and the chains summed
/// and the searches counted for its first decision.
pub struct ChainVerdict {
    pub result: SimulationResult,
    pub chain_sum: u128,
    pub count: u128,
}

/// Slot of a decision in the per-decision sums.
pub open spec fn slot(d: Decision) -> int {
    4 * d.x + d.r
}

/// Sum of the chains reported for first decision d among the reports.
pub open spec fn chain_sum(rs: Seq<(Decision, u32)>, d: Decision) -> int
    decreases rs.len(),
{
    if rs.len() == 0 {
        0
    } else {
        chain_sum(rs.drop_last(), d) + if rs.last().0 == d {
            rs.last().1 as int
        } else {
            0
        }
    }
}

/// Number of reports whose first decision is d.
pub open spec fn vote_count(rs: Seq<(Decision, u32)>, d: Decision) -> int
    decreases rs.len(),
{
    if rs.len() == 0 {
        0
    } else {
        vote_count(rs.drop_last(), d) + if rs.last().0 == d {
            1int
        } else {
            0
        }
    }
}

proof fn lemma_vote_count_chosen(rs: Seq<(Decision, u32)>, d: Decision)
    requires
        vote_count(rs, d) != 0,
    ensures
        exists|q: int| 0 <= q < rs.len() && rs[q].0 == d,
    decreases rs.len(),
{
    if rs.last().0 != d {
        lemma_vote_count_chosen(rs.drop_last(), d);
        let q = choose|q: int| 0 <= q < rs.drop_last().len() && rs.drop_last()[q].0 == d;
        assert(rs[q] == rs.drop_last()[q]);
    } else {
        assert(rs[rs.len() - 1].0 == d);
    }
}

/// Some search found a chain after a valid first decision.
pub open spec fn any_chains(rs: Seq<(Decision, u32)>) -> bool {
    exists|e: Decision| e.is_valid_spec() && #[trigger] chain_sum(rs, e) > 0
}

/// What the election weighs: the chains summed per first decision, or,
/// when no search found any, the number of searches per first decision.
pub open spec fn elect_key(rs: Seq<(Decision, u32)>, e: Decision) -> int {
    if any_chains(rs) {
        chain_sum(rs, e)
    } else {
        vote_count(rs, e)
    }
}

/// `d` has the highest positive key, the first in enumeration order among
/// equals; the default when every key is 0 (no search reported).
pub open spec fn best_by_key(key: spec_fn(Decision) -> int, d: Decision) -> bool {
    ||| (forall|e: Decision| e.is_valid_spec() ==> #[trigger] key(e) == 0) && d == (Decision { x: 3, r: 0 })
    ||| {
        &&& d.is_valid_spec()
        &&& key(d) > 0
        &&& forall|e: Decision| e.is_valid_spec() ==> #[trigger] key(e) <= key(d)
        &&& forall|e: Decision| e.is_valid_spec() && precedes(e, d) ==> #[trigger] key(e) < key(d)
    }
}

/// The decision the reports elect: by summed chains when some search found
/// a chain, else by the number of searches; earlier decisions win ties; the
/// default only when nothing was reported.
pub open spec fn is_elected(rs: Seq<(Decision, u32)>, d: Decision) -> bool {
    best_by_key(|e: Decision| elect_key(rs, e), d)
}

/// The valid decision with the highest positive entry of `keys` (by slot),
/// the first among equals; the default when all are 0.
fn elect(keys: &Vec<u128>, Ghost(key): Ghost<spec_fn(Decision) -> int>) -> (r: (Decision, u128))
    requires
        keys@.len() == 28,
        forall|d: Decision| d.is_valid_spec() ==> #[trigger] key(d) == keys@[slot(d)],
    ensures
        best_by_key(key, r.0),
        r.1 == if r.0.is_valid_spec() { key(r.0) } else { 0 },
        r.1 == 0 ==> forall|e: Decision| e.is_valid_spec() ==> #[trigger] key(e) == 0,
{
    let mut best = Decision::default_decision();
    let mut best_sum: u128 = 0;
    let mut x: usize = 1;
    while x <= 6
        invariant
            keys@.len() == 28,
            forall|d: Decision| d.is_valid_spec() ==> #[trigger] key(d) == keys@[slot(d)],
            1 <= x <= 7,
            best_sum == 0 ==> best == (Decision { x: 3, r: 0 }) && forall|e: Decision| e.is_valid_spec() && e.x < x ==> #[trigger] key(e) == 0,
            best_sum > 0 ==> {
                &&& best.is_valid_spec()
                &&& best.x < x
                &&& key(best) == best_sum
                &&& forall|e: Decision| e.is_valid_spec() && e.x < x ==> #[trigger] key(e) <= best_sum
                &&& forall|e: Decision| e.is_valid_spec() && precedes(e, best) ==> #[trigger] key(e) < best_sum
            },
        decreases 7 - x,
    {
        let mut r: usize = 0;
        while r < 4
            invariant
                keys@.len() == 28,
                forall|d: Decision| d.is_valid_spec() ==> #[trigger] key(d) == keys@[slot(d)],
                1 <= x <= 6,
                r <= 4,
                best_sum == 0 ==> best == (Decision { x: 3, r: 0 }) && forall|e: Decision| e.is_valid_spec() && (e.x < x || (e.x == x && e.r < r)) ==> #[trigger] key(e) == 0,
                best_sum > 0 ==> {
                    &&& best.is_valid_spec()
                    &&& precedes(best, (Decision { x, r })) || best == (Decision { x, r })
                    &&& best.x <= x
                    &&& key(best) == best_sum
                    &&& forall|e: Decision| e.is_valid_spec() && (e.x < x || (e.x == x && e.r < r)) ==> #[trigger] key(e) <= best_sum
                    &&& forall|e: Decision| e.is_valid_spec() && precedes(e, best) ==> #[trigger] key(e) < best_sum
                },
            decreases 4 - r,
        {
            let d = Decision::new(x, r);
            if d.is_valid() {
                let s = keys[4 * x + r];
                assert(s == key(d));
                if s > best_sum {
                    best = d;
                    best_sum = s;
                }
            }
            r = r + 1;
        }
        x = x + 1;
    }
    proof {
        if best_sum == 0 {
            assert(key(best) == 0);
        }
    }
    (best, best_sum)
}

/// Collects the sampled searches of this player and sums, for each first
/// decision, the longest chain each search found after it.
pub struct ChainTally {
    pub sums: Vec<u128>,
    pub counts: Vec<u128>,
    pub results: Vec<SimulationResult>,
    pub reports: Ghost<Seq<(Decision, u32)>>,
}

impl ChainTally {
    pub open spec fn wf(&self) -> bool {
        &&& self.sums@.len() == 28
        &&& self.reports@.len() == self.results@.len()
        &&& forall|i: int|
            0 <= i < self.results@.len() ==> {
                let r = #[trigger] self.results@[i];
                &&& r.decisions@.len() >= 1
                &&& r.decisions@[0].is_valid_spec()
                &&& self.reports@[i] == (r.decisions@[0], r.max_chains)
            }
        &&& forall|d: Decision| d.is_valid_spec() ==> #[trigger] chain_sum(self.reports@, d) == self.sums@[slot(d)]
        &&& self.counts@.len() == 28
        &&& forall|d: Decision| d.is_valid_spec() ==> #[trigger] vote_count(self.reports@, d) == self.counts@[slot(d)]
        &&& forall|i: int| 0 <= i < 28 ==> #[trigger] self.counts@[i] <= self.results@.len()
        &&& forall|i: int| 0 <= i < 28 ==> #[trigger] self.sums@[i] <= self.results@.len() * 0xffff_ffff
    }

    pub fn new() -> (t: ChainTally)
        ensures
            t.wf(),
            t.reports@.len() == 0,
    {
        let mut sums: Vec<u128> = Vec::new();
        let mut i: usize = 0;
        while i < 28
            invariant
                i <= 28,
                sums@.len() == i,
                forall|j: int| 0 <= j < i ==> sums@[j] == 0,
            decreases 28 - i,
        {
            sums.push(0);
            i = i + 1;
        }
        let counts = sums.clone();
        assert(counts@ =~= sums@);
        ChainTally { sums, counts, results: Vec::new(), reports: Ghost(Seq::empty()) }
    }

    /// Takes one search's result: its first decision, if valid, is credited
    /// with the chains it found.
    pub fn record(&mut self, r: SimulationResult)
        requires
            old(self).wf(),
            old(self).results@.len() < usize::MAX,
        ensures
            final(self).wf(),
            r.decisions@.len() >= 1 && r.decisions@[0].is_valid_spec() ==> final(self).reports@ == old(self).reports@.push((r.decisions@[0], r.max_chains))
                && final(self).results@ == old(self).results@.push(r),
            !(r.decisions@.len() >= 1 && r.decisions@[0].is_valid_spec()) ==> final(self).reports@ == old(self).reports@
                && final(self).results@ == old(self).results@,
    {
        if r.decisions.len() == 0 {
            return;
        }
        let d = r.decisions[0];
        if !d.is_valid() {
            return;
        }
        let k = 4 * d.x + d.r;
        let c = self.sums[k];
        let n = self.results.len();
        proof {
            assert(c <= n * 0xffff_ffff);
            assert(n * 0xffff_ffff + 0xffff_ffff <= 0xffff_ffff_ffff_ffff_ffff_ffff_ffff_ffff) by (nonlinear_arith)
                requires
                    n < 0x1_0000_0000_0000_0000,
            ;
            assert((n + 1) * 0xffff_ffff == n * 0xffff_ffff + 0xffff_ffff) by (nonlinear_arith);
        }
        self.sums.set(k, c + r.max_chains as u128);
        let v = self.counts[k];
        assert(v <= n);
        self.counts.set(k, v + 1);
        let ghost old_reports = self.reports@;
        let ghost old_results = self.results@;
        self.reports = Ghost(self.reports@.push((d, r.max_chains)));
        self.results.push(r);
        proof {
            assert(self.reports@.drop_last() =~= old_reports);
            assert(self.reports@.last() == (d, r.max_chains));
            assert forall|e: Decision| e.is_valid_spec() implies #[trigger] vote_count(self.reports@, e) == self.counts@[slot(e)] by {
                assert(vote_count(self.reports@, e) == vote_count(old_reports, e) + if e == d {
                    1int
                } else {
                    0
                });
                if e != d {
                    assert(slot(e) != slot(d));
                }
            }
            assert forall|e: Decision| e.is_valid_spec() implies #[trigger] chain_sum(self.reports@, e) == self.sums@[slot(e)] by {
                assert(chain_sum(self.reports@, e) == chain_sum(old_reports, e) + if e == d {
                    r.max_chains as int
                } else {
                    0
                });
                if e != d {
                    assert(slot(e) != slot(d));
                }
            }
            assert forall|i: int| 0 <= i < 28 implies #[trigger] self.sums@[i] <= self.results@.len() * 0xffff_ffff by {
                assert((n + 1) * 0xffff_ffff == n * 0xffff_ffff + 0xffff_ffff) by (nonlinear_arith);
                assert(0 <= n * 0xffff_ffff) by (nonlinear_arith);
            }
            assert forall|i: int| 0 <= i < self.results@.len() implies {
                let q = #[trigger] self.results@[i];
                &&& q.decisions@.len() >= 1
                &&& q.decisions@[0].is_valid_spec()
                &&& self.reports@[i] == (q.decisions@[0], q.max_chains)
            } by {
                if i < old_results.len() {
                    assert(self.results@[i] == old_results[i]);
                }
            }
        }
    }

    /// The elected decision, its chain sum and its number of searches.
    fn elected(&self) -> (r: (Decision, u128, u128))
        requires
            self.wf(),
        ensures
            is_elected(self.reports@, r.0),
            r.1 == (if r.0.is_valid_spec() { chain_sum(self.reports@, r.0) } else { 0 }),
            r.2 == (if r.0.is_valid_spec() { vote_count(self.reports@, r.0) } else { 0 }),
    {
        let ghost rs = self.reports@;
        let ghost keyf = |e: Decision| elect_key(rs, e);
        let ghost chainf = |e: Decision| chain_sum(rs, e);
        let ghost votef = |e: Decision| vote_count(rs, e);
        let (by_chain, chain_total) = elect(&self.sums, Ghost(chainf));
        let best: Decision;
        let best_sum: u128;
        if chain_total > 0 {
            proof {
                assert(chainf(by_chain) > 0);
                assert(any_chains(rs));
                assert forall|e: Decision| #[trigger] keyf(e) == chainf(e) by {}
                assert(keyf =~= chainf);
            }
            best = by_chain;
            best_sum = chain_total;
        } else {
            proof {
                if any_chains(rs) {
                    let e = choose|e: Decision| e.is_valid_spec() && #[trigger] chain_sum(rs, e) > 0;
                    assert(chainf(e) == 0);
                }
                assert forall|e: Decision| #[trigger] keyf(e) == votef(e) by {}
                assert(keyf =~= votef);
            }
            let (by_vote, _) = elect(&self.counts, Ghost(votef));
            proof {
                if by_vote.is_valid_spec() {
                    assert(chainf(by_vote) == 0);
                }
            }
            best = by_vote;
            best_sum = 0;
        }
        assert(is_elected(rs, best));
        let count: u128 = if best.is_valid() {
            self.counts[4 * best.x + best.r]
        } else {
            0
        };
        (best, best_sum, count)
    }

    /// The elected decision, played with the decisions of the last result
    /// that chose it; the default alone when no result did.
    pub fn finish(self) -> (v: ChainVerdict)
        requires
            self.wf(),
        ensures
            exists|d: Decision| #![auto] is_elected(self.reports@, d)
                && v.chain_sum == (if d.is_valid_spec() { chain_sum(self.reports@, d) } else { 0 })
                && v.count == (if d.is_valid_spec() { vote_count(self.reports@, d) } else { 0 })
                && ((exists|i: int| 0 <= i < self.results@.len() && self.results@[i].decisions@[0] == d && self.results@[i] == v.result
                    && forall|j: int| i < j < self.results@.len() ==> self.results@[j].decisions@[0] != d)
                || ((forall|i: int| 0 <= i < self.results@.len() ==> self.results@[i].decisions@[0] != d)
                    && v.result.decisions@ == seq![Decision { x: 3, r: 0 }] && v.result.kind == PlanKind::Fallback
                    && v.result.max_chains == 0 && v.count == 0)),
    {
        let ghost rs = self.reports@;
        let (best, best_sum, count) = self.elected();
        let mut results = self.results;
        let mut i: usize = results.len();
        while i > 0
            invariant
                i <= results@.len(),
                results@ == self.results@,
                rs == self.reports@,
                is_elected(rs, best),
                best_sum == (if best.is_valid_spec() { chain_sum(rs, best) } else { 0 }),
                count == (if best.is_valid_spec() { vote_count(rs, best) } else { 0 }),
                forall|j: int| i <= j < results@.len() ==> (#[trigger] results@[j]).decisions@[0] != best,
                forall|j: int| 0 <= j < results@.len() ==> (#[trigger] results@[j]).decisions@.len() >= 1,
            decreases i,
        {
            let j = i - 1;
            if results[j].decisions[0] == best {
                let ghost chosen = results@[j as int];
                let result = results.swap_remove(j);
                assert(result == chosen);
                assert(self.results@[j as int].decisions@[0] == best && forall|q: int| j < q < self.results@.len() ==> self.results@[q].decisions@[0] != best);
                return ChainVerdict { result, chain_sum: best_sum, count };
            }
            i = j;
        }
        assert(forall|q: int| 0 <= q < self.results@.len() ==> self.results@[q].decisions@[0] != best);
        proof {
            if best.is_valid_spec() && vote_count(rs, best) != 0 {
                lemma_vote_count_chosen(rs, best);
                let q = choose|q: int| 0 <= q < rs.len() && rs[q].0 == best;
                assert(self.results@[q].decisions@[0] == best);
            }
        }
        ChainVerdict { result: SimulationResult::fallback(), chain_sum: best_sum, count }
    }
}

proof fn lemma_sums_remove(s: Seq<(Decision, u32)>, i: int, d: Decision)
    requires
        0 <= i < s.len(),
    ensures
        chain_sum(s, d) == chain_sum(s.remove(i), d) + if s[i].0 == d { s[i].1 as int } else { 0 },
        vote_count(s, d) == vote_count(s.remove(i), d) + if s[i].0 == d { 1int } else { 0 },
    decreases s.len(),
{
    if i == s.len() - 1 {
        assert(s.remove(i) =~= s.drop_last());
    } else {
        lemma_sums_remove(s.drop_last(), i, d);
        assert(s.drop_last().remove(i) =~= s.remove(i).drop_last());
        assert(s.remove(i).last() == s.last());
    }
}

proof fn lemma_sums_permutation(a: Seq<(Decision, u32)>, b: Seq<(Decision, u32)>, d: Decision)
    requires
        a.to_multiset() == b.to_multiset(),
    ensures
        chain_sum(a, d) == chain_sum(b, d),
        vote_count(a, d) == vote_count(b, d),
    decreases a.len(),
{
    broadcast use vstd::seq_lib::group_to_multiset_ensures;
    if a.len() == 0 {
        assert(b.to_multiset().len() == 0);
        assert(b.len() == 0);
    } else {
        let x = a.last();
        assert(a.to_multiset().count(x) > 0) by {
            assert(a.contains(x)) by {
                assert(a[a.len() - 1] == x);
            }
        }
        assert(b.contains(x));
        let j = choose|j: int| 0 <= j < b.len() && b[j] == x;
        assert(a.drop_last() =~= a.remove(a.len() - 1));
        assert(a.drop_last().to_multiset() == a.to_multiset().remove(x));
        assert(b.remove(j).to_multiset() == b.to_multiset().remove(x));
        lemma_sums_permutation(a.drop_last(), b.remove(j), d);
        lemma_sums_remove(b, j, d);
    }
}

/// At most one decision is elected.
pub proof fn lemma_elected_unique(rs: Seq<(Decision, u32)>, d1: Decision, d2: Decision)
    requires
        is_elected(rs, d1),
        is_elected(rs, d2),
    ensures
        d1 == d2,
{
    let key = |e: Decision| elect_key(rs, e);
    if d1 != d2 {
        if best_by_key(key, d1) && key(d1) > 0 && d1.is_valid_spec() {
            if d2.is_valid_spec() && key(d2) > 0 {
                if precedes(d1, d2) {
                    assert(key(d1) < key(d2));
                } else {
                    assert(precedes(d2, d1));
                    assert(key(d2) < key(d1));
                }
            } else {
                assert(key(d1) == 0);
            }
        } else if d2.is_valid_spec() && key(d2) > 0 {
            assert(key(d2) == 0);
        }
    }
}

/// The chain vote does not depend on the order in which the searches
/// reported: two arrival orders of the same reports elect the same decision.
pub proof fn lemma_election_ignores_arrival_order(a: Seq<(Decision, u32)>, b: Seq<(Decision, u32)>, da: Decision, db: Decision)
    requires
        a.to_multiset() == b.to_multiset(),
        is_elected(a, da),
        is_elected(b, db),
    ensures
        da == db,
{
    assert forall|e: Decision| chain_sum(a, e) == chain_sum(b, e) && vote_count(a, e) == vote_count(b, e) by {
        lemma_sums_permutation(a, b, e);
    }
    assert(any_chains(a) == any_chains(b)) by {
        if any_chains(a) {
            let e = choose|e: Decision| e.is_valid_spec() && #[trigger] chain_sum(a, e) > 0;
            assert(chain_sum(b, e) > 0);
        }
        if any_chains(b) {
            let e = choose|e: Decision| e.is_valid_spec() && #[trigger] chain_sum(b, e) > 0;
            assert(chain_sum(a, e) > 0);
        }
    }
    let ka = |e: Decision| elect_key(a, e);
    let kb = |e: Decision| elect_key(b, e);
    assert forall|e: Decision| #[trigger] ka(e) == kb(e) by {}
    assert(ka =~= kb);
    assert(is_elected(a, db));
    lemma_elected_unique(a, da, db);
}

} // verus!
