use vstd::prelude::*;
use vstd::multiset::Multiset;
use crate::decision::{all_valid_decisions, precedes, Decision};
use crate::planner::{PlanKind, PlanResult};

verus! {

/// Slot of a decision in the vote counters.
pub open spec fn vote_slot(d: Decision) -> int {
    4 * d.x + d.r
}

/// `d` takes the vote: a valid decision with the most votes, and no valid
/// decision before it in enumeration order has as many.
pub open spec fn is_winner(votes: Multiset<Decision>, d: Decision) -> bool {
    &&& d.is_valid_spec()
    &&& forall|e: Decision| e.is_valid_spec() ==> #[trigger] votes.count(e) <= votes.count(d)
    &&& forall|e: Decision| e.is_valid_spec() && precedes(e, d) ==> #[trigger] votes.count(e) < votes.count(d)
}

/// The combined answer of several searches.
pub struct Verdict {
    pub plan: PlanResult,
    /// Votes for the chosen first decision.
    pub votes: usize,
    /// Searches that were started.
    pub pool: usize,
}

/// Collects the results of independent searches and votes on the first move.
pub struct VoteTally {
    pub counts: Vec<usize>,
    pub results: Vec<PlanResult>,
    pub pool: usize,
    pub votes: Ghost<Multiset<Decision>>,
}

impl VoteTally {
    pub open spec fn wf(&self) -> bool {
        &&& self.counts@.len() == 28
        &&& self.votes@.len() == self.results@.len()
        &&& forall|d: Decision| d.is_valid_spec() ==> #[trigger] self.votes@.count(d) == self.counts@[vote_slot(d)]
        &&& forall|i: int| 0 <= i < 28 ==> #[trigger] self.counts@[i] <= self.results@.len()
        &&& forall|d: Decision| #[trigger] self.votes@.count(d) > 0 ==> d.is_valid_spec()
        &&& forall|i: int|
            0 <= i < self.results@.len() ==> {
                let r = #[trigger] self.results@[i];
                &&& r.decisions@.len() >= 1
                &&& self.votes@.count(r.decisions@[0]) > 0
            }
        &&& forall|d: Decision|
            d.is_valid_spec() && #[trigger] self.votes@.count(d) > 0 ==> exists|i: int|
                0 <= i < self.results@.len() && (#[trigger] self.results@[i]).decisions@[0] == d
    }

    /// An empty tally for `pool` searches.
    pub fn new(pool: usize) -> (t: VoteTally)
        ensures
            t.wf(),
            t.pool == pool,
            t.votes@ == Multiset::<Decision>::empty(),
            t.results@.len() == 0,
    {
        let mut counts: Vec<usize> = Vec::new();
        let mut i: usize = 0;
        while i < 28
            invariant
                i <= 28,
                counts@.len() == i,
                forall|j: int| 0 <= j < i ==> counts@[j] == 0,
            decreases 28 - i,
        {
            counts.push(0);
            i = i + 1;
        }
        VoteTally { counts, results: Vec::new(), pool, votes: Ghost(Multiset::empty()) }
    }

    /// Takes one search's result. A result that fired a chain over the
    /// threshold is handed back at once: it is the answer. Otherwise its first
    /// decision gets a vote, if it has a valid one.
    pub fn record(&mut self, r: PlanResult) -> (done: Option<PlanResult>)
        requires
            old(self).wf(),
            old(self).results@.len() < usize::MAX,
        ensures
            final(self).wf(),
            final(self).pool == old(self).pool,
            r.kind == PlanKind::Fire ==> done == Some(r) && final(self).votes@ == old(self).votes@,
            r.kind != PlanKind::Fire ==> done is None,
            r.kind == PlanKind::Fire ==> final(self).results@ == old(self).results@,
            r.kind != PlanKind::Fire && r.decisions@.len() >= 1 && r.decisions@[0].is_valid_spec()
                ==> final(self).votes@ == old(self).votes@.insert(r.decisions@[0])
                && final(self).results@ == old(self).results@.push(r),
            r.kind != PlanKind::Fire && !(r.decisions@.len() >= 1 && r.decisions@[0].is_valid_spec())
                ==> final(self).votes@ == old(self).votes@ && final(self).results@ == old(self).results@,
    {
        if r.kind == PlanKind::Fire {
            return Some(r);
        }
        if r.decisions.len() == 0 {
            return None;
        }
        let d = r.decisions[0];
        if !d.is_valid() {
            return None;
        }
        let slot = 4 * d.x + d.r;
        let c = self.counts[slot];
        self.counts.set(slot, c + 1);
        let ghost old_results = self.results@;
        let ghost old_votes = self.votes@;
        self.results.push(r);
        self.votes = Ghost(self.votes@.insert(d));
        proof {
            assert forall|e: Decision| e.is_valid_spec() implies #[trigger] self.votes@.count(e) == self.counts@[vote_slot(e)] by {
                if e != d {
                    assert(vote_slot(e) != vote_slot(d));
                }
            }
            assert forall|e: Decision|
                e.is_valid_spec() && #[trigger] self.votes@.count(e) > 0 implies exists|i: int|
                    0 <= i < self.results@.len() && (#[trigger] self.results@[i]).decisions@[0] == e by {
                if e == d {
                    assert(self.results@[old_results.len() as int].decisions@[0] == e);
                } else {
                    let i = choose|i: int| 0 <= i < old_results.len() && (#[trigger] old_results[i]).decisions@[0] == e;
                    assert(self.results@[i] == old_results[i]);
                }
            }
            assert forall|i: int| 0 <= i < self.results@.len() implies {
                let q = #[trigger] self.results@[i];
                &&& q.decisions@.len() >= 1
                &&& self.votes@.count(q.decisions@[0]) > 0
            } by {
                if i < old_results.len() {
                    assert(self.results@[i] == old_results[i]);
                }
            }
        }
        None
    }

    /// The vote: the first decision with the most votes, ties going to the
    /// earlier decision in enumeration order, played with the first result
    /// that chose it, as it was recorded. With no vote at all, the default.
    pub fn finish(self) -> (v: Verdict)
        requires
            self.wf(),
        ensures
            v.pool == self.pool,
            self.votes@.len() == 0 ==> v.plan.kind == PlanKind::Fallback && v.votes == 0,
            self.votes@.len() > 0 ==> {
                &&& v.plan.decisions@.len() >= 1
                &&& is_winner(self.votes@, v.plan.decisions@[0])
                &&& v.votes == self.votes@.count(v.plan.decisions@[0])
                &&& exists|i: int| 0 <= i < self.results@.len() && #[trigger] self.results@[i] == v.plan
                    && forall|j: int| 0 <= j < i ==> (#[trigger] self.results@[j]).decisions@[0] != v.plan.decisions@[0]
            },
    {
        let all = all_valid_decisions();
        let mut best: usize = 0;
        let mut a: usize = 1;
        while a < all.len()
            invariant
                self.wf(),
                all@.len() == 22,
                forall|c: int| 0 <= c < all@.len() ==> (#[trigger] all@[c]).is_valid_spec(),
                forall|c: int, b: int| 0 <= c < b < all@.len() ==> precedes(all@[c], all@[b]),
                forall|d: Decision| d.is_valid_spec() ==> all@.contains(d),
                1 <= a <= 22,
                best < a,
                forall|c: int| 0 <= c < a ==> self.votes@.count(#[trigger] all@[c]) <= self.votes@.count(all@[best as int]),
                forall|c: int| 0 <= c < best ==> self.votes@.count(#[trigger] all@[c]) < self.votes@.count(all@[best as int]),
            decreases 22 - a,
        {
            let db = all[best];
            let da = all[a];
            if self.counts[4 * da.x + da.r] > self.counts[4 * db.x + db.r] {
                best = a;
            }
            a = a + 1;
        }
        let w = all[best];
        let ghost votes = self.votes@;
        proof {
            assert forall|e: Decision| e.is_valid_spec() implies #[trigger] votes.count(e) <= votes.count(w) by {
                let c = choose|c: int| 0 <= c < all@.len() && all@[c] == e;
            }
            assert forall|e: Decision| e.is_valid_spec() && precedes(e, w) implies #[trigger] votes.count(e) < votes.count(w) by {
                let c = choose|c: int| 0 <= c < all@.len() && all@[c] == e;
                if c >= best {
                    if c > best {
                        assert(precedes(w, e));
                    }
                }
            }
        }
        let n = self.counts[4 * w.x + w.r];
        if n == 0 {
            proof {
                if votes.len() > 0 {
                    let r0 = self.results@[0];
                    assert(votes.count(r0.decisions@[0]) > 0);
                }
            }
            return Verdict { plan: PlanResult::fallback(), votes: 0, pool: self.pool };
        }
        let pool = self.pool;
        let ghost vl = self.votes@.len();
        assert(vl == self.results@.len());
        assert(exists|j: int| 0 <= j < self.results@.len() && (#[trigger] self.results@[j]).decisions@[0] == w);
        let mut results = self.results;
        let mut i: usize = 0;
        while i < results.len()
            invariant
                results@ == self.results@,
                pool == self.pool,
                vl == results@.len(),
                vl == self.votes@.len(),
                votes == self.votes@,
                is_winner(votes, w),
                n == votes.count(w),
                i <= results@.len(),
                forall|j: int| 0 <= j < i ==> (#[trigger] results@[j]).decisions@[0] != w,
                exists|j: int| 0 <= j < results@.len() && (#[trigger] results@[j]).decisions@[0] == w,
                forall|j: int| 0 <= j < results@.len() ==> (#[trigger] results@[j]).decisions@.len() >= 1,
            decreases results@.len() - i,
        {
            if results[i].decisions[0] == w {
                let ghost chosen = results@[i as int];
                let plan = results.swap_remove(i);
                assert(plan == chosen);
                assert(self.results@[i as int] == plan);
                return Verdict { plan, votes: n, pool };
            }
            i = i + 1;
        }
        Verdict { plan: PlanResult::fallback(), votes: 0, pool }
    }
}

/// At most one decision takes the vote.
pub proof fn lemma_winner_unique(votes: Multiset<Decision>, d1: Decision, d2: Decision)
    requires
        is_winner(votes, d1),
        is_winner(votes, d2),
    ensures
        d1 == d2,
{
    if d1 != d2 {
        if precedes(d1, d2) {
            assert(votes.count(d1) < votes.count(d2));
        } else {
            assert(precedes(d2, d1));
            assert(votes.count(d2) < votes.count(d1));
        }
    }
}

/// The vote depends on which first decisions the searches reported, not on
/// the order in which they arrived: two arrival orders of the same reports
/// elect the same decision.
pub proof fn lemma_vote_ignores_arrival_order(a: Seq<Decision>, b: Seq<Decision>, da: Decision, db: Decision)
    requires
        a.to_multiset() == b.to_multiset(),
        is_winner(a.to_multiset(), da),
        is_winner(b.to_multiset(), db),
    ensures
        da == db,
{
    lemma_winner_unique(a.to_multiset(), da, db);
}

} // verus!
