use vstd::prelude::*;
use crate::beam::stable_top;
use crate::color::Kumipuyo;
use crate::decision::{all_valid_decisions, default_spec, precedes, Decision};
use crate::color::PuyoColor;
use crate::grid::{dropped, is_legal, is_split, Grid};

verus! {

/// The usual fire threshold: a fired state whose chain scores at least this
/// many points ends the search at once.
pub const FIRE_THRESHOLD: u32 = 80000;


/// One node of the beam: a grid and the decisions that reached it from the root.
pub struct SearchState {
    pub grid: Grid,
    pub decisions: Vec<Decision>,
    pub eval_score: i128,
    pub chain_potential: u32,
    pub chain_score: u32,
    pub chain_count: u32,
    /// The grid on which each decision was played, in order.
    pub path: Ghost<Seq<Seq<PuyoColor>>>,
}

/// Each decision of `s` was legal on the grid it was played on, the first
/// on `root`.
pub open spec fn played_legally(s: SearchState, root: Seq<PuyoColor>) -> bool {
    &&& s.path@.len() == s.decisions@.len()
    &&& s.path@.len() > 0 ==> s.path@[0] == root
    &&& forall|j: int| 0 <= j < s.decisions@.len() ==> is_legal(#[trigger] s.path@[j], s.decisions@[j])
}

impl SearchState {
    /// The root state: the grid itself and no decision yet.
    pub fn from_field(g: &Grid) -> (s: SearchState)
        ensures
            s.grid@ == g@,
            s.decisions@.len() == 0,
            s.eval_score == 0,
            s.chain_potential == 0,
            s.chain_score == 0,
            s.chain_count == 0,
            s.path@.len() == 0,
    {
        SearchState {
            grid: g.duplicate(),
            decisions: Vec::new(),
            eval_score: 0,
            chain_potential: 0,
            chain_score: 0,
            chain_count: 0,
            path: Ghost(Seq::empty()),
        }
    }

    pub fn first_decision(&self) -> (d: Option<Decision>)
        ensures
            self.decisions@.len() == 0 ==> d is None,
            self.decisions@.len() > 0 ==> d == Some(self.decisions@[0]),
    {
        if self.decisions.len() == 0 {
            None
        } else {
            Some(self.decisions[0])
        }
    }

    pub open spec fn same_as(&self, o: &SearchState) -> bool {
        &&& self.grid@ == o.grid@
        &&& self.decisions@ == o.decisions@
        &&& self.eval_score == o.eval_score
        &&& self.chain_potential == o.chain_potential
        &&& self.chain_score == o.chain_score
        &&& self.chain_count == o.chain_count
        &&& self.path == o.path
    }

    pub fn duplicate(&self) -> (s: SearchState)
        ensures
            s.same_as(self),
    {
        let decisions = self.decisions.clone();
        assert(decisions@ =~= self.decisions@);
        SearchState {
            grid: self.grid.duplicate(),
            decisions,
            eval_score: self.eval_score,
            chain_potential: self.chain_potential,
            chain_score: self.chain_score,
            chain_count: self.chain_count,
            path: Ghost(self.path@),
        }
    }
}

/// A placement that the grid engine is asked to resolve: the piece of the
/// current depth dropped on a beam state by a legal decision.
pub struct Expansion {
    pub parent: usize,
    pub decision: Decision,
    pub dropped: Grid,
    pub split: bool,
}

/// What the grid engine reports for one expansion: the grid once every chain
/// has resolved, the chains and their score, the frames taken, and the chain
/// potential of the resulting grid.
pub struct Resolution {
    pub grid: Grid,
    pub chain_count: u32,
    pub chain_score: u32,
    pub frames: u32,
    pub potential: u32,
}

#[derive(Clone, Copy, Debug, PartialEq, Eq, Structural)]
pub enum PlanKind {
    /// A chain at or above the fire threshold was found.
    Fire,
    /// A fired state below the threshold, preferred at the end of the search.
    Chain,
    /// The best state of the search.
    Build,
    /// No legal placement was found: the default decision.
    Fallback,
}

/// The outcome of one search: the decisions to play, first one committed.
pub struct PlanResult {
    pub decisions: Vec<Decision>,
    pub kind: PlanKind,
    pub eval_score: i128,
    pub chain_potential: u32,
    pub chain_score: u32,
    pub chain_count: u32,
}

impl PlanResult {
    /// The default decision alone.
    pub fn fallback() -> (r: PlanResult)
        ensures
            r.decisions@ == seq![default_spec()],
            r.kind == PlanKind::Fallback,
    {
        let mut decisions: Vec<Decision> = Vec::new();
        decisions.push(Decision::default_decision());
        assert(decisions@ =~= seq![default_spec()]);
        PlanResult {
            decisions,
            kind: PlanKind::Fallback,
            eval_score: 0,
            chain_potential: 0,
            chain_score: 0,
            chain_count: 0,
        }
    }

    fn from_state(s: &SearchState, kind: PlanKind) -> (r: PlanResult)
        ensures
            r.decisions@ == s.decisions@,
            r.kind == kind,
            r.eval_score == s.eval_score,
            r.chain_score == s.chain_score,
            r.chain_count == s.chain_count,
    {
        let decisions = s.decisions.clone();
        assert(decisions@ =~= s.decisions@);
        PlanResult {
            decisions,
            kind,
            eval_score: s.eval_score,
            chain_potential: s.chain_potential,
            chain_score: s.chain_score,
            chain_count: s.chain_count,
        }
    }
}

/// Index of the fired state to play at once: among those whose chain scores
/// at least `threshold`, the last of the highest scores.
pub fn fire_choice(fired: &Vec<SearchState>, threshold: u32) -> (r: Option<usize>)
    ensures
        r is Some <==> exists|i: int| 0 <= i < fired@.len() && #[trigger] fired@[i].chain_score >= threshold,
        r matches Some(k) ==> {
            &&& k < fired@.len()
            &&& fired@[k as int].chain_score >= threshold
            &&& forall|i: int| 0 <= i < fired@.len() && fired@[i].chain_score >= threshold ==> #[trigger] fired@[i].chain_score <= fired@[k as int].chain_score
            &&& forall|i: int| k < i < fired@.len() && fired@[i].chain_score >= threshold ==> #[trigger] fired@[i].chain_score < fired@[k as int].chain_score
        },
{
    let mut best: Option<usize> = None;
    let mut i: usize = 0;
    while i < fired.len()
        invariant
            i <= fired@.len(),
            best is None <==> forall|j: int| 0 <= j < i ==> #[trigger] fired@[j].chain_score < threshold,
            best matches Some(k) ==> {
                &&& k < i
                &&& fired@[k as int].chain_score >= threshold
                &&& forall|j: int| 0 <= j < i && fired@[j].chain_score >= threshold ==> #[trigger] fired@[j].chain_score <= fired@[k as int].chain_score
                &&& forall|j: int| k < j < i && fired@[j].chain_score >= threshold ==> #[trigger] fired@[j].chain_score < fired@[k as int].chain_score
            },
        decreases fired@.len() - i,
    {
        if fired[i].chain_score >= threshold {
            match best {
                None => {
                    best = Some(i);
                },
                Some(k) => {
                    if fired[i].chain_score >= fired[k].chain_score {
                        best = Some(i);
                    }
                },
            }
        }
        i = i + 1;
    }
    best
}

/// Index of the fired state preferred at the end of a search: the most chains,
/// then the highest score the player gave it, the first of equals.
pub fn best_fired(fired: &Vec<SearchState>) -> (r: usize)
    requires
        fired@.len() > 0,
    ensures
        r < fired@.len(),
        forall|i: int| 0 <= i < fired@.len() ==> !fired_better(#[trigger] fired@[i], fired@[r as int]),
        forall|i: int| 0 <= i < r ==> fired_better(fired@[r as int], #[trigger] fired@[i]),
{
    let mut best: usize = 0;
    let mut i: usize = 1;
    while i < fired.len()
        invariant
            1 <= i <= fired@.len(),
            best < i,
            forall|j: int| 0 <= j < i ==> !fired_better(#[trigger] fired@[j], fired@[best as int]),
            forall|j: int| 0 <= j < best ==> fired_better(fired@[best as int], #[trigger] fired@[j]),
        decreases fired@.len() - i,
    {
        let a = &fired[i];
        let b = &fired[best];
        if a.chain_count > b.chain_count || (a.chain_count == b.chain_count && a.eval_score > b.eval_score) {
            best = i;
        }
        i = i + 1;
    }
    best
}

/// The longest chain among fired states, and the first decision of the
/// first state that fired it; (0, none) when none fired a chain.
pub open spec fn longest_of(s: Seq<SearchState>) -> (u32, Option<Decision>)
    decreases s.len(),
{
    if s.len() == 0 {
        (0, None)
    } else {
        let prev = longest_of(s.drop_last());
        if s.last().chain_count > prev.0 {
            (s.last().chain_count, Some(s.last().decisions@[0]))
        } else {
            prev
        }
    }
}

/// Position k holds the preferred fired state of `all`: none beats it, and
/// it beats every state before it.
pub open spec fn is_best_fired(all: Seq<SearchState>, k: int) -> bool {
    &&& 0 <= k < all.len()
    &&& forall|i: int| 0 <= i < all.len() ==> !fired_better(#[trigger] all[i], all[k])
    &&& forall|i: int| 0 <= i < k ==> fired_better(all[k], #[trigger] all[i])
}

/// The preferred state of two pools taken together, the first pool before
/// the second: (true, i) for `a[i]`, (false, i) for `b[i]`.
pub fn best_of_pools(a: &Vec<SearchState>, b: &Vec<SearchState>) -> (r: (bool, usize))
    requires
        a@.len() + b@.len() > 0,
    ensures
        r.0 ==> r.1 < a@.len() && is_best_fired(a@ + b@, r.1 as int),
        !r.0 ==> r.1 < b@.len() && is_best_fired(a@ + b@, a@.len() + r.1),
{
    let ghost all = a@ + b@;
    if b.len() == 0 {
        let i = best_fired(a);
        assert(all =~= a@);
        return (true, i);
    }
    if a.len() == 0 {
        let j = best_fired(b);
        assert(all =~= b@);
        return (false, j);
    }
    let i = best_fired(a);
    let j = best_fired(b);
    let x = &a[i];
    let y = &b[j];
    if y.chain_count > x.chain_count || (y.chain_count == x.chain_count && y.eval_score > x.eval_score) {
        proof {
            assert forall|q: int| 0 <= q < all.len() implies !fired_better(#[trigger] all[q], all[a@.len() + j]) by {
                if q < a@.len() {
                    assert(all[q] == a@[q]);
                } else {
                    assert(all[q] == b@[q - a@.len()]);
                }
            }
            assert forall|q: int| 0 <= q < a@.len() + j implies fired_better(all[a@.len() + j], #[trigger] all[q]) by {
                if q < a@.len() {
                    assert(all[q] == a@[q]);
                    assert(!fired_better(a@[q], a@[i as int]));
                } else {
                    assert(all[q] == b@[q - a@.len()]);
                }
            }
        }
        (false, j)
    } else {
        proof {
            assert forall|q: int| 0 <= q < all.len() implies !fired_better(#[trigger] all[q], all[i as int]) by {
                if q < a@.len() {
                    assert(all[q] == a@[q]);
                } else {
                    assert(all[q] == b@[q - a@.len()]);
                    assert(!fired_better(b@[q - a@.len()], b@[j as int]));
                }
            }
            assert forall|q: int| 0 <= q < i implies fired_better(all[i as int], #[trigger] all[q]) by {
                assert(all[q] == a@[q]);
            }
        }
        (true, i)
    }
}

/// State `a` beats state `b` at the final choice among fired states.
pub open spec fn fired_better(a: SearchState, b: SearchState) -> bool {
    a.chain_count > b.chain_count || (a.chain_count == b.chain_count && a.eval_score > b.eval_score)
}

/// Every decision of the list is valid.
pub open spec fn all_valid(ds: Seq<Decision>) -> bool {
    forall|j: int| 0 <= j < ds.len() ==> (#[trigger] ds[j]).is_valid_spec()
}

proof fn lemma_all_valid_push(ds: Seq<Decision>, d: Decision)
    requires
        all_valid(ds),
        d.is_valid_spec(),
    ensures
        all_valid(ds.push(d)),
{
    assert forall|j: int| 0 <= j < ds.push(d).len() implies (#[trigger] ds.push(d)[j]).is_valid_spec() by {
        if j < ds.len() {
            assert(ds.push(d)[j] == ds[j]);
        }
    }
}

/// Placements among the first n that fired nothing.
pub open spec fn quiet_count(res: Seq<Resolution>, n: int) -> int
    decreases n,
{
    if n <= 0 {
        0
    } else {
        quiet_count(res, n - 1) + if res[n - 1].chain_count == 0 {
            1int
        } else {
            0
        }
    }
}

/// What a fired state records: its decisions, the player's score of it,
/// its chain score and its chains.
pub open spec fn fired_view(s: SearchState) -> (Seq<Decision>, i128, u32, u32) {
    (s.decisions@, s.eval_score, s.chain_score, s.chain_count)
}

/// The fired states that the first n expansions of a depth add, in order:
/// one for each placement that fired a chain.
pub open spec fn fired_views(
    beam: Seq<SearchState>,
    exps: Seq<Expansion>,
    res: Seq<Resolution>,
    scores: Seq<i128>,
    n: int,
) -> Seq<(Seq<Decision>, i128, u32, u32)>
    decreases n,
{
    if n <= 0 {
        Seq::empty()
    } else {
        let prev = fired_views(beam, exps, res, scores, n - 1);
        if res[n - 1].chain_count > 0 {
            prev.push(
                (
                    beam[exps[n - 1].parent as int].decisions@.push(exps[n - 1].decision),
                    scores[n - 1],
                    res[n - 1].chain_score,
                    res[n - 1].chain_count,
                ),
            )
        } else {
            prev
        }
    }
}

/// `after` is `before` with the fired states `added` appended.
pub open spec fn appended(before: Seq<SearchState>, after: Seq<SearchState>, added: Seq<(Seq<Decision>, i128, u32, u32)>) -> bool {
    &&& after.len() == before.len() + added.len()
    &&& forall|i: int| 0 <= i < before.len() ==> #[trigger] after[i] == before[i]
    &&& forall|j: int| 0 <= j < added.len() ==> fired_view(#[trigger] after[before.len() + j]) == added[j]
}

/// Every state of the beam starts with the same decision.
pub open spec fn same_first(b: Seq<SearchState>) -> bool {
    forall|i: int| 0 <= i < b.len() ==> #[trigger] b[i].decisions@[0] == b[0].decisions@[0]
}

/// Order in which expansions are listed: by beam state, then by decision.
pub open spec fn expansion_before(a: Expansion, b: Expansion) -> bool {
    a.parent < b.parent || (a.parent == b.parent && precedes(a.decision, b.decision))
}

/// One beam search over a piece sequence, advanced one depth at a time. The
/// grid engine resolves the placements that `expansions` lists; `advance`
/// takes its answers and decides what survives.
pub struct BeamSearch {
    pub root: Grid,
    pub pieces: Vec<Kumipuyo>,
    pub visible: usize,
    pub limit: usize,
    pub width: usize,
    pub depth: usize,
    pub beam: Vec<SearchState>,
    pub fired: Vec<SearchState>,
    pub speculative: Vec<SearchState>,
    pub fire: Option<usize>,
    pub fire_threshold: u32,
    pub finished: bool,
    /// For each beam state, the position of the expansion it came from at
    /// the last depth.
    pub origin: Ghost<Seq<int>>,
}

impl BeamSearch {
    pub open spec fn wf(&self) -> bool {
        &&& self.wf_core()
        &&& !self.finished && self.depth == 0 ==> self.fired@.len() == 0 && self.speculative@.len() == 0
        &&& self.fire matches Some(k) ==> self.finished && k < self.fired@.len()
            && self.fired@[k as int].chain_score >= self.fire_threshold
            && forall|i: int| 0 <= i < self.fired@.len() && self.fired@[i].chain_score >= self.fire_threshold
                ==> #[trigger] self.fired@[i].chain_score <= self.fired@[k as int].chain_score
            && forall|i: int| k < i < self.fired@.len() && self.fired@[i].chain_score >= self.fire_threshold
                ==> #[trigger] self.fired@[i].chain_score < self.fired@[k as int].chain_score
        &&& self.fire is None ==> forall|i: int|
            0 <= i < self.fired@.len() ==> #[trigger] self.fired@[i].chain_score < self.fire_threshold
    }

    /// Everything that well-formedness asks but what it asks of the fire threshold.
    pub open spec fn wf_core(&self) -> bool {
        &&& self.root.wf()
        &&& self.limit <= self.pieces@.len()
        &&& self.depth <= self.limit
        &&& self.width >= 1
        &&& self.beam@.len() >= 1
        &&& self.depth == 0 ==> self.beam@.len() == 1 && self.beam@[0].grid@ == self.root@
        &&& forall|i: int|
            0 <= i < self.beam@.len() ==> {
                let s = #[trigger] self.beam@[i];
                &&& s.grid.wf()
                &&& s.decisions@.len() == self.depth
                &&& all_valid(s.decisions@)
                &&& played_legally(s, self.root@)
                &&& self.depth > 0 ==> is_legal(self.root@, s.decisions@[0])
            }
        &&& forall|i: int|
            0 <= i < self.fired@.len() ==> {
                let s = #[trigger] self.fired@[i];
                &&& 1 <= s.decisions@.len() <= self.limit
                &&& all_valid(s.decisions@)
                &&& played_legally(s, self.root@)
                &&& is_legal(self.root@, s.decisions@[0])
            }
        &&& !self.finished ==> self.depth < self.limit
        &&& self.limit == 0 ==> self.fired@.len() == 0 && self.speculative@.len() == 0
        &&& forall|i: int|
            0 <= i < self.speculative@.len() ==> {
                let s = #[trigger] self.speculative@[i];
                &&& 1 <= s.decisions@.len() <= self.limit
                &&& all_valid(s.decisions@)
                &&& played_legally(s, self.root@)
                &&& is_legal(self.root@, s.decisions@[0])
            }
        &&& self.beam@.len() <= if self.width > 1 { self.width as int } else { 1 }
        &&& self.finished && self.depth == 0 && self.fired@.len() == 0 && self.speculative@.len() == 0 ==> (self.limit == 0
            || forall|d: Decision| !is_legal(self.root@, d))
    }

    /// The piece placed at the current depth.
    pub open spec fn piece(&self) -> Kumipuyo {
        self.pieces@[self.depth as int]
    }

    /// `e` lists exactly the legal placements of the current piece on the
    /// beam states, in order.
    pub open spec fn expansions_ok(&self, e: Seq<Expansion>) -> bool {
        &&& forall|k: int|
            0 <= k < e.len() ==> {
                let x = #[trigger] e[k];
                &&& x.parent < self.beam@.len()
                &&& is_legal(self.beam@[x.parent as int].grid@, x.decision)
                &&& x.dropped.wf()
                &&& x.dropped@ == dropped(self.beam@[x.parent as int].grid@, self.piece(), x.decision)
                &&& x.split == is_split(self.beam@[x.parent as int].grid@, x.decision)
            }
        &&& forall|k: int, l: int| 0 <= k < l < e.len() ==> expansion_before(e[k], e[l])
        &&& forall|i: int, d: Decision|
            0 <= i < self.beam@.len() && is_legal(self.beam@[i].grid@, d) ==> exists|k: int|
                0 <= k < e.len() && (#[trigger] e[k]).parent == i && e[k].decision == d
    }

    /// A search from `root` over the visible pieces followed by `padding`
    /// (pieces drawn at random for the hidden part of the queue), at most
    /// `depth` deep and `width` wide, ending at once on a visible chain
    /// worth `fire_threshold` points.
    pub fn new(
        root: &Grid,
        visible: &Vec<Kumipuyo>,
        padding: &Vec<Kumipuyo>,
        depth: usize,
        width: usize,
        fire_threshold: u32,
    ) -> (s: BeamSearch)
        requires
            root.wf(),
            width >= 1,
            visible@.len() + padding@.len() <= usize::MAX,
        ensures
            s.wf(),
            s.root@ == root@,
            s.pieces@ == visible@ + padding@,
            s.visible == visible@.len(),
            s.limit == if depth <= s.pieces@.len() { depth as int } else { s.pieces@.len() as int },
            s.width == width,
            s.fire_threshold == fire_threshold,
            s.depth == 0,
            s.finished == (s.limit == 0),
    {
        let mut pieces: Vec<Kumipuyo> = Vec::new();
        let mut i: usize = 0;
        while i < visible.len()
            invariant
                i <= visible@.len(),
                pieces@ == visible@.subrange(0, i as int),
            decreases visible@.len() - i,
        {
            pieces.push(visible[i]);
            i = i + 1;
        }
        let mut j: usize = 0;
        while j < padding.len()
            invariant
                j <= padding@.len(),
                pieces@ == visible@ + padding@.subrange(0, j as int),
            decreases padding@.len() - j,
        {
            pieces.push(padding[j]);
            j = j + 1;
        }
        assert(padding@.subrange(0, padding@.len() as int) =~= padding@);
        assert(visible@.subrange(0, visible@.len() as int) =~= visible@);
        let limit = if depth <= pieces.len() {
            depth
        } else {
            pieces.len()
        };
        let mut beam: Vec<SearchState> = Vec::new();
        beam.push(SearchState::from_field(root));
        BeamSearch {
            root: root.duplicate(),
            pieces,
            visible: visible.len(),
            limit,
            width,
            depth: 0,
            beam,
            fired: Vec::new(),
            speculative: Vec::new(),
            fire: None,
            fire_threshold,
            finished: limit == 0,
            origin: Ghost(Seq::empty()),
        }
    }

    /// The legal placements of the current piece on every beam state: beam
    /// states in order, and for each the decisions in enumeration order.
    pub fn expansions(&self) -> (e: Vec<Expansion>)
        requires
            self.wf(),
            !self.finished,
        ensures
            self.expansions_ok(e@),
    {
        let all = all_valid_decisions();
        let piece = self.pieces[self.depth];
        let mut e: Vec<Expansion> = Vec::new();
        let mut i: usize = 0;
        while i < self.beam.len()
            invariant
                self.wf(),
                !self.finished,
                piece == self.piece(),
                i <= self.beam@.len(),
                all@.len() == 22,
                forall|a: int| 0 <= a < all@.len() ==> (#[trigger] all@[a]).is_valid_spec(),
                forall|a: int, b: int| 0 <= a < b < all@.len() ==> precedes(all@[a], all@[b]),
                forall|d: Decision| d.is_valid_spec() ==> all@.contains(d),
                forall|k: int|
                    0 <= k < e@.len() ==> {
                        let x = #[trigger] e@[k];
                        &&& x.parent < i
                        &&& is_legal(self.beam@[x.parent as int].grid@, x.decision)
                        &&& x.dropped.wf()
                        &&& x.dropped@ == dropped(self.beam@[x.parent as int].grid@, self.piece(), x.decision)
                        &&& x.split == is_split(self.beam@[x.parent as int].grid@, x.decision)
                    },
                forall|k: int, l: int| 0 <= k < l < e@.len() ==> expansion_before(e@[k], e@[l]),
                forall|b: int, d: Decision|
                    0 <= b < i && is_legal(self.beam@[b].grid@, d) ==> exists|k: int|
                        0 <= k < e@.len() && (#[trigger] e@[k]).parent == b && e@[k].decision == d,
            decreases self.beam@.len() - i,
        {
            let g = &self.beam[i].grid;
            let ghost start = e@.len();
            let mut a: usize = 0;
            while a < all.len()
                invariant
                    self.wf(),
                    piece == self.piece(),
                    i < self.beam@.len(),
                    *g == self.beam@[i as int].grid,
                    g.wf(),
                    a <= all@.len(),
                    all@.len() == 22,
                    forall|c: int| 0 <= c < all@.len() ==> (#[trigger] all@[c]).is_valid_spec(),
                    forall|c: int, b: int| 0 <= c < b < all@.len() ==> precedes(all@[c], all@[b]),
                    start <= e@.len(),
                    forall|k: int|
                        0 <= k < e@.len() ==> {
                            let x = #[trigger] e@[k];
                            &&& x.parent <= i
                            &&& is_legal(self.beam@[x.parent as int].grid@, x.decision)
                            &&& x.dropped.wf()
                            &&& x.dropped@ == dropped(self.beam@[x.parent as int].grid@, self.piece(), x.decision)
                            &&& x.split == is_split(self.beam@[x.parent as int].grid@, x.decision)
                        },
                    forall|k: int| 0 <= k < start ==> (#[trigger] e@[k]).parent < i,
                    forall|k: int| start <= k < e@.len() ==> (#[trigger] e@[k]).parent == i && exists|c: int| 0 <= c < a && all@[c] == e@[k].decision,
                    forall|k: int, l: int| 0 <= k < l < e@.len() ==> expansion_before(e@[k], e@[l]),
                    forall|b: int, d: Decision|
                        0 <= b < i && is_legal(self.beam@[b].grid@, d) ==> exists|k: int|
                            0 <= k < e@.len() && (#[trigger] e@[k]).parent == b && e@[k].decision == d,
                    forall|c: int|
                        0 <= c < a && is_legal(g@, all@[c]) ==> exists|k: int|
                            0 <= k < e@.len() && (#[trigger] e@[k]).parent == i && e@[k].decision == all@[c],
                decreases all@.len() - a,
            {
                let d = all[a];
                if g.can_drop(&d) {
                    let dg = g.drop_kumipuyo(&piece, &d);
                    let split = g.is_split_drop(&d);
                    let ghost prev = e@;
                    let x = Expansion { parent: i, decision: d, dropped: dg, split };
                    proof {
                        assert forall|k: int| 0 <= k < prev.len() implies expansion_before(prev[k], x) by {
                            if k >= start {
                                let c = choose|c: int| 0 <= c < a && all@[c] == prev[k].decision;
                                assert(precedes(all@[c], all@[a as int]));
                            }
                        }
                    }
                    e.push(x);
                    proof {
                        assert(e@[e@.len() - 1] == x);
                        assert forall|k: int| start <= k < e@.len() implies (#[trigger] e@[k]).parent == i && exists|c: int| 0 <= c < a + 1 && all@[c] == e@[k].decision by {
                            if k < prev.len() {
                                assert(e@[k] == prev[k]);
                                let c = choose|c: int| 0 <= c < a && all@[c] == prev[k].decision;
                                assert(0 <= c < a + 1 && all@[c] == e@[k].decision);
                            } else {
                                assert(all@[a as int] == e@[k].decision);
                            }
                        }
                        assert forall|b: int, dd: Decision|
                            0 <= b < i && is_legal(self.beam@[b].grid@, dd) implies exists|k: int|
                                0 <= k < e@.len() && (#[trigger] e@[k]).parent == b && e@[k].decision == dd by {
                            let k = choose|k: int| 0 <= k < prev.len() && (#[trigger] prev[k]).parent == b && prev[k].decision == dd;
                            assert(e@[k] == prev[k]);
                        }
                        assert forall|c: int|
                            0 <= c < a + 1 && is_legal(g@, all@[c]) implies exists|k: int|
                                0 <= k < e@.len() && (#[trigger] e@[k]).parent == i && e@[k].decision == all@[c] by {
                            if c < a {
                                let k = choose|k: int| 0 <= k < prev.len() && (#[trigger] prev[k]).parent == i && prev[k].decision == all@[c];
                                assert(e@[k] == prev[k]);
                            } else {
                                assert(e@[e@.len() - 1].decision == all@[c]);
                            }
                        }
                    }
                }
                a = a + 1;
            }
            proof {
                assert forall|d: Decision| is_legal(self.beam@[i as int].grid@, d) implies exists|k: int|
                    0 <= k < e@.len() && (#[trigger] e@[k]).parent == i && e@[k].decision == d by {
                    assert(all@.contains(d));
                    let c = choose|c: int| 0 <= c < all@.len() && all@[c] == d;
                    assert(is_legal(g@, all@[c]));
                }
            }
            i = i + 1;
        }
        e
    }

    /// Every beam state starts with the same decision.
    pub fn converged(&self) -> (b: bool)
        requires
            self.wf(),
            self.depth > 0,
        ensures
            b == forall|i: int| 0 <= i < self.beam@.len() ==> #[trigger] self.beam@[i].decisions@[0] == self.beam@[0].decisions@[0],
    {
        let first = self.beam[0].decisions[0];
        let mut i: usize = 1;
        while i < self.beam.len()
            invariant
                self.wf(),
                self.depth > 0,
                1 <= i <= self.beam@.len(),
                first == self.beam@[0].decisions@[0],
                forall|j: int| 0 <= j < i ==> #[trigger] self.beam@[j].decisions@[0] == first,
            decreases self.beam@.len() - i,
        {
            if self.beam[i].decisions[0] != first {
                return false;
            }
            i = i + 1;
        }
        true
    }

    /// Takes the engine's answers for the expansions of the current depth.
    /// A placement that fires a chain ends its branch: it joins the fired
    /// pool when it places a visible piece, the speculative pool when it
    /// places a sampled one. If a fired state scores at least the fire
    /// threshold, the search ends on it. Every other placement becomes a
    /// candidate with its score from `scores` (the player's heuristic), and
    /// the stable top `width` candidates form the next beam. The search
    /// ends when no candidate is left, the depth limit is reached, or every
    /// beam state starts with the same decision.
    pub fn advance(&mut self, exps: &Vec<Expansion>, res: &Vec<Resolution>, scores: &Vec<i128>)
        requires
            old(self).wf(),
            !old(self).finished,
            old(self).expansions_ok(exps@),
            res@.len() == exps@.len(),
            scores@.len() == exps@.len(),
            forall|k: int| 0 <= k < res@.len() ==> (#[trigger] res@[k]).grid.wf(),
        ensures
            final(self).wf(),
            final(self).fire_threshold == old(self).fire_threshold,
            final(self).root@ == old(self).root@,
            final(self).limit == old(self).limit,
            final(self).fire is Some <==> exists|i: int|
                0 <= i < final(self).fired@.len() && #[trigger] final(self).fired@[i].chain_score >= final(self).fire_threshold,
            exps@.len() == 0 ==> final(self).finished,
            old(self).depth < old(self).visible ==> appended(old(self).fired@, final(self).fired@, fired_views(old(self).beam@, exps@, res@, scores@, exps@.len() as int))
                && final(self).speculative@ == old(self).speculative@,
            old(self).depth >= old(self).visible ==> appended(old(self).speculative@, final(self).speculative@, fired_views(old(self).beam@, exps@, res@, scores@, exps@.len() as int))
                && final(self).fired@ == old(self).fired@,
            final(self).finished == (final(self).fire is Some || quiet_count(res@, exps@.len() as int) == 0
                || old(self).depth + 1 == old(self).limit || same_first(final(self).beam@)),
            final(self).fire is Some || quiet_count(res@, exps@.len() as int) == 0 ==> final(self).depth == old(self).depth
                && final(self).beam == old(self).beam,
            final(self).fire is None && quiet_count(res@, exps@.len() as int) > 0 ==> final(self).depth == old(self).depth + 1,
            !final(self).finished ==> final(self).depth == old(self).depth + 1,
            final(self).depth == old(self).depth + 1 ==> {
                let b = final(self).beam@;
                let o = final(self).origin@;
                &&& o.len() == b.len()
                &&& b.len() == if quiet_count(res@, exps@.len() as int) < old(self).width { quiet_count(res@, exps@.len() as int) } else { old(self).width as int }
                &&& forall|i: int, j: int| 0 <= i < j < b.len() ==> scores@[o[i]] > scores@[o[j]] || (scores@[o[i]] == scores@[o[j]] && #[trigger] o[i] < #[trigger] o[j])
                &&& forall|i: int|
                    0 <= i < b.len() ==> {
                        let k = #[trigger] o[i];
                        &&& 0 <= k < exps@.len()
                        &&& res@[k].chain_count == 0
                        &&& b[i].eval_score == scores@[k]
                        &&& b[i].grid@ == res@[k].grid@
                        &&& b[i].decisions@ == old(self).beam@[exps@[k].parent as int].decisions@.push(exps@[k].decision)
                        &&& b[i].chain_potential == res@[k].potential
                        &&& b[i].chain_score == 0
                        &&& b[i].chain_count == 0
                    }
                &&& forall|i: int, k: int|
                    0 <= i < b.len() && 0 <= k < exps@.len() && res@[k].chain_count == 0 && !o.contains(k)
                        ==> #[trigger] b[i].eval_score > #[trigger] scores@[k] || (b[i].eval_score == scores@[k] && o[i] < k)
            },
    {
        let track = self.depth < self.visible;
        let ghost old_fired_len = self.fired@.len() as int;
        let ghost old_spec_len = self.speculative@.len() as int;
        let mut cands: Vec<SearchState> = Vec::new();
        let mut kept_scores: Vec<i128> = Vec::new();
        let ghost mut origin: Seq<int> = Seq::empty();
        let mut k: usize = 0;
        while k < exps.len()
            invariant
                self.wf_core(),
                !self.finished,
                self.fire is None,
                self.root@ == old(self).root@,
                self.limit == old(self).limit,
                self.depth == old(self).depth,
                self.width == old(self).width,
                self.beam == old(self).beam,
                self.expansions_ok(exps@),
                res@.len() == exps@.len(),
                scores@.len() == exps@.len(),
                self.fire_threshold == old(self).fire_threshold,
                forall|j: int| 0 <= j < res@.len() ==> (#[trigger] res@[j]).grid.wf(),
                k <= exps@.len(),
                track == (self.depth < self.visible),
                !track ==> self.fired@ == old(self).fired@,
                track ==> self.speculative@ == old(self).speculative@,
                track ==> appended(old(self).fired@, self.fired@, fired_views(old(self).beam@, exps@, res@, scores@, k as int)),
                !track ==> appended(old(self).speculative@, self.speculative@, fired_views(old(self).beam@, exps@, res@, scores@, k as int)),
                cands@.len() == quiet_count(res@, k as int),
                forall|j1: int, j2: int| 0 <= j1 < j2 < origin.len() ==> origin[j1] < origin[j2],
                old_fired_len <= self.fired@.len(),
                old_spec_len <= self.speculative@.len(),
                old_fired_len == old(self).fired@.len(),
                old_spec_len == old(self).speculative@.len(),
                cands@.len() + (self.fired@.len() - old_fired_len) + (self.speculative@.len() - old_spec_len) == k,
                kept_scores@.len() == cands@.len(),
                origin.len() == cands@.len(),
                forall|j: int|
                    0 <= j < cands@.len() ==> {
                        let q = #[trigger] origin[j];
                        &&& 0 <= q < k
                        &&& res@[q].chain_count == 0
                        &&& kept_scores@[j] == scores@[q]
                        &&& cands@[j].grid@ == res@[q].grid@
                        &&& cands@[j].decisions@ == old(self).beam@[exps@[q].parent as int].decisions@.push(exps@[q].decision)
                        &&& cands@[j].chain_potential == res@[q].potential
                        &&& cands@[j].chain_score == 0
                        &&& cands@[j].chain_count == 0
                    },
                forall|q: int| 0 <= q < k && res@[q].chain_count == 0 ==> exists|j: int| 0 <= j < origin.len() && origin[j] == q,
                forall|j: int| 0 <= j < cands@.len() ==> (#[trigger] cands@[j]).eval_score == kept_scores@[j],
                forall|j: int|
                    0 <= j < cands@.len() ==> {
                        let c = #[trigger] cands@[j];
                        &&& c.grid.wf()
                        &&& c.decisions@.len() == self.depth + 1
                        &&& all_valid(c.decisions@)
                        &&& played_legally(c, self.root@)
                        &&& is_legal(self.root@, c.decisions@[0])
                    },
            decreases exps@.len() - k,
        {
            let ghost origin_before = origin;
            let e = &exps[k];
            let r = &res[k];
            let parent = &self.beam[e.parent];
            let mut decisions = parent.decisions.clone();
            assert(decisions@ =~= parent.decisions@);
            decisions.push(e.decision);
            let ghost path = parent.path@.push(parent.grid@);
            proof {
                lemma_all_valid_push(parent.decisions@, e.decision);
                assert forall|j: int| 0 <= j < decisions@.len() implies is_legal(#[trigger] path[j], decisions@[j]) by {
                    if j < parent.decisions@.len() {
                        assert(path[j] == parent.path@[j]);
                        assert(decisions@[j] == parent.decisions@[j]);
                    }
                }
                if self.depth == 0 {
                    assert(path[0] == self.root@);
                } else {
                    assert(path[0] == parent.path@[0]);
                }
                if self.depth == 0 {
                    assert(decisions@[0] == e.decision);
                } else {
                    assert(decisions@[0] == parent.decisions@[0]);
                }
            }
            if r.chain_count > 0 {
                let fs = SearchState {
                    grid: r.grid.duplicate(),
                    decisions,
                    eval_score: scores[k],
                    chain_potential: 0,
                    chain_score: r.chain_score,
                    chain_count: r.chain_count,
                    path: Ghost(path),
                };
                let ghost fv = fired_view(fs);
                let ghost before_f = self.fired@;
                let ghost before_s = self.speculative@;
                proof {
                    assert(fired_views(old(self).beam@, exps@, res@, scores@, k + 1) == fired_views(old(self).beam@, exps@, res@, scores@, k as int).push(fv));
                }
                if track {
                    self.fired.push(fs);
                    proof {
                        let added = fired_views(old(self).beam@, exps@, res@, scores@, k + 1);
                        assert forall|j: int| 0 <= j < added.len() implies fired_view(#[trigger] self.fired@[old(self).fired@.len() + j]) == added[j] by {
                            if j < added.len() - 1 {
                                assert(self.fired@[old(self).fired@.len() + j] == before_f[old(self).fired@.len() + j]);
                            }
                        }
                        assert forall|i: int| 0 <= i < old(self).fired@.len() implies #[trigger] self.fired@[i] == old(self).fired@[i] by {
                            assert(self.fired@[i] == before_f[i]);
                        }
                    }
                } else {
                    self.speculative.push(fs);
                    proof {
                        let added = fired_views(old(self).beam@, exps@, res@, scores@, k + 1);
                        assert forall|j: int| 0 <= j < added.len() implies fired_view(#[trigger] self.speculative@[old(self).speculative@.len() + j]) == added[j] by {
                            if j < added.len() - 1 {
                                assert(self.speculative@[old(self).speculative@.len() + j] == before_s[old(self).speculative@.len() + j]);
                            }
                        }
                        assert forall|i: int| 0 <= i < old(self).speculative@.len() implies #[trigger] self.speculative@[i] == old(self).speculative@[i] by {
                            assert(self.speculative@[i] == before_s[i]);
                        }
                    }
                }
            } else {
                proof {
                    assert(fired_views(old(self).beam@, exps@, res@, scores@, k + 1) == fired_views(old(self).beam@, exps@, res@, scores@, k as int));
                }
                let eval = scores[k];
                let ghost cands_before = cands@;
                cands.push(
                    SearchState {
                        grid: r.grid.duplicate(),
                        decisions,
                        eval_score: eval,
                        chain_potential: r.potential,
                        chain_score: 0,
                        chain_count: 0,
                        path: Ghost(path),
                    },
                );
                kept_scores.push(eval);
                proof {
                    origin = origin.push(k as int);
                    assert forall|j: int| 0 <= j < cands@.len() implies {
                        let q = #[trigger] origin[j];
                        &&& 0 <= q < k + 1
                        &&& res@[q].chain_count == 0
                        &&& kept_scores@[j] == scores@[q]
                        &&& cands@[j].grid@ == res@[q].grid@
                        &&& cands@[j].decisions@ == old(self).beam@[exps@[q].parent as int].decisions@.push(exps@[q].decision)
                        &&& cands@[j].chain_potential == res@[q].potential
                        &&& cands@[j].chain_score == 0
                        &&& cands@[j].chain_count == 0
                    } by {
                        if j < cands@.len() - 1 {
                            assert(cands@[j] == cands_before[j]);
                        }
                    }
                }
            }
            proof {
                assert forall|q: int| 0 <= q < k + 1 && res@[q].chain_count == 0 implies exists|j: int| 0 <= j < origin.len() && origin[j] == q by {
                    if q == k {
                        assert(origin[origin.len() - 1] == q);
                    } else {
                        let j = choose|j: int| 0 <= j < origin_before.len() && origin_before[j] == q;
                        assert(origin[j] == origin_before[j]);
                    }
                }
            }
            k = k + 1;
        }
        match fire_choice(&self.fired, self.fire_threshold) {
            Some(f) => {
                self.fire = Some(f);
                self.finished = true;
                return;
            },
            None => {},
        }
        if cands.len() == 0 {
            proof {
                if self.depth == 0 && self.fired@.len() == 0 && self.speculative@.len() == 0 {
                    assert(exps@.len() == 0);
                    assert forall|d: Decision| !is_legal(self.root@, d) by {
                        if is_legal(self.root@, d) {
                            assert(is_legal(self.beam@[0].grid@, d));
                        }
                    }
                }
            }
            self.finished = true;
            return;
        }
        let kept = stable_top(&kept_scores, self.width);
        let mut next: Vec<SearchState> = Vec::new();
        let ghost mut next_origin: Seq<int> = Seq::empty();
        let mut i: usize = 0;
        while i < kept.len()
            invariant
                i <= kept@.len(),
                next@.len() == i,
                next_origin.len() == i,
                origin.len() == cands@.len(),
                kept_scores@.len() == cands@.len(),
                forall|j: int| 0 <= j < cands@.len() ==> (#[trigger] cands@[j]).eval_score == kept_scores@[j],
                forall|j: int|
                    0 <= j < cands@.len() ==> {
                        let q = #[trigger] origin[j];
                        &&& 0 <= q < exps@.len()
                        &&& res@[q].chain_count == 0
                        &&& kept_scores@[j] == scores@[q]
                        &&& cands@[j].grid@ == res@[q].grid@
                        &&& cands@[j].decisions@ == old(self).beam@[exps@[q].parent as int].decisions@.push(exps@[q].decision)
                        &&& cands@[j].chain_potential == res@[q].potential
                        &&& cands@[j].chain_score == 0
                        &&& cands@[j].chain_count == 0
                    },
                forall|j1: int, j2: int| 0 <= j1 < j2 < origin.len() ==> origin[j1] < origin[j2],
                forall|j: int| 0 <= j < i ==> (#[trigger] next@[j]).same_as(&cands@[kept@[j] as int]) && next_origin[j] == origin[kept@[j] as int],
                forall|j: int| 0 <= j < kept@.len() ==> (#[trigger] kept@[j]) < cands@.len(),
                forall|j: int|
                    0 <= j < cands@.len() ==> {
                        let c = #[trigger] cands@[j];
                        &&& c.grid.wf()
                        &&& c.decisions@.len() == self.depth + 1
                        &&& all_valid(c.decisions@)
                        &&& played_legally(c, self.root@)
                        &&& is_legal(self.root@, c.decisions@[0])
                    },
                forall|j: int|
                    0 <= j < i ==> {
                        let c = #[trigger] next@[j];
                        &&& c.grid.wf()
                        &&& c.decisions@.len() == self.depth + 1
                        &&& all_valid(c.decisions@)
                        &&& played_legally(c, self.root@)
                        &&& is_legal(self.root@, c.decisions@[0])
                    },
            decreases kept@.len() - i,
        {
            let c = cands[kept[i]].duplicate();
            proof {
                let src = cands@[kept@[i as int] as int];
                assert(src.grid.wf());
                next_origin = next_origin.push(origin[kept@[i as int] as int]);
            }
            let ghost before = next@;
            next.push(c);
            proof {
                assert forall|j: int| 0 <= j < i + 1 implies (#[trigger] next@[j]).same_as(&cands@[kept@[j] as int]) && next_origin[j] == origin[kept@[j] as int] by {
                    if j < i {
                        assert(next@[j] == before[j]);
                    }
                }
            }
            i = i + 1;
        }
        proof {
            assert forall|ii: int, q: int|
                0 <= ii < next@.len() && 0 <= q < exps@.len() && res@[q].chain_count == 0 && !next_origin.contains(q)
                    implies #[trigger] next@[ii].eval_score > #[trigger] scores@[q] || (next@[ii].eval_score == scores@[q] && next_origin[ii] < q) by {
                let j = choose|j: int| 0 <= j < origin.len() && origin[j] == q;
                assert(!kept@.contains(j as usize)) by {
                    if kept@.contains(j as usize) {
                        let m = choose|m: int| 0 <= m < kept@.len() && kept@[m] == j as usize;
                        assert(next@[m].same_as(&cands@[kept@[m] as int]));
                        assert(next_origin[m] == q);
                    }
                }
                assert(crate::beam::ranks_before(kept_scores@, kept@[ii] as int, j));
                assert(next@[ii].same_as(&cands@[kept@[ii] as int]));
                if kept@[ii] < j {
                    assert(origin[kept@[ii] as int] < origin[j]);
                }
            }
        }
        proof {
            assert forall|ii: int| 0 <= ii < next@.len() implies {
                let q = #[trigger] next_origin[ii];
                &&& 0 <= q < exps@.len()
                &&& res@[q].chain_count == 0
                &&& next@[ii].eval_score == scores@[q]
                &&& next@[ii].grid@ == res@[q].grid@
                &&& next@[ii].decisions@ == old(self).beam@[exps@[q].parent as int].decisions@.push(exps@[q].decision)
                &&& next@[ii].chain_potential == res@[q].potential
                &&& next@[ii].chain_score == 0
                &&& next@[ii].chain_count == 0
            } by {
                assert(next@[ii].same_as(&cands@[kept@[ii] as int]));
            }
            assert forall|i1: int, i2: int| 0 <= i1 < i2 < next@.len() implies scores@[next_origin[i1]] > scores@[next_origin[i2]]
                || (scores@[next_origin[i1]] == scores@[next_origin[i2]] && #[trigger] next_origin[i1] < #[trigger] next_origin[i2]) by {
                assert(next@[i1].same_as(&cands@[kept@[i1] as int]));
                assert(next@[i2].same_as(&cands@[kept@[i2] as int]));
                assert(crate::beam::ranks_before(kept_scores@, kept@[i1] as int, kept@[i2] as int));
            }
        }
        self.origin = Ghost(next_origin);
        self.beam = next;
        self.depth = self.depth + 1;
        if self.depth == self.limit {
            self.finished = true;
        } else if self.converged() {
            self.finished = true;
        }
    }

    /// The decisions this search settles on once finished: the fired state
    /// that met the threshold; else, among all fired states (visible pieces
    /// and sampled ones alike), the one with the most chains, then the
    /// highest score, the first of equals; else the best beam state; else,
    /// when no placement was legal at all, the default decision.
    pub fn result(&self) -> (r: PlanResult)
        requires
            self.wf(),
            self.finished,
        ensures
            r.decisions@.len() >= 1,
            r.decisions@[0].is_valid_spec(),
            all_valid(r.decisions@),
            r.decisions@.len() <= if self.limit > 0 { self.limit as int } else { 1 },
            is_legal(self.root@, r.decisions@[0]) || (r.kind == PlanKind::Fallback && r.decisions@ == seq![default_spec()]),
            r.kind == PlanKind::Fallback ==> self.limit == 0 || forall|d: Decision| !is_legal(self.root@, d),
            (r.kind == PlanKind::Fire) <==> exists|i: int|
                0 <= i < self.fired@.len() && #[trigger] self.fired@[i].chain_score >= self.fire_threshold,
            self.fire matches Some(k) ==> r.decisions@ == self.fired@[k as int].decisions@,
            self.fire matches Some(k) ==> r.chain_score == self.fired@[k as int].chain_score && r.chain_count == self.fired@[k as int].chain_count,
            r.kind == PlanKind::Fire ==> forall|i: int| 0 <= i < self.fired@.len() && self.fired@[i].chain_score >= self.fire_threshold
                ==> #[trigger] self.fired@[i].chain_score <= r.chain_score,
            self.fire is None && self.fired@.len() + self.speculative@.len() > 0 ==> r.kind == PlanKind::Chain && exists|k: int|
                is_best_fired(self.fired@ + self.speculative@, k) && r.decisions@ == (self.fired@ + self.speculative@)[k].decisions@
                    && r.chain_score == (self.fired@ + self.speculative@)[k].chain_score
                    && r.chain_count == (self.fired@ + self.speculative@)[k].chain_count,
            self.fire is None && self.fired@.len() == 0 && self.speculative@.len() == 0 && self.beam@[0].decisions@.len() > 0
                ==> r.kind == PlanKind::Build && r.decisions@ == self.beam@[0].decisions@ && r.eval_score == self.beam@[0].eval_score,
            self.fire is None && self.fired@.len() == 0 && self.speculative@.len() == 0 && self.beam@[0].decisions@.len() == 0
                ==> r.kind == PlanKind::Fallback,
            r.kind == PlanKind::Fallback ==> r.decisions@ == seq![default_spec()],
            r.kind != PlanKind::Fallback ==> exists|p: Seq<Seq<PuyoColor>>|
                p.len() == r.decisions@.len() && p[0] == self.root@ && forall|j: int|
                    0 <= j < p.len() ==> is_legal(#[trigger] p[j], r.decisions@[j]),
            self.limit == 0 ==> r.kind == PlanKind::Fallback,
    {
        match self.fire {
            Some(k) => {
                proof {
                    let st = self.fired@[k as int];
                    assert(played_legally(st, self.root@));
                    assert(st.path@[0] == self.root@);
                }
                return PlanResult::from_state(&self.fired[k], PlanKind::Fire);
            },
            None => {},
        }
        if self.fired.len() > 0 || self.speculative.len() > 0 {
            let ghost all = self.fired@ + self.speculative@;
            let (in_fired, b) = best_of_pools(&self.fired, &self.speculative);
            if in_fired {
                assert(all[b as int] == self.fired@[b as int]);
                proof {
                    let st = self.fired@[b as int];
                    assert(played_legally(st, self.root@));
                    assert(st.path@[0] == self.root@);
                }
                return PlanResult::from_state(&self.fired[b], PlanKind::Chain);
            } else {
                assert(all[self.fired@.len() + b] == self.speculative@[b as int]);
                proof {
                    let st = self.speculative@[b as int];
                    assert(played_legally(st, self.root@));
                    assert(st.path@[0] == self.root@);
                }
                return PlanResult::from_state(&self.speculative[b], PlanKind::Chain);
            }
        }
        if self.beam[0].decisions.len() > 0 {
            proof {
                let st = self.beam@[0];
                assert(played_legally(st, self.root@));
                assert(st.path@[0] == self.root@);
            }
            return PlanResult::from_state(&self.beam[0], PlanKind::Build);
        }
        PlanResult::fallback()
    }

    /// The longest chain fired so far, visible or sampled, and the first
    /// decision of the first state (visible ones first) that fired it.
    pub fn longest_fired(&self) -> (r: (u32, Option<Decision>))
        requires
            self.wf(),
        ensures
            r == longest_of(self.fired@ + self.speculative@),
    {
        let ghost all = self.fired@ + self.speculative@;
        let nf = self.fired.len();
        let mut best: u32 = 0;
        let mut first: Option<Decision> = None;
        let mut i: usize = 0;
        while i < nf
            invariant
                self.wf(),
                all == self.fired@ + self.speculative@,
                nf == self.fired@.len(),
                i <= nf,
                (best, first) == longest_of(all.take(i as int)),
            decreases nf - i,
        {
            let st = &self.fired[i];
            assert(*st == all[i as int]);
            assert(all.take(i + 1).drop_last() =~= all.take(i as int));
            if st.chain_count > best {
                best = st.chain_count;
                first = Some(st.decisions[0]);
            }
            i = i + 1;
        }
        let ns = self.speculative.len();
        let mut j: usize = 0;
        while j < ns
            invariant
                self.wf(),
                all == self.fired@ + self.speculative@,
                nf == self.fired@.len(),
                ns == self.speculative@.len(),
                j <= ns,
                (best, first) == longest_of(all.take(nf + j)),
            decreases ns - j,
        {
            let st = &self.speculative[j];
            assert(*st == all[nf + j]);
            assert(all.take(nf + j + 1).drop_last() =~= all.take(nf + j));
            if st.chain_count > best {
                best = st.chain_count;
                first = Some(st.decisions[0]);
            }
            j = j + 1;
        }
        assert(all.take(nf + ns) =~= all);
        (best, first)
    }

    /// Ends the search early once a chain of at least `good_chains` has
    /// fired and the best beam state starts with the same decision as it.
    pub fn settle_on_good_chain(&mut self, good_chains: u32)
        requires
            old(self).wf(),
        ensures
            final(self).wf(),
            final(self).finished == (old(self).finished || (old(self).depth > 0 && longest_of(old(self).fired@ + old(self).speculative@).0 >= good_chains
                && longest_of(old(self).fired@ + old(self).speculative@).1 == Some(old(self).beam@[0].decisions@[0]))),
            final(self).beam == old(self).beam,
            final(self).fired == old(self).fired,
            final(self).speculative == old(self).speculative,
            final(self).fire == old(self).fire,
            final(self).fire_threshold == old(self).fire_threshold,
            final(self).root == old(self).root,
            final(self).depth == old(self).depth,
            final(self).limit == old(self).limit,
            old(self).finished ==> final(self).finished,
    {
        if self.finished || self.depth == 0 {
            return;
        }
        let (longest, first) = self.longest_fired();
        if longest >= good_chains {
            match first {
                Some(d) => {
                    if self.beam[0].decisions[0] == d {
                        self.finished = true;
                    }
                },
                None => {},
            }
        }
    }
}

} // verus!
