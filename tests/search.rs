use ghoti::ai::{padding_needed, pool_size, ChainPotentialAI};
use ghoti::beam::stable_top;
use ghoti::color::{Kumipuyo, PuyoColor};
use ghoti::decision::{all_valid_decisions, Decision};
use ghoti::grid::Grid;
use ghoti::planner::{
    best_of_pools, fire_choice, BeamSearch, Expansion, PlanKind, PlanResult, Resolution, SearchState, FIRE_THRESHOLD,
};
use ghoti::potential::{best_potential, hypothetical_placements, second_level};
use ghoti::vote::VoteTally;

/// Resolves every placement as if nothing ever vanished; a placement on
/// `fire_column` is reported as a chain worth `fire_score`.
fn resolve_all(exps: &Vec<Expansion>, fire_column: usize, fire_score: u32) -> Vec<Resolution> {
    exps.iter()
        .map(|e| {
            let fires = e.decision.axis_x() == fire_column && e.decision.rot() == 0;
            Resolution {
                grid: e.dropped.clone(),
                chain_count: if fires { 5 } else { 0 },
                chain_score: if fires { fire_score } else { 0 },
                frames: 10,
                potential: 0,
            }
        })
        .collect()
}

fn run(search: &mut BeamSearch, fire_column: usize, fire_score: u32) -> PlanResult {
    let ai = ChainPotentialAI::new();
    while !search.finished {
        let exps = search.expansions();
        let res = resolve_all(&exps, fire_column, fire_score);
        let scores: Vec<i128> = exps.iter().zip(res.iter()).map(|(e, r)| ai.candidate_score(e, r)).collect();
        search.advance(&exps, &res, &scores);
    }
    search.result()
}

fn piece(a: PuyoColor, b: PuyoColor) -> Kumipuyo {
    Kumipuyo::new(a, b)
}

#[test]
fn planner_returns_legal_first_decision() {
    let root = Grid::new();
    let visible = vec![piece(PuyoColor::Red, PuyoColor::Blue), piece(PuyoColor::Green, PuyoColor::Green)];
    let mut search = BeamSearch::new(&root, &visible, &vec![], 2, 10, FIRE_THRESHOLD);
    let r = run(&mut search, 0, 0);
    assert!(r.decisions.len() >= 1);
    assert!(r.decisions[0].is_valid());
    assert!(root.can_drop(&r.decisions[0]));
    assert_eq!(r.kind, PlanKind::Build);
}

#[test]
fn planner_empty_queue_falls_back() {
    let root = Grid::new();
    let mut search = BeamSearch::new(&root, &vec![], &vec![], 20, 100, FIRE_THRESHOLD);
    assert!(search.finished);
    let r = search.result();
    assert_eq!(r.kind, PlanKind::Fallback);
    assert_eq!(r.decisions, vec![Decision::new(3, 0)]);
}

#[test]
fn planner_fires_at_threshold() {
    let root = Grid::new();
    let visible = vec![piece(PuyoColor::Red, PuyoColor::Red); 3];
    let mut search = BeamSearch::new(&root, &visible, &vec![], 3, 50, FIRE_THRESHOLD);
    let r = run(&mut search, 4, FIRE_THRESHOLD);
    assert_eq!(r.kind, PlanKind::Fire);
    assert_eq!(r.decisions, vec![Decision::new(4, 0)]);
    assert_eq!(r.chain_score, FIRE_THRESHOLD);
}

#[test]
fn planner_below_threshold_keeps_searching() {
    let root = Grid::new();
    let visible = vec![piece(PuyoColor::Red, PuyoColor::Red); 3];
    let mut search = BeamSearch::new(&root, &visible, &vec![], 3, 50, FIRE_THRESHOLD);
    let r = run(&mut search, 4, FIRE_THRESHOLD - 1);
    assert_eq!(r.kind, PlanKind::Chain);
    assert!(search.depth >= 1);
    assert_eq!(r.decisions[0], Decision::new(4, 0));
    assert_eq!(search.longest_fired(), (5, Some(Decision::new(4, 0))));
}

#[test]
fn settle_needs_matching_first_decision() {
    let root = Grid::new();
    let visible = vec![piece(PuyoColor::Red, PuyoColor::Red); 4];
    let ai = ChainPotentialAI::new();
    let mut search = BeamSearch::new(&root, &visible, &vec![], 4, 10, u32::MAX);
    let exps = search.expansions();
    let res = resolve_all(&exps, 4, 100);
    let scores: Vec<i128> = exps.iter().zip(res.iter()).map(|(e, r)| ai.candidate_score(e, r)).collect();
    search.advance(&exps, &res, &scores);
    assert!(!search.finished);
    let first = search.beam[0].decisions[0];
    search.settle_on_good_chain(6);
    assert!(!search.finished);
    search.settle_on_good_chain(5);
    assert_eq!(search.finished, first == Decision::new(4, 0));
}

#[test]
fn planner_padding_does_not_fire() {
    let root = Grid::new();
    let padding = vec![piece(PuyoColor::Red, PuyoColor::Red); 2];
    let mut search = BeamSearch::new(&root, &vec![], &padding, 2, 10, FIRE_THRESHOLD);
    let r = run(&mut search, 4, FIRE_THRESHOLD);
    assert_ne!(r.kind, PlanKind::Fire);
    assert!(r.decisions.len() >= 1);
}

#[test]
fn planner_full_grid_falls_back() {
    let mut root = Grid::new();
    for x in 1..=6 {
        for y in 1..=13 {
            root.set_color(x, y, PuyoColor::Ojama);
        }
    }
    let visible = vec![piece(PuyoColor::Red, PuyoColor::Red)];
    let mut search = BeamSearch::new(&root, &visible, &vec![], 1, 10, FIRE_THRESHOLD);
    let r = run(&mut search, 0, 0);
    assert_eq!(r.kind, PlanKind::Fallback);
    assert_eq!(r.decisions, vec![Decision::new(3, 0)]);
}

#[test]
fn expansions_of_empty_grid() {
    let root = Grid::new();
    let visible = vec![piece(PuyoColor::Red, PuyoColor::Blue)];
    let search = BeamSearch::new(&root, &visible, &vec![], 1, 10, FIRE_THRESHOLD);
    let exps = search.expansions();
    assert_eq!(exps.len(), 22);
    let all = all_valid_decisions();
    for (e, d) in exps.iter().zip(all.iter()) {
        assert_eq!(e.decision, *d);
    }
    // (1, 2): child below the axis in column 1
    let e = exps.iter().find(|e| e.decision == Decision::new(1, 2)).unwrap();
    assert_eq!(e.dropped.color(1, 1), PuyoColor::Blue);
    assert_eq!(e.dropped.color(1, 2), PuyoColor::Red);
    assert!(!e.split);
}

#[test]
fn stable_top_keeps_best_in_pool_order() {
    let scores: Vec<i128> = vec![5, 9, 5, 7, 9];
    assert_eq!(stable_top(&scores, 3), vec![1, 4, 3]);
    assert_eq!(stable_top(&scores, 4), vec![1, 4, 3, 0]);
    assert_eq!(stable_top(&scores, 10), vec![1, 4, 3, 0, 2]);
    assert_eq!(stable_top(&vec![], 3), Vec::<usize>::new());
}

#[test]
fn stable_top_never_drops_the_best() {
    let scores: Vec<i128> = (0..200).map(|i| ((i * 7919) % 211) as i128 - 100).collect();
    let kept = stable_top(&scores, 17);
    assert_eq!(kept.len(), 17);
    let min_kept = kept.iter().map(|&i| scores[i]).min().unwrap();
    let max_dropped = (0..200).filter(|i| !kept.contains(i)).map(|i| scores[i]).max().unwrap();
    assert!(min_kept >= max_dropped);
}

fn fired(score: u32) -> SearchState {
    let mut s = SearchState::from_field(&Grid::new());
    s.chain_score = score;
    s.chain_count = 3;
    s.decisions = vec![Decision::new(2, 0)];
    s
}

#[test]
fn fire_choice_threshold() {
    let pool = vec![fired(1000), fired(90000), fired(80000)];
    assert_eq!(fire_choice(&pool, FIRE_THRESHOLD), Some(1));
    let low = vec![fired(1000), fired(79999)];
    assert_eq!(fire_choice(&low, FIRE_THRESHOLD), None);
    let ties = vec![fired(85000), fired(85000)];
    assert_eq!(fire_choice(&ties, FIRE_THRESHOLD), Some(1));
}

fn plan(x: usize, r: usize, kind: PlanKind) -> PlanResult {
    PlanResult {
        decisions: vec![Decision::new(x, r), Decision::new(1, 0)],
        kind,
        eval_score: 0,
        chain_potential: 0,
        chain_score: 0,
        chain_count: 0,
    }
}

#[test]
fn vote_picks_majority() {
    let mut tally = VoteTally::new(5);
    for d in [(3, 1), (2, 0), (3, 1), (2, 0), (2, 0)] {
        assert!(tally.record(plan(d.0, d.1, PlanKind::Build)).is_none());
    }
    let v = tally.finish();
    assert_eq!(v.plan.decisions[0], Decision::new(2, 0));
    assert_eq!(v.votes, 3);
    assert_eq!(v.pool, 5);
}

#[test]
fn vote_ignores_arrival_order() {
    let orders = [
        [(2, 0), (2, 0), (2, 0), (3, 1), (3, 1)],
        [(3, 1), (3, 1), (2, 0), (2, 0), (2, 0)],
        [(2, 0), (3, 1), (2, 0), (3, 1), (2, 0)],
    ];
    for order in orders {
        let mut tally = VoteTally::new(5);
        for d in order {
            tally.record(plan(d.0, d.1, PlanKind::Build));
        }
        let v = tally.finish();
        assert_eq!(v.plan.decisions[0], Decision::new(2, 0));
        assert_eq!(v.votes, 3);
    }
}

#[test]
fn vote_tie_goes_to_earlier_decision() {
    let mut tally = VoteTally::new(2);
    tally.record(plan(4, 2, PlanKind::Build));
    tally.record(plan(4, 1, PlanKind::Build));
    let v = tally.finish();
    assert_eq!(v.plan.decisions[0], Decision::new(4, 1));
    assert_eq!(v.votes, 1);
}

#[test]
fn vote_fire_returns_at_once() {
    let mut tally = VoteTally::new(3);
    assert!(tally.record(plan(2, 0, PlanKind::Build)).is_none());
    let done = tally.record(plan(5, 3, PlanKind::Fire)).unwrap();
    assert_eq!(done.decisions[0], Decision::new(5, 3));
}

#[test]
fn vote_without_results_is_default() {
    let v = VoteTally::new(4).finish();
    assert_eq!(v.plan.kind, PlanKind::Fallback);
    assert_eq!(v.plan.decisions, vec![Decision::new(3, 0)]);
    assert_eq!(v.votes, 0);
}

#[test]
fn potential_is_best_observed_score() {
    let first = vec![0, 500, 0];
    let second = vec![vec![0, 800], vec![9999], vec![]];
    assert_eq!(best_potential(&first, &second), 800);
    assert_eq!(best_potential(&vec![0, 0], &vec![vec![], vec![0]]), 0);
}

#[test]
fn potential_more_columns_never_lower() {
    let first_a = vec![0, 300];
    let second_a = vec![vec![200], vec![]];
    let first_b = vec![0, 300, 0];
    let second_b = vec![vec![200, 100], vec![], vec![700]];
    assert!(best_potential(&first_a, &second_a) <= best_potential(&first_b, &second_b));
}

#[test]
fn hypotheticals_cover_open_columns() {
    let mut g = Grid::new();
    for y in 1..=12 {
        g.set_color(2, y, PuyoColor::Ojama);
    }
    let ps = hypothetical_placements(&g);
    assert_eq!(ps.len(), 20);
    assert!(ps.iter().all(|p| p.column != 2));
    assert_eq!(ps[0].column, 1);
    assert_eq!(ps[0].color, PuyoColor::Red);
    assert_eq!(ps[0].grid.color(1, 1), PuyoColor::Red);
    assert_eq!(ps[3].color, PuyoColor::Green);
}

#[test]
fn search_parameters_by_budget() {
    assert_eq!(ChainPotentialAI::search_parameters(None), (20, 100));
    assert_eq!(ChainPotentialAI::search_parameters(Some(2)), (20, 100));
    assert_eq!(ChainPotentialAI::search_parameters(Some(8)), (30, 200));
    assert_eq!(ChainPotentialAI::search_parameters(Some(9)), (40, 400));
    assert_eq!(pool_size(2, 20, 10), 10);
    assert_eq!(pool_size(20, 20, 10), 1);
    assert_eq!(padding_needed(2, 20), 18);
    assert_eq!(padding_needed(25, 20), 0);
}

#[test]
fn second_level_only_under_quiet_placements() {
    let g = Grid::new();
    let first = hypothetical_placements(&g);
    assert_eq!(first.len(), 24);
    let mut scores = vec![0u32; 24];
    scores[1] = 40;
    let second = second_level(&first, &scores);
    assert_eq!(second.len(), 24);
    assert_eq!(second[1].len(), 0);
    assert_eq!(second[0].len(), 24);
    assert_eq!(second[0][0].grid.color(1, 2), PuyoColor::Red);
}

fn fired_with(chains: u32, score: u32, x: usize) -> SearchState {
    let mut s = SearchState::from_field(&Grid::new());
    s.chain_count = chains;
    s.chain_score = score;
    s.decisions = vec![Decision::new(x, 0)];
    s
}

#[test]
fn fired_pools_ranked_together() {
    let visible = vec![fired_with(1, 40, 1)];
    let sampled = vec![fired_with(5, 2000, 2), fired_with(5, 2000, 3)];
    assert_eq!(best_of_pools(&visible, &sampled), (false, 0));
    let visible = vec![fired_with(5, 2000, 1)];
    assert_eq!(best_of_pools(&visible, &sampled), (true, 0));
    assert_eq!(best_of_pools(&vec![], &sampled), (false, 0));
}

#[test]
fn advance_stops_only_by_its_rules() {
    let root = Grid::new();
    let visible = vec![piece(PuyoColor::Red, PuyoColor::Blue); 3];
    let ai = ChainPotentialAI::new();
    let mut search = BeamSearch::new(&root, &visible, &vec![], 3, 30, FIRE_THRESHOLD);
    let exps = search.expansions();
    let res = resolve_all(&exps, 0, 0);
    let scores: Vec<i128> = exps.iter().zip(res.iter()).map(|(e, r)| ai.candidate_score(e, r)).collect();
    search.advance(&exps, &res, &scores);
    assert_eq!(search.depth, 1);
    assert_eq!(search.beam.len(), 22);
    let first = search.beam[0].decisions[0];
    let same = search.beam.iter().all(|s| s.decisions[0] == first);
    assert_eq!(search.finished, same);
    for w in search.beam.windows(2) {
        assert!(w[0].eval_score >= w[1].eval_score);
    }
}
