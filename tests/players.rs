use ghoti::ai::{ChainFocusedAI, HybridAI, Phase, StableAI, TakaptAI};
use ghoti::color::PuyoColor;
use ghoti::connect::{
    calculate_good_chains, count_color_puyos_connected_from_start, count_connected, small_group_cells,
};
use ghoti::decision::{all_valid_decisions, Decision};
use ghoti::evaluator::{Evaluator, MoveSummary};
use ghoti::grid::Grid;
use ghoti::ai::choose_plan;
use ghoti::planner::{PlanKind, PlanResult};
use ghoti::players::{format_rotation, ignition_row, rotation_description, AIType};
use ghoti::takapt::{best_detection, ChainTally, SimulationResult};

fn quiet() -> MoveSummary {
    MoveSummary { chain_count: 0, chain_score: 0, frames: 0, potential: 0, split: false }
}

fn grid_with(cells: &[(usize, usize, PuyoColor)]) -> Grid {
    let mut g = Grid::new();
    for &(x, y, c) in cells {
        g.set_color(x, y, c);
    }
    g
}

fn with_heights(hs: [usize; 6]) -> Grid {
    let mut g = Grid::new();
    for x in 1..=6 {
        for y in 1..=hs[x - 1] {
            g.set_color(x, y, PuyoColor::Ojama);
        }
    }
    g
}

#[test]
fn evaluate_empty_grid() {
    let ev = Evaluator::default();
    assert_eq!(ev.evaluate(&Grid::new(), &quiet()), -1632);
}

#[test]
fn evaluate_move_terms() {
    let ev = Evaluator::default();
    let m = MoveSummary { chain_count: 2, chain_score: 1000, frames: 50, potential: 300, split: true };
    assert_eq!(ev.evaluate(&Grid::new(), &m), 2027);
}

#[test]
fn evaluate_counts_small_groups() {
    let g = grid_with(&[
        (1, 1, PuyoColor::Red),
        (2, 1, PuyoColor::Red),
        (2, 2, PuyoColor::Red),
        (4, 1, PuyoColor::Blue),
        (5, 1, PuyoColor::Blue),
    ]);
    assert_eq!(small_group_cells(&g), (2, 3));
    let mut ev = Evaluator::default();
    let base = ev.evaluate(&g, &quiet());
    ev.connectivity_3 += 1;
    assert_eq!(ev.evaluate(&g, &quiet()), base + 3);
}

#[test]
fn variant_weights() {
    let d = Evaluator::default();
    let c = ChainFocusedAI::create_evaluator();
    assert_eq!(c.chain, d.chain * 3);
    assert_eq!(c.valley, d.valley / 2);
    let s = StableAI::create_evaluator();
    assert_eq!(s.valley, d.valley * 3);
    assert_eq!(s.chain, d.chain * 7 / 10);
    let h = HybridAI::new();
    assert_eq!(h.stable_evaluator, HybridAI::create_stable_evaluator());
    assert_eq!(h.chain_evaluator.chain, d.chain * 2);
    assert_eq!(ChainFocusedAI::new_customize(d).evaluator, d);
    assert_eq!(StableAI::new_customize(c).evaluator, c);
    let t = TakaptAI::new_customize(100, 10, 3);
    assert_eq!((t.beam_width, t.beam_depth, t.parallel), (100, 10, 3));
}

#[test]
fn stability_of_one_block() {
    let g = grid_with(&[(1, 1, PuyoColor::Red)]);
    assert_eq!(StableAI::evaluate_stability(&g), -13);
    assert_eq!(StableAI::evaluate_stability(&Grid::new()), 0);
}

#[test]
fn stability_penalises_steps_and_tall_centre() {
    let g = with_heights([0, 0, 12, 0, 0, 0]);
    // spread: (72 - 12)^2 + 5 * 12^2 = 4320; 100 * 4320 / 216 = 2000
    // steps: 12 * 50 twice; third column: 2 * 100
    assert_eq!(StableAI::evaluate_stability(&g), -2000 - 1200 - 200);
}

#[test]
fn stable_plan_penalties() {
    let ai = StableAI::new();
    let g = with_heights([0, 0, 12, 0, 0, 0]);
    let base = ai.evaluator.evaluate(&g, &quiet()) + StableAI::evaluate_stability(&g);
    assert_eq!(ai.score_plan(&g, &quiet()), base - 100000);
}

#[test]
fn hybrid_phases() {
    assert_eq!(HybridAI::get_phase(&Grid::new(), 40), Phase::Opening);
    assert_eq!(HybridAI::get_phase(&with_heights([5; 6]), 10), Phase::Opening);
    assert_eq!(HybridAI::get_phase(&with_heights([5; 6]), 20), Phase::Middle);
    assert_eq!(HybridAI::get_phase(&with_heights([5; 6]), 40), Phase::Middle);
    assert_eq!(HybridAI::get_phase(&with_heights([7; 6]), 40), Phase::Endgame);
    assert_eq!(HybridAI::search_depth(Phase::Endgame, 2), 2);
    assert_eq!(HybridAI::search_depth(Phase::Middle, 5), 3);
}

#[test]
fn hybrid_middle_rewards_triples() {
    let ai = HybridAI::new();
    let g = grid_with(&[(1, 1, PuyoColor::Red), (2, 1, PuyoColor::Red), (2, 2, PuyoColor::Red)]);
    let base = ai.chain_evaluator.evaluate(&g, &quiet());
    assert_eq!(ai.score_plan(Phase::Middle, &g, &quiet(), None), base + 300);
}

#[test]
fn hybrid_endgame_chain_bonus() {
    let ai = HybridAI::new();
    let g = Grid::new();
    let m = MoveSummary { chain_count: 4, chain_score: 5000, frames: 0, potential: 0, split: false };
    let base = ai.chain_evaluator.evaluate(&g, &m);
    assert_eq!(ai.score_plan(Phase::Endgame, &g, &m, None), base + 4 * 3000 + 50);
    assert_eq!(ai.score_plan(Phase::Endgame, &g, &m, Some(11)), base + 4 * 3000 + 50 + 5000);
}

#[test]
fn chain_focused_bonus() {
    let ai = ChainFocusedAI::new();
    let g = Grid::new();
    let m = MoveSummary { chain_count: 2, chain_score: 1234, frames: 0, potential: 0, split: false };
    assert_eq!(ai.score_plan(&g, &m), ai.evaluator.evaluate(&g, &m) + 10000 + 12);
    assert_eq!(ChainFocusedAI::search_depth(5), 3);
    assert_eq!(ChainFocusedAI::search_depth(1), 1);
}

#[test]
fn connected_groups() {
    let g = grid_with(&[
        (1, 1, PuyoColor::Red),
        (2, 1, PuyoColor::Red),
        (2, 2, PuyoColor::Red),
        (3, 1, PuyoColor::Blue),
        (3, 2, PuyoColor::Red),
    ]);
    assert_eq!(count_connected(&g, 1, 1), 4);
    assert_eq!(count_connected(&g, 3, 1), 1);
}

#[test]
fn central_development() {
    let g = grid_with(&[
        (3, 1, PuyoColor::Red),
        (3, 2, PuyoColor::Blue),
        (4, 1, PuyoColor::Green),
        (6, 1, PuyoColor::Yellow),
    ]);
    assert_eq!(count_color_puyos_connected_from_start(&g), 3);
    assert_eq!(calculate_good_chains(&g), 4);
    assert_eq!(calculate_good_chains(&Grid::new()), 4);
}

#[test]
fn takapt_scores() {
    assert_eq!(TakaptAI::evaluate_state(&Grid::new(), 0, 0, 0, 0), -2880);
    assert_eq!(TakaptAI::evaluate_state(&Grid::new(), 1, 40, 3, 2), -2880 + 240 + 18000 + 120);
}

#[test]
fn detection_prefers_chains_then_height() {
    assert_eq!(best_detection(&vec![(3, 5), (3, 7), (2, 12)]), (3, 7));
    assert_eq!(best_detection(&vec![]), (0, 0));
}

fn sim(x: usize, r: usize, chains: u32) -> SimulationResult {
    SimulationResult {
        decisions: vec![Decision::new(x, r), Decision::new(x, 0)],
        max_chains: chains,
        kind: if chains > 0 { PlanKind::Chain } else { PlanKind::Build },
        eval_score: 60,
        chain_score: 0,
    }
}

#[test]
fn chain_tally_sums_chains() {
    let mut t = ChainTally::new();
    t.record(sim(2, 0, 3));
    t.record(sim(3, 1, 5));
    t.record(sim(2, 0, 4));
    let v = t.finish();
    assert_eq!(v.result.decisions, vec![Decision::new(2, 0), Decision::new(2, 0)]);
    assert_eq!(v.result.max_chains, 4);
    assert_eq!(v.result.kind, PlanKind::Chain);
    assert_eq!(v.chain_sum, 7);
    assert_eq!(v.count, 2);
}

#[test]
fn chain_tally_without_chains() {
    let mut t = ChainTally::new();
    t.record(sim(2, 0, 0));
    t.record(sim(4, 1, 0));
    t.record(sim(4, 1, 0));
    let v = t.finish();
    assert_eq!(v.result.decisions, vec![Decision::new(4, 1), Decision::new(4, 0)]);
    assert_eq!(v.chain_sum, 0);
    assert_eq!(v.count, 2);
}

#[test]
fn chain_tally_vote_tie_goes_to_earlier() {
    let mut t = ChainTally::new();
    t.record(sim(4, 1, 0));
    t.record(sim(2, 0, 0));
    let v = t.finish();
    assert_eq!(v.result.decisions[0], Decision::new(2, 0));
}

#[test]
fn chain_tally_empty_is_default() {
    let v = ChainTally::new().finish();
    assert_eq!(v.result.decisions, vec![Decision::new(3, 0)]);
    assert_eq!(v.result.kind, PlanKind::Fallback);
    assert_eq!((v.chain_sum, v.count), (0, 0));
}

#[test]
fn all_valid_decisions_in_order() {
    let all = all_valid_decisions();
    assert_eq!(all.len(), 22);
    assert_eq!(all[0], Decision::new(1, 0));
    assert_eq!(all[2], Decision::new(1, 2));
    assert_eq!(all[3], Decision::new(2, 0));
    assert_eq!(all[21], Decision::new(6, 3));
    assert!(!all.contains(&Decision::new(1, 3)));
    assert!(!all.contains(&Decision::new(6, 1)));
}

#[test]
fn simulation_result_counts_fired_chains_only() {
    let plan = |kind| PlanResult {
        decisions: vec![Decision::new(2, 1)],
        kind,
        eval_score: 0,
        chain_potential: 0,
        chain_score: 900,
        chain_count: 4,
    };
    assert_eq!(SimulationResult::from_plan(plan(PlanKind::Chain)).max_chains, 4);
    assert_eq!(SimulationResult::from_plan(plan(PlanKind::Fire)).max_chains, 4);
    let built = SimulationResult::from_plan(plan(PlanKind::Build));
    assert_eq!(built.max_chains, 0);
    assert_eq!(built.kind, PlanKind::Build);
    assert_eq!(built.chain_score, 900);
    assert_eq!(built.decisions, vec![Decision::new(2, 1)]);
}

#[test]
fn choose_plan_reports_the_plan() {
    let firsts = vec![Decision::new(1, 0), Decision::new(2, 0), Decision::new(5, 2)];
    assert_eq!(choose_plan(&firsts, &vec![3, 9, 9]), (Decision::new(2, 0), Some(1)));
    assert_eq!(choose_plan(&vec![], &vec![]), (Decision::new(3, 0), None));
}

#[test]
fn names_and_labels() {
    assert_eq!(AIType::from_str("Stable"), Some(AIType::Stable));
    assert_eq!(AIType::from_str("CHAIN"), Some(AIType::ChainFocused));
    assert_eq!(AIType::from_str("potential"), Some(AIType::ChainPotential));
    assert_eq!(AIType::from_str("TakAPT"), Some(AIType::Takapt));
    assert_eq!(AIType::from_str("random"), None);
    assert_eq!(AIType::Hybrid.name(), "HybridAI");
    assert_eq!(AIType::Takapt.create_ai().name(), "TakaptAI");
    assert_eq!(format_rotation(1), "→(右)");
    assert_eq!(rotation_description(7), "unknown");
    let g = with_heights([2, 5, 0, 7, 0, 0]);
    assert_eq!(ignition_row(&g, &vec![1, 0, 0, 2, 0, 0]), 7);
    assert_eq!(ignition_row(&g, &vec![1, 3, 0, 0, 0, 0]), 5);
    assert_eq!(ignition_row(&g, &vec![0; 6]), 0);
}
