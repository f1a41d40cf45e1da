use duels_agents::agent::{
    forced_move, offered_moves, offered_or_first, pick_among_best, terminal_score,
};
use duels_agents::game::{Action, GameResult, VictoryKind};
use duels_agents::leaf::LeafValue;
use duels_agents::models::{term_plan, CoinModel, EconomyModel, MilitaryModel};
use duels_agents::player::Player;
use duels_agents::slices::{Budget, Slices};
use rand::rngs::StdRng;
use rand::SeedableRng;

#[test]
fn the_node_budget_is_split_across_determinizations() {
    let s = Slices::new(Budget::Nodes(20), 3);
    let shares: Vec<u64> = (0..3).map(|i| s.simulations(i).unwrap()).collect();
    assert_eq!(shares, vec![7, 7, 6]);
    assert_eq!(shares.iter().sum::<u64>(), 20);
    assert_eq!(s.deadline_ms(0), None);
}

#[test]
fn a_node_budget_runs_exactly_that_many_simulations() {
    for (total, n) in [(200u64, 1usize), (17, 4), (1000, 7), (5, 5)] {
        let s = Slices::new(Budget::Nodes(total), n);
        let sum: u64 = (0..n as u64).map(|i| s.simulations(i).unwrap()).sum();
        assert_eq!(sum, total, "{total} over {n}");
    }
}

#[test]
fn a_slice_of_nothing_still_runs_one_simulation() {
    let s = Slices::new(Budget::Nodes(2), 3);
    assert_eq!(s.simulations(0), Some(1));
    assert_eq!(s.simulations(1), Some(1));
    assert_eq!(s.simulations(2), Some(1));
    // Zero determinizations is one.
    assert_eq!(Slices::new(Budget::Nodes(9), 0), Slices::Nodes { total: 9, n: 1 });
}

#[test]
fn time_slices_end_at_shared_absolute_deadlines() {
    let s = Slices::new(Budget::TimeMs(1000), 3);
    assert_eq!(s.deadline_ms(0), Some(333));
    assert_eq!(s.deadline_ms(1), Some(666));
    assert_eq!(s.deadline_ms(2), Some(1000));
    assert_eq!(s.simulations(0), None);
    let huge = Slices::new(Budget::TimeMs(u64::MAX), 2);
    assert_eq!(huge.deadline_ms(1), Some(u64::MAX));
}

#[test]
fn a_single_legal_action_is_returned_without_searching() {
    let only = vec![Action::Discard { slot: 3 }];
    assert_eq!(forced_move(&only), Some(Action::Discard { slot: 3 }));
    let two = vec![Action::Discard { slot: 3 }, Action::Build { slot: 3 }];
    assert_eq!(forced_move(&two), None);
}

#[test]
fn every_returned_action_is_one_of_the_offered_ones() {
    let legal = vec![Action::Build { slot: 1 }, Action::Discard { slot: 1 }, Action::Effect { choice: 4 }];
    // The search's pick is kept when it was offered...
    assert_eq!(offered_or_first(&legal, Some(Action::Effect { choice: 4 })), Action::Effect { choice: 4 });
    // ...and replaced by the first offered move otherwise.
    assert_eq!(offered_or_first(&legal, Some(Action::Build { slot: 9 })), Action::Build { slot: 1 });
    assert_eq!(offered_or_first(&legal, None), Action::Build { slot: 1 });
}

#[test]
fn a_determinized_root_keeps_only_the_moves_it_agrees_on() {
    let legal = vec![Action::Build { slot: 1 }, Action::Discard { slot: 1 }, Action::Effect { choice: 4 }];
    assert_eq!(
        offered_moves(&legal, &vec![true, false, true]),
        vec![Action::Build { slot: 1 }, Action::Effect { choice: 4 }]
    );
    // Should it agree with none of them, every offered move stays.
    assert_eq!(offered_moves(&legal, &vec![false, false, false]), legal);
}

#[test]
fn choosing_only_ever_returns_one_of_the_offered_actions() {
    let best = vec![Action::Build { slot: 2 }, Action::Build { slot: 7 }, Action::Discard { slot: 0 }];
    let mut rng = StdRng::seed_from_u64(11);
    let mut seen = [false; 3];
    for _ in 0..200 {
        let a = pick_among_best(&best, &mut rng);
        let i = best.iter().position(|&b| b == a).expect("an offered move");
        seen[i] = true;
    }
    assert!(seen.iter().all(|&s| s), "the draw reaches every tied move");
}

#[test]
fn evaluation_orders_win_above_draw_above_loss() {
    let w = GameResult::Win { winner: Player::One, kind: VictoryKind::MilitarySupremacy };
    let instant = 1_000_000i64;
    let win = terminal_score(Some(w), Player::One, instant).unwrap();
    let loss = terminal_score(Some(w), Player::Two, instant).unwrap();
    let draw = terminal_score(Some(GameResult::Draw), Player::One, instant).unwrap();
    assert!(win > draw && draw > loss);
    assert_eq!(win, -loss);
    assert_eq!(draw, 0);
    assert_eq!(terminal_score(None, Player::One, instant), None);
}

#[test]
fn the_default_models_are_the_band_the_smooth_coins_and_the_bill() {
    assert_eq!(MilitaryModel::default(), MilitaryModel::Band);
    assert_eq!(CoinModel::default(), CoinModel::Smooth);
    assert_eq!(EconomyModel::default(), EconomyModel::Bill);
    let p = term_plan(MilitaryModel::default(), CoinModel::default(), EconomyModel::default(), true);
    assert!(p.smooth_coins && !p.legacy_coins);
    assert!(p.market_bill && !p.market_average_price && !p.credit_trading_posts);
    assert!(p.military_band && !p.military_flat);
    assert!(!p.chain_gift, "the menu term subsumes the chain gift");
    let legacy = term_plan(MilitaryModel::Legacy, CoinModel::Legacy, EconomyModel::Legacy, false);
    assert!(legacy.legacy_coins && legacy.market_average_price && legacy.credit_trading_posts);
    assert!(legacy.military_flat && legacy.chain_gift);
}

#[test]
fn each_leaf_builds_only_the_fixtures_it_reads() {
    let kinds = [
        LeafValue::Rollout,
        LeafValue::Static,
        LeafValue::Truncated { plies: 8 },
        LeafValue::Blend,
        LeafValue::Learned,
        LeafValue::LearnedBlend,
        LeafValue::LearnedSymmetric,
    ];
    let eval: Vec<bool> = kinds.iter().map(|k| k.needs_eval_root()).collect();
    let net: Vec<bool> = kinds.iter().map(|k| k.needs_learned_net()).collect();
    assert_eq!(eval, vec![false, true, true, true, false, false, false]);
    assert_eq!(net, vec![false, false, false, false, true, true, true]);
}

#[test]
fn a_truncated_leaf_plays_at_most_the_playout_limit() {
    assert_eq!(LeafValue::Truncated { plies: 8 }.truncation_plies(400), Some(8));
    assert_eq!(LeafValue::Truncated { plies: 900 }.truncation_plies(400), Some(400));
    assert_eq!(LeafValue::Truncated { plies: 0 }.truncation_plies(400), Some(0));
    assert_eq!(LeafValue::Static.truncation_plies(400), None);
}
