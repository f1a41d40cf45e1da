use duels_agents::game::{Action, GameResult, VictoryKind};
use duels_agents::player::Player;
use duels_agents::tree::{
    exploit_reads_directly, kind_matches_target, most_visited, objective_value_of, pooled_root,
    root_stats, value_of, victory_kind_name, ChanceChild, Kind, Node, Objective, PriorMode, Reward, Tree, NO_NODE,
};
use rand::rngs::StdRng;
use rand::SeedableRng;

fn terminal(value: Reward, visits: u32) -> Node {
    Node { visits, kind: Kind::Terminal { value } }
}

/// A one-level tree: a root decision for the first seat over `order`, with
/// the first `stats.len()` actions expanded into terminal children carrying
/// those visit counts.
fn one_level(order: [Action; 2], stats: &[u32]) -> Tree {
    let mut children = vec![NO_NODE; 2];
    let mut nodes = Vec::new();
    for (slot, _) in stats.iter().enumerate() {
        children[slot] = (slot + 1) as u32;
    }
    let root_visits: u32 = stats.iter().sum();
    nodes.push(Node {
        visits: root_visits,
        kind: Kind::Decision {
            mover: Player::One,
            actions: order.to_vec(),
            children,
            expanded: stats.len(),
        },
    });
    for &v in stats {
        nodes.push(terminal(Reward::Half, v));
    }
    Tree {
        nodes,
        simulations: root_visits as u64,
        rankings: 0,
        me: Player::One,
        objective: Objective::WinProbability,
    }
}

/// The actions the ensemble's choice is made among: the most-visited
/// expanded root actions (the value tie-break among them is the driver's).
fn candidates(trees: &Vec<Tree>) -> Vec<Action> {
    let (_, pooled) = pooled_root(trees).unwrap();
    most_visited(&pooled).iter().map(|&i| pooled[i].action).collect()
}

#[test]
fn terminal_values_follow_the_player_one_convention() {
    assert_eq!(
        value_of(GameResult::Win { winner: Player::One, kind: VictoryKind::CivilianVictory }),
        Reward::One
    );
    assert_eq!(
        value_of(GameResult::Win { winner: Player::Two, kind: VictoryKind::MilitarySupremacy }),
        Reward::Zero
    );
    assert_eq!(value_of(GameResult::Draw), Reward::Half);
    assert_eq!(Reward::One.halves(), 2);
    assert_eq!(Reward::Half.halves(), 1);
    assert_eq!(Reward::Zero.halves(), 0);
}

#[test]
fn objective_win_probability_is_bit_identical_to_value_of() {
    let mut results = vec![GameResult::Draw];
    for kind in [
        VictoryKind::MilitarySupremacy,
        VictoryKind::ScientificSupremacy,
        VictoryKind::CivilianVictory,
        VictoryKind::CivilianTiebreak,
    ] {
        for winner in [Player::One, Player::Two] {
            results.push(GameResult::Win { winner, kind });
        }
    }
    for result in results {
        for me in [Player::One, Player::Two] {
            assert_eq!(
                objective_value_of(result, Objective::WinProbability, me),
                value_of(result),
                "{result:?} me={me:?}"
            );
        }
    }
}

#[test]
fn target_kind_terminal_values_are_anchored_to_me_not_player_one() {
    let science = Objective::TargetKind(VictoryKind::ScientificSupremacy);
    for (winner, me, expected) in [
        (Player::One, Player::One, Reward::One),
        (Player::One, Player::Two, Reward::Zero),
        (Player::Two, Player::Two, Reward::One),
        (Player::Two, Player::One, Reward::Zero),
    ] {
        assert_eq!(
            objective_value_of(
                GameResult::Win { winner, kind: VictoryKind::ScientificSupremacy },
                science,
                me
            ),
            expected,
            "winner={winner:?}, me={me:?}"
        );
    }
    for me in [Player::One, Player::Two] {
        assert_eq!(
            objective_value_of(
                GameResult::Win { winner: me, kind: VictoryKind::MilitarySupremacy },
                science,
                me
            ),
            Reward::Zero
        );
        assert_eq!(objective_value_of(GameResult::Draw, science, me), Reward::Zero);
    }
    let civilian = Objective::TargetKind(VictoryKind::CivilianVictory);
    for me in [Player::One, Player::Two] {
        assert_eq!(
            objective_value_of(
                GameResult::Win { winner: me, kind: VictoryKind::CivilianTiebreak },
                civilian,
                me
            ),
            Reward::One
        );
    }
}

#[test]
fn civilian_kinds_count_as_one_target() {
    let (mil, sci) = (VictoryKind::MilitarySupremacy, VictoryKind::ScientificSupremacy);
    let (civ, tie) = (VictoryKind::CivilianVictory, VictoryKind::CivilianTiebreak);
    assert!(kind_matches_target(tie, civ));
    assert!(kind_matches_target(civ, tie));
    assert!(kind_matches_target(mil, mil));
    assert!(!kind_matches_target(mil, sci));
    assert!(!kind_matches_target(civ, mil));
}

#[test]
fn exploit_anchors_target_kind_to_me_not_a_fixed_player() {
    let science = Objective::TargetKind(VictoryKind::ScientificSupremacy);
    // Under a target kind the anchor is the searching seat.
    assert!(exploit_reads_directly(science, Player::Two, Player::Two));
    assert!(!exploit_reads_directly(science, Player::Two, Player::One));
    // Under win probability it is always the first seat.
    for me in [Player::One, Player::Two] {
        assert!(exploit_reads_directly(Objective::WinProbability, me, Player::One));
        assert!(!exploit_reads_directly(Objective::WinProbability, me, Player::Two));
    }
}

#[test]
fn backpropagation_stores_exact_values_and_flips_only_at_selection() {
    let slot0 = Action::Discard { slot: 0 };
    let mut rng = StdRng::seed_from_u64(2);
    let mut tree = Tree::new(Player::One, vec![slot0], Objective::WinProbability, &mut rng);
    assert_eq!(tree.next_action(0), Some(slot0));
    let chance = Node { visits: 0, kind: Kind::Chance { action: slot0, children: Vec::new() } };
    assert_eq!(tree.expand_with(0, chance), Some(1));
    assert_eq!(tree.next_action(0), None);
    let mut rng2 = StdRng::seed_from_u64(3);
    let decision = duels_agents::tree::decision_node(Player::Two, vec![slot0], &mut rng2);
    assert_eq!(tree.chance_child(1, 7), None);
    assert_eq!(tree.add_chance_child(1, 7, decision), 2);
    assert_eq!(tree.chance_child(1, 7), Some(2));
    assert_eq!(tree.expand_with(2, terminal(Reward::One, 0)), Some(3));

    let path = vec![0u32, 1, 2, 3];
    for _ in 0..4 {
        tree.complete_simulation(&path);
    }
    for id in &path {
        assert_eq!(tree.nodes[*id as usize].visits, 4, "node {id}");
    }
    assert_eq!(tree.simulations, 4);
    assert_eq!(tree.nodes[0].visits as u64, tree.simulations);
    // The flip happens only when a parent's mover is not the anchor.
    assert!(exploit_reads_directly(tree.objective, tree.me, Player::One));
    assert!(!exploit_reads_directly(tree.objective, tree.me, Player::Two));

    // Backing up a lone node touches only that node, and counts no
    // simulation.
    tree.backpropagate(&vec![3u32]);
    assert_eq!(tree.nodes[3].visits, 5);
    assert_eq!(tree.nodes[2].visits, 4);
    assert_eq!(tree.nodes[0].visits, 4);
    assert_eq!(tree.simulations, 4);
    // A node named twice is visited twice.
    tree.backpropagate(&vec![2u32, 3, 2]);
    assert_eq!(tree.nodes[2].visits, 6);
    assert_eq!(tree.nodes[3].visits, 6);
    assert_eq!(tree.nodes[1].visits, 4);
}

#[test]
fn a_chance_node_finds_each_drawn_outcome_again() {
    let slot0 = Action::Discard { slot: 0 };
    let mut rng = StdRng::seed_from_u64(9);
    let mut tree = Tree::new(Player::One, vec![slot0], Objective::WinProbability, &mut rng);
    let chance = Node { visits: 0, kind: Kind::Chance { action: slot0, children: Vec::new() } };
    tree.expand_with(0, chance);
    let a = tree.add_chance_child(1, 11, terminal(Reward::One, 0));
    let b = tree.add_chance_child(1, 12, terminal(Reward::Zero, 0));
    assert_ne!(a, b);
    assert_eq!(tree.chance_child(1, 11), Some(a));
    assert_eq!(tree.chance_child(1, 12), Some(b));
    assert_eq!(tree.chance_child(1, 13), None);
    match &tree.nodes[1].kind {
        Kind::Chance { children, .. } => {
            assert_eq!(
                children,
                &vec![ChanceChild { outcome: 11, node: a }, ChanceChild { outcome: 12, node: b }]
            );
        }
        _ => panic!("node 1 is a chance node"),
    }
}

#[test]
fn a_new_tree_shuffles_but_keeps_every_root_action() {
    let actions: Vec<Action> = (0..6).map(|s| Action::Build { slot: s }).collect();
    let mut rng = StdRng::seed_from_u64(5);
    let tree = Tree::new(Player::Two, actions.clone(), Objective::WinProbability, &mut rng);
    assert_eq!(tree.me, Player::Two);
    assert_eq!(tree.simulations, 0);
    match &tree.nodes[0].kind {
        Kind::Decision { mover, actions: shuffled, children, expanded } => {
            assert_eq!(*mover, Player::Two);
            let mut a = shuffled.clone();
            let mut b = actions.clone();
            a.sort_by_key(|x| format!("{x:?}"));
            b.sort_by_key(|x| format!("{x:?}"));
            assert_eq!(a, b);
            assert_eq!(*expanded, 0);
            assert!(children.iter().all(|&c| c == NO_NODE));
        }
        _ => panic!("the root is a decision"),
    }
}

#[test]
fn best_of_sums_visits_across_trees() {
    let a = Action::Discard { slot: 0 };
    let b = Action::Discard { slot: 1 };
    // Tree one visits `a` 10 times, `b` 4. Tree two (reversed order) visits
    // `b` 9 times, `a` 2. Pooled: a = 12, b = 13.
    let t1 = one_level([a, b], &[10, 4]);
    let t2 = one_level([b, a], &[9, 2]);
    assert_eq!(candidates(&vec![one_level([a, b], &[10, 4])]), vec![a]);
    assert_eq!(candidates(&vec![one_level([b, a], &[9, 2])]), vec![b]);
    let both = vec![t1, t2];
    assert_eq!(candidates(&both), vec![b], "pooled visits favour b");
    let (mover, pooled) = pooled_root(&both).unwrap();
    assert_eq!(mover, Player::One);
    assert_eq!(pooled[0].action, a);
    assert_eq!(pooled[0].visits, 12);
    assert_eq!(pooled[1].visits, 13);

    // An action no tree expanded is skipped, not returned with 0 visits.
    let lonely = one_level([a, b], &[3]);
    let (_, pooled) = pooled_root(&vec![lonely]).unwrap();
    assert!(!pooled[1].expanded);
    assert_eq!(pooled[1].visits, 0);
    assert_eq!(candidates(&vec![one_level([a, b], &[3])]), vec![a]);
}

#[test]
fn best_of_one_tree_is_the_pre_ensemble_rule() {
    let a = Action::Build { slot: 2 };
    let b = Action::Build { slot: 5 };
    // With one tree the candidates are exactly its most-visited children.
    for stats in [[7u32, 3], [3, 7], [5, 5]] {
        let t = one_level([a, b], &stats);
        let (_, pooled) = pooled_root(&vec![t]).unwrap();
        let best = most_visited(&pooled);
        let max = stats.iter().max().unwrap();
        let expected: Vec<usize> = (0..2).filter(|&i| stats[i] == *max).collect();
        assert_eq!(best, expected, "{stats:?}");
    }
}

#[test]
fn nothing_expanded_yields_no_candidate() {
    let a = Action::Build { slot: 2 };
    let b = Action::Build { slot: 5 };
    let t = one_level([a, b], &[]);
    let (_, pooled) = pooled_root(&vec![t]).unwrap();
    assert!(most_visited(&pooled).is_empty());
    assert!(pooled_root(&Vec::new()).is_none());
}

#[test]
fn the_root_readout_pools_counts_in_the_first_trees_order() {
    let a = Action::Discard { slot: 0 };
    let b = Action::Discard { slot: 1 };
    let trees = vec![one_level([a, b], &[10, 4]), one_level([b, a], &[9, 2])];
    let stats = root_stats(&trees).unwrap();
    assert_eq!(stats.mover, Player::One);
    assert_eq!(stats.visits, 25);
    assert_eq!(stats.policy, vec![(a, 12), (b, 13)]);
    assert!(root_stats(&Vec::new()).is_none());
}

fn root_actions(tree: &Tree) -> Vec<Action> {
    match &tree.nodes[0].kind {
        Kind::Decision { actions, .. } => actions.clone(),
        _ => panic!("the root is a decision"),
    }
}

#[test]
fn a_prior_mode_orders_a_node_by_descending_prior_once() {
    let actions: Vec<Action> = (0..4).map(|s| Action::Build { slot: s }).collect();
    let mut rng = StdRng::seed_from_u64(8);
    let mut tree = Tree::new(Player::One, actions, Objective::WinProbability, &mut rng);
    assert!(!tree.wants_ranking(0, PriorMode::Off));
    assert!(tree.wants_ranking(0, PriorMode::ExpansionOrder));
    assert!(tree.wants_ranking(0, PriorMode::ProgressiveBias));

    assert_eq!(tree.rankings, 0);

    let before = root_actions(&tree);
    let order = vec![2, 0, 3, 1];
    assert_eq!(tree.expand(0, PriorMode::ExpansionOrder, &order, terminal(Reward::Half, 0)), Some(1));
    let after = root_actions(&tree);
    assert_eq!(after, vec![before[2], before[0], before[3], before[1]]);
    assert_eq!(tree.rankings, 1);

    // Once a child exists the order is settled for good: later expansions
    // consult nothing.
    assert!(!tree.wants_ranking(0, PriorMode::ExpansionOrder));
    assert!(!tree.rank_actions(0, PriorMode::ExpansionOrder, &vec![1, 0, 2, 3]));
    assert_eq!(tree.expand(0, PriorMode::ExpansionOrder, &vec![], terminal(Reward::Half, 0)), Some(2));
    assert_eq!(root_actions(&tree), after);
    assert_eq!(tree.rankings, 1);

    // Without priors no node is ever ranked.
    let mut plain = Tree::new(Player::One, before.clone(), Objective::WinProbability, &mut rng);
    let plain_before = root_actions(&plain);
    plain.expand(0, PriorMode::Off, &vec![], terminal(Reward::Half, 0));
    assert_eq!(root_actions(&plain), plain_before);
    assert_eq!(plain.rankings, 0);
}

#[test]
fn a_ranking_that_is_not_a_permutation_is_refused() {
    let actions: Vec<Action> = (0..3).map(|s| Action::Discard { slot: s }).collect();
    let mut rng = StdRng::seed_from_u64(8);
    let mut tree = Tree::new(Player::Two, actions, Objective::WinProbability, &mut rng);
    let before = root_actions(&tree);
    let p = PriorMode::ProgressiveBias;
    assert!(!tree.rank_actions(0, p, &vec![0, 0, 1]));
    assert!(!tree.rank_actions(0, p, &vec![0, 1, 3]));
    assert!(!tree.rank_actions(0, p, &vec![0, 1]));
    assert_eq!(root_actions(&tree), before);
    assert_eq!(tree.rankings, 0);
    assert!(tree.rank_actions(0, p, &vec![1, 2, 0]));
    assert_eq!(tree.rankings, 1);
    // A single action has nothing to order, and is never ranked.
    let mut one = Tree::new(Player::Two, vec![Action::Effect { choice: 1 }], Objective::WinProbability, &mut rng);
    assert!(!one.wants_ranking(0, PriorMode::ExpansionOrder));
    assert!(!one.rank_actions(0, PriorMode::ExpansionOrder, &vec![0]));
    assert_eq!(one.rankings, 0);
}

#[test]
fn only_progressive_bias_retains_the_prior_slate() {
    assert!(!PriorMode::Off.keeps_priors());
    assert!(!PriorMode::ExpansionOrder.keeps_priors());
    assert!(PriorMode::ProgressiveBias.keeps_priors());
}

#[test]
fn each_victory_kind_names_itself_for_the_spec_string() {
    assert_eq!(victory_kind_name(VictoryKind::MilitarySupremacy), "military");
    assert_eq!(victory_kind_name(VictoryKind::ScientificSupremacy), "science");
    assert_eq!(victory_kind_name(VictoryKind::CivilianVictory), "civilian");
    assert_eq!(victory_kind_name(VictoryKind::CivilianTiebreak), "civilian");
}
