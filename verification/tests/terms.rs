use duels_agents::game::Phase;
use duels_agents::player::Player;
use duels_agents::terms::{
    card_and_token_vp, chain_gift_exposure, decisions_left, demand_counts, gone_cards,
    military_position, military_urgency, next_age_start, pair_threat_candidates,
    projected_starter, second_copy_obtainable, strong_board_tokens, supply_pool,
    unbuilt_wonders, Breakdown, ChainCard, DevSupply, StructureSlot, SymbolCard, TurnView,
    DECISIONS_PER_AGE, MAX_UNITS,
};

fn turn(age: u8, cards_left: u32, conflict: i8, current: Player) -> TurnView {
    TurnView {
        is_over: false,
        phase: Phase::Turn,
        age,
        current,
        cards_left,
        extra_turn: false,
        conflict,
        last_card_taker: Player::One,
    }
}

#[test]
fn the_projected_starter_matches_who_really_begins_the_next_age() {
    // Pawn centred, one card left: whoever takes it begins Age II.
    assert_eq!(projected_starter(&turn(1, 1, 0, Player::One)), Some(Player::One));
    // Two cards left: the mover takes the first, the opponent the last.
    assert_eq!(projected_starter(&turn(1, 2, 0, Player::One)), Some(Player::Two));
    // ...unless the mover has a banked extra turn and takes both.
    let banked = TurnView { extra_turn: true, ..turn(1, 2, 0, Player::One) };
    assert_eq!(projected_starter(&banked), Some(Player::One));
    // The age's last card is gone: its taker begins.
    let done = TurnView { last_card_taker: Player::Two, ..turn(1, 0, 0, Player::One) };
    assert_eq!(projected_starter(&done), Some(Player::Two));
}

#[test]
fn an_off_centre_pawn_hands_the_choice_to_the_weaker_player() {
    for cards in 1..=3u32 {
        assert_eq!(
            projected_starter(&turn(1, cards, 3, Player::One)),
            Some(Player::Two),
            "{cards} cards left"
        );
        assert_eq!(
            projected_starter(&turn(1, cards, -3, Player::One)),
            Some(Player::One),
            "{cards} cards left"
        );
    }
}

#[test]
fn no_starter_is_projected_outside_ordinary_turns() {
    let draft = TurnView { phase: Phase::WonderDraft, ..turn(1, 20, 0, Player::One) };
    assert_eq!(projected_starter(&draft), None);
    let over = TurnView { is_over: true, ..turn(3, 0, 0, Player::One) };
    assert_eq!(projected_starter(&over), None);
    let choose = TurnView { phase: Phase::ChooseFirstPlayer, ..turn(2, 20, 4, Player::Two) };
    assert_eq!(projected_starter(&choose), Some(Player::Two));
}

#[test]
fn the_next_age_start_term_scores_the_projected_starter() {
    let w = [1.5f64, 1.0, 0.0];
    // One card left in Age I with the pawn centred: the mover begins Age II.
    let st = turn(1, 1, 0, Player::One);
    assert_eq!(next_age_start(&st, Player::One, &w, 0.0), 1.5);
    assert_eq!(next_age_start(&st, Player::Two, &w, 0.0), 0.0);
    // In Age II the second entry is read; Age III and later read the last.
    assert_eq!(next_age_start(&turn(2, 1, 0, Player::Two), Player::Two, &w, 0.0), 1.0);
    assert_eq!(next_age_start(&turn(3, 1, 0, Player::Two), Player::Two, &w, 0.0), 0.0);
    let ints = [7i64, 5, 3];
    assert_eq!(next_age_start(&turn(3, 1, 0, Player::Two), Player::Two, &ints, 0), 3);
}

#[test]
fn the_decision_budget_counts_the_structure_and_the_undealt_ages() {
    // Age I, five cards left, first seat to move: three picks and two ages.
    let st = turn(1, 5, 0, Player::One);
    assert_eq!(decisions_left(&st, Player::One), 3 + 2 * DECISIONS_PER_AGE);
    assert_eq!(decisions_left(&st, Player::Two), 2 + 2 * DECISIONS_PER_AGE);
    // Age III: nothing left undealt.
    let st = turn(3, 4, 0, Player::Two);
    assert_eq!(decisions_left(&st, Player::One), 2);
    assert_eq!(decisions_left(&st, Player::Two), 2);
    // The wonder draft of Age I leaves all three ages to come.
    let draft = TurnView { phase: Phase::WonderDraft, ..turn(0, 0, 0, Player::One) };
    assert_eq!(decisions_left(&draft, Player::One), 3 * DECISIONS_PER_AGE);
}

#[test]
fn the_military_terms_are_antisymmetric() {
    for conflict in [-9i8, -6, -3, 0, 2, 5, 8] {
        let st = turn(2, 10, conflict, Player::One);
        assert_eq!(military_position(&st, Player::One), conflict as i32);
        assert_eq!(
            military_position(&st, Player::One),
            -military_position(&st, Player::Two)
        );
        assert_eq!(
            military_urgency(&st, Player::One, 6),
            -military_urgency(&st, Player::Two, 6)
        );
    }
    // Inside the second loot token nothing is urgent; past it the excess is
    // squared towards whoever the pawn favours.
    assert_eq!(military_urgency(&turn(2, 10, 6, Player::One), Player::One, 6), 0);
    assert_eq!(military_urgency(&turn(2, 10, 8, Player::One), Player::One, 6), 4);
    assert_eq!(military_urgency(&turn(2, 10, 8, Player::One), Player::Two, 6), -4);
    assert_eq!(military_urgency(&turn(2, 10, -9, Player::One), Player::Two, 6), 9);
}

#[test]
fn the_science_ladder_is_convex_and_rewards_a_strong_token_row() {
    // Law, Theology and Strategy by id; Philosophy is another token.
    let (law, theology, strategy, philosophy) = (3u8, 8u8, 7u8, 5u8);
    let strong = [Some(law), Some(theology), Some(strategy)];
    assert_eq!(strong_board_tokens(&vec![philosophy], &strong), 0);
    assert_eq!(strong_board_tokens(&vec![philosophy, law, theology], &strong), 2);
    assert_eq!(strong_board_tokens(&vec![], &strong), 0);
    // A token the game does not have is never counted.
    assert_eq!(strong_board_tokens(&vec![law], &[None, Some(theology), None]), 0);
}

#[test]
fn a_second_copy_is_unobtainable_once_both_copies_are_spoken_for() {
    let copies = vec![SymbolCard { card: 4, age: 1 }, SymbolCard { card: 30, age: 2 }];
    let none = vec![false; 40];
    let mut built_two = vec![false; 40];
    assert!(second_copy_obtainable(&none, &copies, 1));
    built_two[4] = true;
    built_two[30] = true;
    let gone = gone_cards(&none, &built_two, &none, &none);
    assert!(gone[4] && gone[30] && !gone[5]);
    assert!(!second_copy_obtainable(&gone, &copies, 1));

    // One copy gone, the other from an age already past: back in the box.
    let mut discarded = vec![false; 40];
    discarded[30] = true;
    let gone = gone_cards(&none, &none, &none, &discarded);
    assert!(second_copy_obtainable(&gone, &copies, 1));
    assert!(!second_copy_obtainable(&gone, &copies, 2));
}

#[test]
fn a_threatened_pair_counts_only_single_unawarded_obtainable_symbols() {
    let held = vec![1u8, 2, 1, 1, 0, 1];
    let awarded = vec![false, false, true, false, false, false];
    let obtainable = vec![true, true, true, false, true, true];
    // Symbol 0 counts; 1 is already a pair; 2 was awarded; 3 is not
    // obtainable; 4 is not held; 5 is the law symbol.
    assert_eq!(pair_threat_candidates(&held, &awarded, Some(5), &obtainable), 1);
    assert_eq!(pair_threat_candidates(&held, &awarded, None, &obtainable), 2);
}

#[test]
fn the_demand_table_counts_each_unit_of_each_resource() {
    let selected = vec![true, true, false, true];
    let costs = vec![vec![2u8, 0], vec![1, 3], vec![3, 3], vec![0, 1]];
    let t = demand_counts(&selected, &costs, 2);
    assert_eq!(t.len(), MAX_UNITS);
    assert_eq!(t[0], vec![2, 2]);
    assert_eq!(t[1], vec![1, 1]);
    assert_eq!(t[2], vec![0, 1]);
    assert_eq!(t[3], vec![0, 0]);
}

#[test]
fn the_supply_pool_is_the_unseen_cards_and_every_undealt_age() {
    let unknown = vec![true, false, false, false, false];
    let age_cards = vec![
        vec![true, true, false, false, false],
        vec![false, false, true, false, false],
        vec![false, false, false, true, false],
    ];
    let pool = supply_pool(&unknown, &age_cards, &vec![3]);
    assert_eq!(pool, vec![true, false, false, true, false]);
    let pool = supply_pool(&unknown, &age_cards, &vec![2, 3]);
    assert_eq!(pool, vec![true, false, true, true, false]);

    let costs = vec![vec![1u8], vec![0], vec![2], vec![0], vec![3]];
    let d = DevSupply::of(&unknown, &age_cards, &vec![2, 3], &costs, 1);
    assert_eq!(d.pool_size, 3);
    assert_eq!(d.counts[0], vec![2]);
    assert_eq!(d.counts[1], vec![1]);
    assert_eq!(d.counts[2], vec![0]);
}

#[test]
fn a_chain_gift_is_exposed_only_when_the_opponent_moves_next() {
    let slots = vec![
        StructureSlot {
            accessible: true,
            card: Some(ChainCard { victory_points: 3, chain_from: Some(1) }),
        },
        StructureSlot {
            accessible: false,
            card: Some(ChainCard { victory_points: 5, chain_from: Some(1) }),
        },
        StructureSlot {
            accessible: true,
            card: Some(ChainCard { victory_points: 2, chain_from: Some(2) }),
        },
        StructureSlot { accessible: true, card: None },
    ];
    let taker_built = vec![false, true, false];
    let st = turn(2, 4, 0, Player::Two);
    assert_eq!(chain_gift_exposure(&st, Player::One, 2, &slots, &taker_built), 5);
    // Not the opponent's turn, or another age: nothing.
    assert_eq!(chain_gift_exposure(&st, Player::Two, 2, &slots, &taker_built), 0);
    assert_eq!(chain_gift_exposure(&st, Player::One, 1, &slots, &taker_built), 0);
}

#[test]
fn the_card_and_token_points_leave_out_military_and_coins() {
    let b = Breakdown {
        civilian: 10,
        scientific: 2,
        commercial: 3,
        guilds: 4,
        wonders: 5,
        progress_tokens: 6,
        military: 10,
        coins: 7,
    };
    assert_eq!(card_and_token_vp(&b), 30);
}

#[test]
fn an_unbuilt_wonder_is_drafted_and_not_built() {
    let drafted = vec![true, true, false, true];
    let built = vec![true, false, false, false];
    assert_eq!(unbuilt_wonders(&drafted, &built), vec![false, true, false, true]);
}
