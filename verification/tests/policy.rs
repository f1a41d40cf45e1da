use duels_agents::game::{Action, Phase};
use duels_agents::menu::{
    affordable_wonders, ladder_step_rungs, live_chain_starters, menu_applies, menu_slots,
    production_entries,
    shields_value_differenced, successor_presence, symbol_value, BoardView, MenuSlot,
    OwnedWonder, Presence, MAX_SHIELD_STEP,
};
use duels_agents::player::Player;
use duels_agents::rollout::{
    build_bonuses, pick_uniform, race_context, race_factors, BuildBonuses, BuildCard, RaceCard,
    RaceContext, RaceFactors,
};
use rand::rngs::StdRng;
use rand::SeedableRng;

const CAP: i32 = 9;
const SYMBOLS: usize = 7;

/// The race context of the first seat, with `mine` and `theirs` the
/// symbols each player holds.
fn context(conflict: i8, mine: &[usize], theirs: &[usize], my_strat: bool, opp_strat: bool) -> RaceContext {
    let mut my_sci = vec![0u8; SYMBOLS];
    let mut opp_sci = vec![0u8; SYMBOLS];
    for &s in mine {
        my_sci[s] = 1;
    }
    for &s in theirs {
        opp_sci[s] = 1;
    }
    race_context(
        false,
        Player::One,
        conflict,
        my_sci,
        opp_sci,
        mine.len() as u8,
        theirs.len() as u8,
        my_strat,
        opp_strat,
        CAP,
    )
}

const UNIVERSITY: RaceCard = RaceCard { science: Some(6), shields: 0, military: false };
const PALACE: RaceCard = RaceCard { science: None, shields: 0, military: false };
const GUARD_TOWER: RaceCard = RaceCard { science: None, shields: 1, military: true };

fn factors(ctx: &RaceContext, action: Action, card: RaceCard) -> RaceFactors {
    race_factors(ctx, action, Some(card), &vec![0, 2])
}

#[test]
fn the_sixth_symbol_is_railed() {
    let ctx = context(0, &[0, 1, 2, 3, 4], &[], false, false);
    assert!(ctx.active);
    let win = factors(&ctx, Action::Build { slot: 18 }, UNIVERSITY);
    assert!(win.rail, "the sixth symbol must be railed");
    assert_eq!(win.sci_push, Some(5));
    let other = factors(&ctx, Action::Build { slot: 19 }, PALACE);
    assert_eq!(
        other,
        RaceFactors { sci_push: None, sci_deny: None, mil_push: None, mil_deny: None, rail: false }
    );
    // A neutral race layer sees nothing at all.
    let neutral = race_context(true, Player::One, 0, vec![1; SYMBOLS], vec![0; SYMBOLS], 5, 0, false, false, CAP);
    assert!(!neutral.active);
    let none = RaceFactors { sci_push: None, sci_deny: None, mil_push: None, mil_deny: None, rail: false };
    // An inactive context keeps no symbol tables, yet every card, a science
    // card included, is priced: with no factor at all.
    assert_eq!(race_factors(&neutral, Action::Build { slot: 18 }, Some(UNIVERSITY), &vec![]), none);
    assert_eq!(race_factors(&neutral, Action::BuildWonder { slot: 18, wonder: 3 }, Some(UNIVERSITY), &vec![]), none);
}

#[test]
fn taking_the_opponents_sixth_symbol_away_is_railed() {
    let ctx = context(0, &[], &[0, 1, 2, 3, 4], false, false);
    for action in [
        Action::Build { slot: 18 },
        Action::Discard { slot: 18 },
        Action::BuildWonder { slot: 18, wonder: 0 },
    ] {
        let f = factors(&ctx, action, UNIVERSITY);
        assert!(f.rail, "{action:?} takes the card away");
        assert_eq!(f.sci_deny, Some(5));
    }
    assert!(!factors(&ctx, Action::Discard { slot: 19 }, PALACE).rail);
}

#[test]
fn a_closing_shield_card_is_railed_from_both_sides() {
    let ctx = context((CAP - 1) as i8, &[], &[], false, false);
    assert!(factors(&ctx, Action::Build { slot: 18 }, GUARD_TOWER).rail);
    assert!(!factors(&ctx, Action::Build { slot: 19 }, PALACE).rail);

    // Mirror image: the opponent is one step from the first seat's capital,
    // so taking the red card away is a rail even though it gains nothing.
    let ctx = context(-((CAP - 1) as i8), &[], &[], false, false);
    let f = factors(&ctx, Action::Discard { slot: 18 }, GUARD_TOWER);
    assert!(f.rail);
    assert_eq!(f.mil_push, None);
    assert_eq!(f.mil_deny, Some(8));
    assert!(!factors(&ctx, Action::Discard { slot: 19 }, PALACE).rail);
}

#[test]
fn the_strategy_token_is_counted_on_both_sides_of_the_rail() {
    let build = Action::Build { slot: 18 };
    let without = context((CAP - 2) as i8, &[], &[], false, false);
    assert!(!factors(&without, build, GUARD_TOWER).rail);
    let with_token = context((CAP - 2) as i8, &[], &[], true, false);
    assert!(factors(&with_token, build, GUARD_TOWER).rail);

    let theirs = context(-((CAP - 2) as i8), &[], &[], false, true);
    assert!(factors(&theirs, Action::Discard { slot: 18 }, GUARD_TOWER).rail);
}

#[test]
fn a_wonder_with_shields_pushes_the_military_race() {
    let ctx = context(4, &[], &[], false, false);
    let f = factors(&ctx, Action::BuildWonder { slot: 19, wonder: 1 }, PALACE);
    assert_eq!(f.mil_push, Some(4));
    assert!(!f.rail);
    let g = factors(&ctx, Action::BuildWonder { slot: 19, wonder: 0 }, PALACE);
    assert_eq!(g.mil_push, None);
    // Wonder shields that reach the capital close the game.
    let close = context((CAP - 2) as i8, &[], &[], false, false);
    assert!(factors(&close, Action::BuildWonder { slot: 19, wonder: 1 }, PALACE).rail);
}

#[test]
fn tier_two_escalates_with_race_progress_and_is_flat_early() {
    let build = Action::Build { slot: 18 };
    let held = [0usize, 1, 2, 3, 4];
    for k in 0..=5usize {
        let ctx = context(0, &held[..k], &[], false, false);
        let f = factors(&ctx, build, UNIVERSITY);
        if k >= 3 {
            assert_eq!(f.sci_push, Some(k), "k={k}");
        } else {
            assert!(!ctx.active, "under three symbols each the position is quiet: k={k}");
            assert_eq!(f.sci_push, None);
        }
    }
    // Made active by the military race, the low end is reachable.
    let ctx = context(4, &held[..2], &[], false, false);
    assert!(ctx.active);
    assert_eq!(factors(&ctx, build, UNIVERSITY).sci_push, Some(2));
}

#[test]
fn a_quiet_position_is_untouched_by_any_variant() {
    let ctx = context(1, &[0], &[], false, false);
    assert!(!ctx.active);
    for action in [
        Action::Build { slot: 18 },
        Action::Discard { slot: 19 },
        Action::Build { slot: 17 },
        Action::BuildWonder { slot: 19, wonder: 1 },
    ] {
        assert_eq!(
            race_factors(&ctx, action, Some(GUARD_TOWER), &vec![0, 2]),
            RaceFactors { sci_push: None, sci_deny: None, mil_push: None, mil_deny: None, rail: false }
        );
    }
}

#[test]
fn non_card_actions_are_never_multiplied() {
    let ctx = context(8, &[0, 1, 2, 3, 4], &[], false, false);
    assert!(ctx.active);
    let none = RaceFactors { sci_push: None, sci_deny: None, mil_push: None, mil_deny: None, rail: false };
    assert_eq!(race_factors(&ctx, Action::Effect { choice: 0 }, Some(UNIVERSITY), &vec![]), none);
    // An empty slot has no card to look up either.
    assert_eq!(race_factors(&ctx, Action::Build { slot: 0 }, None, &vec![]), none);
}

#[test]
fn smart_prefers_a_free_chain_build_over_an_equal_kind_alternative() {
    let build = Action::Build { slot: 4 };
    let chain = BuildCard { chain_free: true, symbol_held: None };
    let plain = BuildCard { chain_free: false, symbol_held: None };
    assert_eq!(
        build_bonuses(build, true, Some(chain)),
        BuildBonuses { chain_free: true, new_symbol: false, pair_complete: false }
    );
    assert_eq!(
        build_bonuses(build, true, Some(plain)),
        BuildBonuses { chain_free: false, new_symbol: false, pair_complete: false }
    );
    let fresh = BuildCard { chain_free: false, symbol_held: Some(0) };
    let pair = BuildCard { chain_free: false, symbol_held: Some(1) };
    assert!(build_bonuses(build, true, Some(fresh)).new_symbol);
    assert!(build_bonuses(build, true, Some(pair)).pair_complete);
    // Without the lookup, or for anything but a build, nothing applies.
    assert!(!build_bonuses(build, false, Some(chain)).chain_free);
    assert!(!build_bonuses(Action::Discard { slot: 4 }, true, Some(chain)).chain_free);
}

#[test]
fn a_uniform_playout_move_is_always_legal() {
    let legal: Vec<Action> = (0..5).map(|s| Action::Discard { slot: s }).collect();
    let mut rng = StdRng::seed_from_u64(4);
    let mut seen = [false; 5];
    for _ in 0..300 {
        let a = pick_uniform(&legal, &mut rng);
        let i = legal.iter().position(|&b| b == a).expect("a legal move");
        seen[i] = true;
    }
    assert!(seen.iter().all(|&s| s));
}

#[test]
fn the_shield_delta_table_covers_the_biggest_gain_any_card_can_make() {
    // The biggest red card prints three shields; Strategy adds one.
    assert!(3 + 1 <= MAX_SHIELD_STEP);
    let delta = [0i32, 10, 20, 30, 40];
    assert_eq!(shields_value_differenced(0, true, &delta, -1), -1);
    assert_eq!(shields_value_differenced(1, false, &delta, -1), 10);
    assert_eq!(shields_value_differenced(2, true, &delta, -1), 30);
    assert_eq!(shields_value_differenced(3, true, &delta, -1), 40);
    assert_eq!(shields_value_differenced(9, false, &delta, -1), 40);
}

#[test]
fn a_symbol_opens_a_rung_completes_a_pair_or_does_nothing() {
    let held = vec![0u8, 1, 1, 2];
    let awarded = vec![false, false, true, false];
    assert_eq!(symbol_value(&held, &awarded, 0, 5, 3, 0), 5);
    assert_eq!(symbol_value(&held, &awarded, 1, 5, 3, 0), 3);
    assert_eq!(symbol_value(&held, &awarded, 2, 5, 3, 0), 0);
    assert_eq!(symbol_value(&held, &awarded, 3, 5, 3, 0), 0);
    assert_eq!(ladder_step_rungs(2, 7), (3, 2));
    assert_eq!(ladder_step_rungs(6, 7), (6, 5));
    assert_eq!(ladder_step_rungs(200, 7), (6, 5));
}

fn board(n: usize) -> BoardView {
    BoardView {
        in_city: vec![false; n],
        discard: vec![false; n],
        fodder: vec![false; n],
        face_up: vec![false; n],
        unknown_pool: vec![false; n],
        first_undealt_age: 3,
    }
}

#[test]
fn a_successor_already_in_the_discard_pile_carries_no_equity() {
    let mut b = board(6);
    b.discard[1] = true;
    b.face_up[2] = true;
    b.unknown_pool[3] = true;
    assert_eq!(successor_presence(&b, 1, 2), Presence::Gone);
    assert_eq!(successor_presence(&b, 2, 2), Presence::FaceUp);
    assert_eq!(successor_presence(&b, 3, 2), Presence::Hidden);
    assert_eq!(successor_presence(&b, 4, 3), Presence::Undealt(3));
    assert_eq!(successor_presence(&b, 5, 2), Presence::Boxed);
}

#[test]
fn holding_a_chain_starter_is_worth_something_and_taking_the_successor_stops_paying() {
    let built = vec![true, true, false, true];
    let chain_to = vec![Some(4u16), None, Some(5), Some(6)];
    let mut gone = vec![false; 8];
    assert_eq!(live_chain_starters(&built, &chain_to, &gone), vec![0, 3]);
    // Taking the successor of starter 0 stops it paying.
    gone[4] = true;
    assert_eq!(live_chain_starters(&built, &chain_to, &gone), vec![3]);
}

#[test]
fn the_menu_stands_down_off_the_roots_age() {
    assert!(menu_applies(false, 2, 2, Phase::Turn));
    assert!(!menu_applies(false, 3, 2, Phase::Turn));
    assert!(!menu_applies(true, 2, 2, Phase::Turn));
    assert!(!menu_applies(false, 2, 2, Phase::ChooseFirstPlayer));
}

#[test]
fn soft_affordability_gives_a_narrowly_unaffordable_card_partial_weight() {
    let slots = vec![
        MenuSlot { accessible: true, face_up: true, price: 3 },
        MenuSlot { accessible: true, face_up: true, price: 6 },
        MenuSlot { accessible: false, face_up: true, price: 0 },
        MenuSlot { accessible: true, face_up: false, price: 0 },
    ];
    assert_eq!(menu_slots(&slots, 4, false), vec![0]);
    assert_eq!(menu_slots(&slots, 4, true), vec![0, 1]);
    assert_eq!(menu_slots(&slots, 6, false), vec![0, 1]);
}

#[test]
fn the_wonder_floor_notices_a_wonder_the_starved_player_can_still_afford() {
    let wonders = vec![
        OwnedWonder { built: false, price: 2 },
        OwnedWonder { built: true, price: 0 },
        OwnedWonder { built: false, price: 9 },
    ];
    assert_eq!(affordable_wonders(&wonders, 3, 2), vec![0]);
    assert_eq!(affordable_wonders(&wonders, 3, 9), vec![0, 2]);
    // Once seven wonders stand, none can be built.
    assert_eq!(affordable_wonders(&wonders, 7, 9), Vec::<usize>::new());
}

#[test]
fn production_reads_the_next_units_of_each_resource_up_to_the_table() {
    // Holding one wood and no clay, a card making two wood and one clay
    // reads the second and third wood rows and the first clay row.
    assert_eq!(
        production_entries(&vec![1, 0, 0], &vec![2, 1, 0]),
        vec![(1, 0), (2, 0), (0, 1)]
    );
    // Units past the table are worth nothing and read no entry.
    assert_eq!(production_entries(&vec![3, 4], &vec![3, 2]), vec![(3, 0)]);
    assert_eq!(production_entries(&vec![], &vec![]), Vec::<(usize, usize)>::new());
}
