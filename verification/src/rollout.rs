//! The playout policy's decisions: which race multipliers a move earns, when
//! a move is a terminal rail (it takes an available win or removes an
//! available opposing one), which per-card build bonuses apply, and the
//! uniform draw.
//!
//! The multipliers themselves are floating-point tables applied by the
//! caller; what is stated here is which entry of which table each move
//! reads.

use rand::rngs::StdRng;
use vstd::prelude::*;

use crate::game::Action;
use crate::player::Player;
use crate::rng::gen_index;

verus! {

/// Everything the race layer knows about a position, read from the mover's
/// point of view.
pub struct RaceContext {
    /// Per scientific symbol: copies the mover holds.
    pub my_sci: Vec<u8>,
    /// Per scientific symbol: copies the opponent holds.
    pub opp_sci: Vec<u8>,
    /// The mover's distinct-symbol count, clamped into `0..=5`.
    pub my_k: usize,
    /// The opponent's distinct-symbol count, clamped into `0..=5`.
    pub opp_k: usize,
    /// The conflict pawn's distance towards the opponent's capital, from the
    /// mover's point of view.
    pub d: i32,
    pub my_strat: bool,
    pub opp_strat: bool,
    /// The capital distance of the military track.
    pub cap: i32,
    /// Whether either race is far enough along to be worth looking at.
    pub active: bool,
}

/// `x` clamped into `0..=5`.
pub open spec fn clamp5(x: u8) -> int {
    if x < 5 {
        x as int
    } else {
        5
    }
}

/// Read the race context. Inactive when the race layer is neutral, or in a
/// quiet position: both players under three distinct symbols and the pawn
/// within two steps of the centre.
pub fn race_context(
    neutral: bool,
    mover: Player,
    conflict: i8,
    my_sci: Vec<u8>,
    opp_sci: Vec<u8>,
    my_distinct: u8,
    opp_distinct: u8,
    my_strat: bool,
    opp_strat: bool,
    cap: i32,
) -> (c: RaceContext)
    ensures
        ({
            let d = match mover {
                Player::One => conflict as int,
                Player::Two => -(conflict as int),
            };
            let quiet = my_distinct < 3 && opp_distinct < 3 && -3 < d < 3;
            &&& c.active == (!neutral && !quiet)
            &&& !c.active ==> c.my_sci@.len() == 0 && c.opp_sci@.len() == 0 && c.my_k == 0 && c.opp_k
                == 0 && c.d == 0 && !c.my_strat && !c.opp_strat && c.cap == 0
            &&& c.active ==> {
                &&& c.d == d
                &&& c.my_k == clamp5(my_distinct)
                &&& c.opp_k == clamp5(opp_distinct)
                &&& c.my_sci@ == my_sci@
                &&& c.opp_sci@ == opp_sci@
                &&& c.my_strat == my_strat
                &&& c.opp_strat == opp_strat
                &&& c.cap == cap
            }
        }),
{
    let inactive = RaceContext {
        my_sci: Vec::new(),
        opp_sci: Vec::new(),
        my_k: 0,
        opp_k: 0,
        d: 0,
        my_strat: false,
        opp_strat: false,
        cap: 0,
        active: false,
    };
    if neutral {
        return inactive;
    }
    let d: i32 = match mover {
        Player::One => conflict as i32,
        Player::Two => -(conflict as i32),
    };
    if my_distinct < 3 && opp_distinct < 3 && -3 < d && d < 3 {
        return inactive;
    }
    RaceContext {
        my_sci,
        opp_sci,
        my_k: if my_distinct < 5 {
            my_distinct as usize
        } else {
            5
        },
        opp_k: if opp_distinct < 5 {
            opp_distinct as usize
        } else {
            5
        },
        d,
        my_strat,
        opp_strat,
        cap,
        active: true,
    }
}

/// The facts about the card in a move's slot that the race layer reads.
#[derive(Debug, Clone, Copy, PartialEq, Eq, Structural)]
pub struct RaceCard {
    pub science: Option<u8>,
    pub shields: u8,
    /// Whether it is a red (military) building, which the Strategy token
    /// adds a shield to.
    pub military: bool,
}

/// Which entry of each race table a move is multiplied by (`None` for a
/// table it does not touch), and whether it is a rail.
#[derive(Debug, Clone, Copy, PartialEq, Eq, Structural)]
pub struct RaceFactors {
    pub sci_push: Option<usize>,
    pub sci_deny: Option<usize>,
    pub mil_push: Option<usize>,
    pub mil_deny: Option<usize>,
    pub rail: bool,
}

/// No multiplier at all.
pub open spec fn no_factors() -> RaceFactors {
    RaceFactors { sci_push: None, sci_deny: None, mil_push: None, mil_deny: None, rail: false }
}

/// The slot-taking part of a move: the wonder it builds (if any) and whether
/// it builds the card into the city.
pub open spec fn move_shape(action: Action) -> Option<(Option<u8>, bool)> {
    match action {
        Action::Build { .. } => Some((None, true)),
        Action::Discard { .. } => Some((None, false)),
        Action::BuildWonder { wonder, .. } => Some((Some(wonder), false)),
        Action::Effect { .. } => None,
    }
}

/// Shields the mover would gain by the move.
pub open spec fn my_shields_of(ctx: &RaceContext, card: RaceCard, wonder: Option<u8>, is_build: bool, wonder_shields: Seq<u8>) -> int {
    match wonder {
        Some(w) => wonder_shields[w as int] as int,
        None => if is_build {
            card.shields as int + if ctx.my_strat && card.military {
                1int
            } else {
                0int
            }
        } else {
            0
        },
    }
}

/// The race factors of `action`, whose slot holds `card`.
pub open spec fn race_factors_of(ctx: &RaceContext, action: Action, card: Option<RaceCard>, wonder_shields: Seq<u8>) -> RaceFactors {
    if !ctx.active || move_shape(action) is None || card is None {
        no_factors()
    } else {
        let (wonder, is_build) = move_shape(action)->0;
        let c = card->0;
        let push_sym = match c.science {
            Some(i) => is_build && ctx.my_sci@[i as int] == 0,
            None => false,
        };
        let deny_sym = match c.science {
            Some(i) => ctx.opp_sci@[i as int] == 0,
            None => false,
        };
        let mine = my_shields_of(ctx, c, wonder, is_build, wonder_shields);
        let abs_d = if ctx.d < 0 {
            -(ctx.d as int)
        } else {
            ctx.d as int
        };
        let opp_shields = c.shields as int + if ctx.opp_strat && c.military {
            1int
        } else {
            0int
        };
        let neg_d = -(ctx.d as int);
        RaceFactors {
            sci_push: if push_sym {
                Some(ctx.my_k)
            } else {
                None
            },
            sci_deny: if deny_sym {
                Some(ctx.opp_k)
            } else {
                None
            },
            mil_push: if mine > 0 {
                Some(
                    (if abs_d < 8 {
                        abs_d
                    } else {
                        8
                    }) as usize,
                )
            } else {
                None
            },
            mil_deny: if c.shields > 0 && !is_build {
                Some(
                    (if neg_d < 0 {
                        0
                    } else if neg_d > 8 {
                        8
                    } else {
                        neg_d
                    }) as usize,
                )
            } else {
                None
            },
            rail: (push_sym && ctx.my_k == 5) || (deny_sym && ctx.opp_k == 5) || (mine > 0 && ctx.d
                + mine >= ctx.cap) || (c.shields > 0 && neg_d + opp_shields >= ctx.cap),
        }
    }
}

/// The race multipliers a move earns.
///
/// A new symbol pushes the mover's science race (only a real build puts it
/// in their city); taking any card with a symbol the opponent lacks denies
/// theirs. Shields the mover gains push the military race; a red card taken
/// away without being built denies the opponent's. A move is a rail when it
/// completes the mover's sixth symbol or the opponent's, reaches the
/// opponent's capital, or takes away a card that would have handed the
/// opponent theirs.
pub fn race_factors(ctx: &RaceContext, action: Action, card: Option<RaceCard>, wonder_shields: &Vec<u8>) -> (r: RaceFactors)
    requires
        ctx.active ==> ctx.my_sci@.len() == ctx.opp_sci@.len(),
        ctx.active ==> ctx.my_k <= 5 && ctx.opp_k <= 5,
        ctx.active ==> -128 <= ctx.d <= 128,
        ctx.active ==> -1000 <= ctx.cap <= 1000,
        ctx.active ==> (card matches Some(c) ==> match c.science {
            Some(i) => (i as int) < ctx.my_sci@.len(),
            None => true,
        }),
        ctx.active ==> (action matches Action::BuildWonder { wonder, .. } ==> (wonder as int)
            < wonder_shields@.len()),
    ensures
        r == race_factors_of(ctx, action, card, wonder_shields@),
{
    if !ctx.active {
        return RaceFactors { sci_push: None, sci_deny: None, mil_push: None, mil_deny: None, rail: false };
    }
    let (wonder, is_build): (Option<u8>, bool) = match action {
        Action::Build { .. } => (None, true),
        Action::Discard { .. } => (None, false),
        Action::BuildWonder { wonder, .. } => (Some(wonder), false),
        Action::Effect { .. } => {
            return RaceFactors { sci_push: None, sci_deny: None, mil_push: None, mil_deny: None, rail: false };
        },
    };
    let c = match card {
        Some(c) => c,
        None => {
            return RaceFactors { sci_push: None, sci_deny: None, mil_push: None, mil_deny: None, rail: false };
        },
    };
    let mut rail = false;
    let mut sci_push: Option<usize> = None;
    let mut sci_deny: Option<usize> = None;
    match c.science {
        Some(i) => {
            if is_build && ctx.my_sci[i as usize] == 0 {
                sci_push = Some(ctx.my_k);
                rail = rail || ctx.my_k == 5;
            }
            if ctx.opp_sci[i as usize] == 0 {
                sci_deny = Some(ctx.opp_k);
                rail = rail || ctx.opp_k == 5;
            }
        },
        None => {},
    }
    let mine: i32 = match wonder {
        Some(w) => wonder_shields[w as usize] as i32,
        None => if is_build {
            c.shields as i32 + if ctx.my_strat && c.military {
                1
            } else {
                0
            }
        } else {
            0
        },
    };
    let mut mil_push: Option<usize> = None;
    if mine > 0 {
        let abs_d: i32 = if ctx.d < 0 {
            -ctx.d
        } else {
            ctx.d
        };
        mil_push = Some(
            if abs_d < 8 {
                abs_d as usize
            } else {
                8
            },
        );
        rail = rail || ctx.d + mine >= ctx.cap;
    }
    let mut mil_deny: Option<usize> = None;
    if c.shields > 0 {
        let opp_shields: i32 = c.shields as i32 + if ctx.opp_strat && c.military {
            1
        } else {
            0
        };
        let neg_d: i32 = -ctx.d;
        rail = rail || neg_d + opp_shields >= ctx.cap;
        if !is_build {
            mil_deny = Some(
                if neg_d < 0 {
                    0
                } else if neg_d > 8 {
                    8
                } else {
                    neg_d as usize
                },
            );
        }
    }
    RaceFactors { sci_push, sci_deny, mil_push, mil_deny, rail }
}

/// A move that puts shields on the mover's side of the track reads the
/// military push table at the pawn's distance from the centre, capped at the
/// table's last entry — however far the pawn is, and on whichever side: a
/// trailing mover four steps behind reads the same entry as a leading one
/// four steps ahead.
pub proof fn lemma_military_push_reads_the_distance(
    ctx: &RaceContext,
    action: Action,
    c: RaceCard,
    wonder_shields: Seq<u8>,
)
    requires
        ctx.active,
        match action {
            Action::Build { .. } => c.shields > 0,
            Action::BuildWonder { wonder, .. } => wonder_shields[wonder as int] > 0,
            _ => false,
        },
    ensures
        ({
            let dist = if ctx.d >= 0 { ctx.d as int } else { 0 - ctx.d };
            race_factors_of(ctx, action, Some(c), wonder_shields).mil_push == Some(
                (if dist <= 8 { dist } else { 8 }) as usize,
            )
        }),
{
}

/// The military push is symmetric in the pawn's distance from the centre:
/// two contexts alike but for the side the pawn stands on give a
/// shield-gaining move the same push entry.
pub proof fn lemma_military_push_is_symmetric(
    a: &RaceContext,
    b: &RaceContext,
    action: Action,
    c: RaceCard,
    wonder_shields: Seq<u8>,
)
    requires
        a.active && b.active,
        b.d == -a.d,
        b.my_strat == a.my_strat,
        match action {
            Action::Build { .. } => c.shields > 0,
            Action::BuildWonder { wonder, .. } => wonder_shields[wonder as int] > 0,
            _ => false,
        },
    ensures
        race_factors_of(a, action, Some(c), wonder_shields).mil_push == race_factors_of(
            b,
            action,
            Some(c),
            wonder_shields,
        ).mil_push,
{
    lemma_military_push_reads_the_distance(a, action, c, wonder_shields);
    lemma_military_push_reads_the_distance(b, action, c, wonder_shields);
}

/// Only a real build pushes the mover's science race, and exactly when the
/// card brings a symbol the mover lacks; the push reads the mover's
/// distinct-symbol count. Any move that takes a card carrying a symbol the
/// opponent lacks — build, discard or wonder alike — denies theirs, reading
/// the opponent's count.
pub proof fn lemma_science_push_and_deny(ctx: &RaceContext, action: Action, c: RaceCard, wonder_shields: Seq<u8>)
    requires
        ctx.active,
        !(action is Effect),
    ensures
        ({
            let f = race_factors_of(ctx, action, Some(c), wonder_shields);
            &&& f.sci_push is Some <==> (action is Build && c.science is Some && ctx.my_sci@[
                c.science->0 as int] == 0)
            &&& f.sci_push is Some ==> f.sci_push == Some(ctx.my_k)
            &&& f.sci_deny is Some <==> (c.science is Some && ctx.opp_sci@[c.science->0 as int] == 0)
            &&& f.sci_deny is Some ==> f.sci_deny == Some(ctx.opp_k)
        }),
{
}

/// Taking a red card away without building it denies the opponent's
/// military race, reading how far the opponent is ahead (zero when they are
/// not, capped at the table's last entry); a build never denies.
pub proof fn lemma_military_deny_reads_the_opponents_lead(
    ctx: &RaceContext,
    action: Action,
    c: RaceCard,
    wonder_shields: Seq<u8>,
)
    requires
        ctx.active,
        !(action is Effect),
    ensures
        ({
            let lead = if ctx.d < 0 { 0 - ctx.d } else { 0int };
            let f = race_factors_of(ctx, action, Some(c), wonder_shields);
            &&& (c.shields > 0 && !(action is Build)) ==> f.mil_deny == Some(
                (if lead <= 8 { lead } else { 8 }) as usize,
            )
            &&& (c.shields == 0 || action is Build) ==> f.mil_deny is None
        }),
{
}

/// The rails fire on every game-ending threat: building the sixth symbol,
/// taking away the opponent's sixth, gaining shields that reach the
/// opponent's capital (the Strategy token adding one to a red card the mover
/// builds), and taking a card whose shields would carry the opponent to the
/// mover's capital (the token adding one for them too).
pub proof fn lemma_race_rails_fire(ctx: &RaceContext, action: Action, c: RaceCard, wonder_shields: Seq<u8>)
    requires
        ctx.active,
        !(action is Effect),
    ensures
        ({
            let f = race_factors_of(ctx, action, Some(c), wonder_shields);
            let mine = match action {
                Action::BuildWonder { wonder, .. } => wonder_shields[wonder as int] as int,
                Action::Build { .. } => c.shields as int + if ctx.my_strat && c.military { 1int } else { 0int },
                _ => 0int,
            };
            let theirs = c.shields as int + if ctx.opp_strat && c.military { 1int } else { 0int };
            &&& (action is Build && ctx.my_k == 5 && c.science is Some && ctx.my_sci@[c.science->0 as int]
                == 0) ==> f.rail
            &&& (ctx.opp_k == 5 && c.science is Some && ctx.opp_sci@[c.science->0 as int] == 0) ==> f.rail
            &&& (mine > 0 && ctx.d + mine >= ctx.cap) ==> f.rail
            &&& (c.shields > 0 && 0 - ctx.d + theirs >= ctx.cap) ==> f.rail
        }),
{
}

/// A card that is not a red building and carries no symbol and no shields,
/// taken without building a shield-bearing wonder, touches no race at all.
pub proof fn lemma_race_blind_card_is_untouched(ctx: &RaceContext, action: Action, c: RaceCard, wonder_shields: Seq<u8>)
    requires
        c.science is None,
        c.shields == 0,
        !c.military,
        action matches Action::BuildWonder { wonder, .. } ==> wonder_shields[wonder as int] == 0,
    ensures
        race_factors_of(ctx, action, Some(c), wonder_shields) == no_factors(),
{
}

/// A quiet position, or a neutral race layer, never moves a weight: every
/// move's factors are empty.
pub proof fn lemma_inactive_context_is_neutral(ctx: &RaceContext, action: Action, card: Option<RaceCard>, wonder_shields: Seq<u8>)
    requires
        !ctx.active,
    ensures
        race_factors_of(ctx, action, card, wonder_shields) == no_factors(),
{
}

/// The facts about a card to be built that the per-card build multipliers
/// read.
#[derive(Debug, Clone, Copy, PartialEq, Eq, Structural)]
pub struct BuildCard {
    /// Whether the mover owns the card's chain prerequisite, making it free.
    pub chain_free: bool,
    /// How many copies of the card's scientific symbol the mover holds, if
    /// it carries one.
    pub symbol_held: Option<u8>,
}

/// Which per-card multipliers a build earns: a free chain build, a brand-new
/// symbol, or a symbol that completes a pair.
#[derive(Debug, Clone, Copy, PartialEq, Eq, Structural)]
pub struct BuildBonuses {
    pub chain_free: bool,
    pub new_symbol: bool,
    pub pair_complete: bool,
}

/// The multipliers a move's weight carries on top of its kind's weight:
/// none unless it is a build of a face-up card and some per-card multiplier
/// is switched on (`lookup`).
pub fn build_bonuses(action: Action, lookup: bool, card: Option<BuildCard>) -> (b: BuildBonuses)
    ensures
        b == if action is Build && lookup && card is Some {
            BuildBonuses {
                chain_free: card->0.chain_free,
                new_symbol: card->0.symbol_held == Some(0u8),
                pair_complete: card->0.symbol_held == Some(1u8),
            }
        } else {
            BuildBonuses { chain_free: false, new_symbol: false, pair_complete: false }
        },
{
    let none = BuildBonuses { chain_free: false, new_symbol: false, pair_complete: false };
    match action {
        Action::Build { .. } => {
            if !lookup {
                return none;
            }
            match card {
                Some(c) => BuildBonuses {
                    chain_free: c.chain_free,
                    new_symbol: c.symbol_held == Some(0u8),
                    pair_complete: c.symbol_held == Some(1u8),
                },
                None => none,
            }
        },
        _ => none,
    }
}

/// One of `legal`, drawn uniformly: the playout's move when its policy is
/// uniform, or when there is only one move.
pub fn pick_uniform(legal: &Vec<Action>, rng: &mut StdRng) -> (a: Action)
    requires
        legal@.len() > 0,
    ensures
        legal@.contains(a),
{
    let i = gen_index(rng, legal.len());
    assert(legal@[i as int] == legal[i as int]);
    legal[i]
}

} // verus!
