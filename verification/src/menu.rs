//! The two forward-looking terms — what the next mover's menu of affordable
//! cards is worth, and what a chain starter is worth for the successor it
//! unlocks — reduced to the decisions they are made of: which table entry a
//! card's shields or symbol reads, whether a chain successor can still
//! appear, which starters still pay, and which cards and wonders the next
//! mover can afford.
//!
//! The prices themselves are floating-point and are applied by the caller.

use vstd::prelude::*;

use crate::game::Phase;
use crate::rails::MAX_WONDERS_BUILT;
use crate::terms::MAX_UNITS;

verus! {

/// The largest shield gain one card can carry: the biggest printed red card
/// plus the Strategy token's bonus. The shield table is sized to it.
pub const MAX_SHIELD_STEP: usize = 4;

/// The entry of the shield table a card with `printed` shields reads, under
/// the differenced pricing: `None` (worth nothing) for a card with no
/// shields, else its shields plus the Strategy bonus, capped at the table.
pub open spec fn shield_step_of(printed: u8, strategy: bool) -> Option<int> {
    if printed == 0 {
        None
    } else {
        let k = printed as int + if strategy && printed < 255 {
            1int
        } else {
            0int
        };
        Some(
            if k < MAX_SHIELD_STEP {
                k
            } else {
                MAX_SHIELD_STEP as int
            },
        )
    }
}

/// A card with shields reads the table at its printed shields, one further
/// for a holder of the Strategy token, never past the last entry; a card
/// without shields reads nothing. More shields never read an earlier entry.
pub proof fn lemma_shield_step_reads_printed_plus_strategy(printed: u8, strategy: bool, other: u8)
    ensures
        printed == 0 ==> shield_step_of(printed, strategy) is None,
        printed > 0 && !strategy ==> shield_step_of(printed, strategy) == Some(
            if printed <= MAX_SHIELD_STEP { printed as int } else { MAX_SHIELD_STEP as int },
        ),
        0 < printed < MAX_SHIELD_STEP && strategy ==> shield_step_of(printed, strategy) == Some(
            printed + 1,
        ),
        0 < printed <= other ==> shield_step_of(printed, strategy)->0 <= shield_step_of(other, strategy)->0,
{
}

/// What a card's `printed` shields are worth under the differenced pricing:
/// the entry of `shield_delta` its shields (plus the Strategy bonus) reach,
/// or `zero` for a card with no shields.
pub fn shields_value_differenced<T: Copy>(
    printed: u8,
    strategy: bool,
    shield_delta: &[T; 5],
    zero: T,
) -> (r: T)
    ensures
        r == match shield_step_of(printed, strategy) {
            Some(k) => shield_delta@[k],
            None => zero,
        },
{
    if printed == 0 {
        return zero;
    }
    let k = printed.saturating_add(if strategy {
        1
    } else {
        0
    }) as usize;
    let i = if k < MAX_SHIELD_STEP {
        k
    } else {
        MAX_SHIELD_STEP
    };
    shield_delta[i]
}

/// What one scientific symbol on a card does for a player holding `held`
/// copies of each symbol with pair tokens `awarded`: opens a new rung of the
/// ladder (`ladder_step`), completes a half-pair (`pair_bonus`), or nothing.
pub fn symbol_value<T: Copy>(
    held: &Vec<u8>,
    awarded: &Vec<bool>,
    symbol: u8,
    ladder_step: T,
    pair_bonus: T,
    zero: T,
) -> (r: T)
    requires
        (symbol as int) < held@.len(),
        awarded@.len() == held@.len(),
    ensures
        r == if held@[symbol as int] == 0 {
            ladder_step
        } else if held@[symbol as int] == 1 && !awarded@[symbol as int] {
            pair_bonus
        } else {
            zero
        },
{
    let i = symbol as usize;
    if held[i] == 0 {
        ladder_step
    } else if held[i] == 1 && !awarded[i] {
        pair_bonus
    } else {
        zero
    }
}

/// The two rungs of a `ladder_len`-rung science ladder whose difference
/// prices the next distinct symbol for a player at `distinct` symbols:
/// `(distinct + 1, distinct)`, or the top rung's own step once there is no
/// rung above.
pub fn ladder_step_rungs(distinct: u8, ladder_len: usize) -> (r: (usize, usize))
    requires
        ladder_len >= 2,
    ensures
        (distinct as int) + 1 < ladder_len ==> r == (((distinct as int + 1) as usize, distinct as usize)),
        (distinct as int) + 1 >= ladder_len ==> r == ((ladder_len - 1) as usize, (ladder_len - 2) as usize),
        r.0 < ladder_len && r.1 < ladder_len && r.0 == r.1 + 1,
{
    let d = distinct as usize;
    if d + 1 < ladder_len {
        (d + 1, d)
    } else {
        (ladder_len - 1, ladder_len - 2)
    }
}

/// The public piles a chain successor can be found in.
pub struct BoardView {
    /// Per card: built in either city.
    pub in_city: Vec<bool>,
    /// Per card: in the discard pile.
    pub discard: Vec<bool>,
    /// Per card: spent under a wonder.
    pub fodder: Vec<bool>,
    /// Per card: face up in the structure.
    pub face_up: Vec<bool>,
    /// Per card: among the current age's unseen cards.
    pub unknown_pool: Vec<bool>,
    /// The first age whose deck has not been dealt.
    pub first_undealt_age: u8,
}

impl BoardView {
    /// Every pile has one entry per card.
    pub open spec fn wf(&self) -> bool {
        &&& self.discard@.len() == self.in_city@.len()
        &&& self.fodder@.len() == self.in_city@.len()
        &&& self.face_up@.len() == self.in_city@.len()
        &&& self.unknown_pool@.len() == self.in_city@.len()
    }
}

/// Where a chain successor stands, which fixes the probability it appears.
#[derive(Debug, Clone, Copy, PartialEq, Eq, Structural)]
pub enum Presence {
    /// In a city, the discard pile or under a wonder: it will never be taken.
    Gone,
    /// Face up in the structure: certain.
    FaceUp,
    /// Among the current age's unseen cards.
    Hidden,
    /// In the deck of this age, not yet dealt.
    Undealt(u8),
    /// From an age that has come and gone without it: back in the box.
    Boxed,
}

/// Where successor `target`, of age `target_age`, stands.
pub open spec fn presence_of(board: &BoardView, target: int, target_age: u8) -> Presence {
    if board.in_city@[target] || board.discard@[target] || board.fodder@[target] {
        Presence::Gone
    } else if board.face_up@[target] {
        Presence::FaceUp
    } else if board.unknown_pool@[target] {
        Presence::Hidden
    } else if target_age >= board.first_undealt_age {
        Presence::Undealt(target_age)
    } else {
        Presence::Boxed
    }
}

/// [`presence_of`], computed.
pub fn successor_presence(board: &BoardView, target: usize, target_age: u8) -> (r: Presence)
    requires
        board.wf(),
        target < board.in_city@.len(),
    ensures
        r == presence_of(board, target as int, target_age),
{
    if board.in_city[target] || board.discard[target] || board.fodder[target] {
        Presence::Gone
    } else if board.face_up[target] {
        Presence::FaceUp
    } else if board.unknown_pool[target] {
        Presence::Hidden
    } else if target_age >= board.first_undealt_age {
        Presence::Undealt(target_age)
    } else {
        Presence::Boxed
    }
}

/// The starters in a city whose successor is still in the game: their
/// equity is what the chain-equity term adds up. `built` is the city,
/// `chain_to[c]` the successor card `c` unlocks, if any, and `gone` the
/// cards out of play.
pub open spec fn live_starter(built: Seq<bool>, chain_to: Seq<Option<u16>>, gone: Seq<bool>, c: int) -> bool {
    &&& built[c]
    &&& chain_to[c] is Some
    &&& !gone[chain_to[c]->0 as int]
}

/// The live starters, in increasing order.
pub fn live_chain_starters(built: &Vec<bool>, chain_to: &Vec<Option<u16>>, gone: &Vec<bool>) -> (r: Vec<usize>)
    requires
        chain_to@.len() == built@.len(),
        forall|c: int|
            0 <= c < chain_to@.len() ==> match #[trigger] chain_to@[c] {
                Some(t) => (t as int) < gone@.len(),
                None => true,
            },
    ensures
        forall|k: int| 0 <= k < r@.len() ==> (#[trigger] r@[k]) < built@.len() && live_starter(built@, chain_to@, gone@, r@[k] as int),
        forall|k: int, l: int| 0 <= k < l < r@.len() ==> r@[k] < r@[l],
        forall|c: int|
            0 <= c < built@.len() && live_starter(built@, chain_to@, gone@, c) ==> exists|k: int|
                0 <= k < r@.len() && r@[k] == c,
{
    let mut out: Vec<usize> = Vec::new();
    let mut c: usize = 0;
    while c < built.len()
        invariant
            chain_to@.len() == built@.len(),
            forall|cc: int|
                0 <= cc < chain_to@.len() ==> match #[trigger] chain_to@[cc] {
                    Some(t) => (t as int) < gone@.len(),
                    None => true,
                },
            c <= built@.len(),
            forall|k: int| 0 <= k < out@.len() ==> (#[trigger] out@[k]) < c && live_starter(built@, chain_to@, gone@, out@[k] as int),
            forall|k: int, l: int| 0 <= k < l < out@.len() ==> out@[k] < out@[l],
            forall|cc: int|
                0 <= cc < c && live_starter(built@, chain_to@, gone@, cc) ==> exists|k: int|
                    0 <= k < out@.len() && out@[k] == cc,
        decreases built@.len() - c,
    {
        let ghost prev = out@;
        let live = built[c] && match chain_to[c] {
            Some(t) => !gone[t as usize],
            None => false,
        };
        if live {
            out.push(c);
        }
        proof {
            assert forall|cc: int|
                0 <= cc < c + 1 && live_starter(built@, chain_to@, gone@, cc) implies exists|k: int|
                    0 <= k < out@.len() && out@[k] == cc by {
                if cc == c {
                    assert(out@[out@.len() - 1] == cc);
                } else {
                    let k = choose|k: int| 0 <= k < prev.len() && prev[k] == cc;
                    assert(out@[k] == cc);
                }
            }
        }
        c = c + 1;
    }
    out
}

/// Whether the menu term reads the structure at all: it stands down once
/// the game is over, or the age or the phase has moved on from the root's,
/// since the cards of a newly dealt age are a throwaway sample's invention.
pub open spec fn menu_applies_of(is_over: bool, age: u8, root_age: u8, phase: Phase) -> bool {
    !is_over && age == root_age && phase == Phase::Turn
}

/// [`menu_applies_of`], computed.
pub fn menu_applies(is_over: bool, age: u8, root_age: u8, phase: Phase) -> (b: bool)
    ensures
        b == menu_applies_of(is_over, age, root_age, phase),
{
    !is_over && age == root_age && phase == Phase::Turn
}

/// One slot of the structure, as the menu reads it for the next mover.
#[derive(Debug, Clone, Copy, PartialEq, Eq, Structural)]
pub struct MenuSlot {
    pub accessible: bool,
    pub face_up: bool,
    /// What the card there costs the next mover, in coins.
    pub price: u16,
}

/// Whether slot `s` is on the next mover's menu: an accessible face-up card
/// they can pay for out of `coins`, or, under soft affordability, any
/// accessible face-up card (weighted by how close they are to paying).
pub open spec fn on_menu(slots: Seq<MenuSlot>, coins: u16, soft: bool, s: int) -> bool {
    &&& slots[s].accessible
    &&& slots[s].face_up
    &&& (soft || slots[s].price <= coins)
}

/// The menu only grows with the next mover's purse, and soft affordability
/// keeps every card the hard cutoff keeps: a slot on the menu stays on it
/// with more coins, or with the cutoff softened.
pub proof fn lemma_menu_grows_with_coins(slots: Seq<MenuSlot>, coins: u16, more: u16, soft: bool, s: int)
    requires
        coins <= more,
        on_menu(slots, coins, soft, s),
    ensures
        on_menu(slots, more, soft, s),
        on_menu(slots, coins, true, s),
        slots[s].accessible && slots[s].face_up,
{
}

/// The slots on the next mover's menu, in increasing order.
pub fn menu_slots(slots: &Vec<MenuSlot>, coins: u16, soft: bool) -> (r: Vec<usize>)
    ensures
        forall|k: int| 0 <= k < r@.len() ==> (#[trigger] r@[k]) < slots@.len() && on_menu(slots@, coins, soft, r@[k] as int),
        forall|k: int, l: int| 0 <= k < l < r@.len() ==> r@[k] < r@[l],
        forall|s: int|
            0 <= s < slots@.len() && on_menu(slots@, coins, soft, s) ==> exists|k: int|
                0 <= k < r@.len() && r@[k] == s,
{
    let mut out: Vec<usize> = Vec::new();
    let mut s: usize = 0;
    while s < slots.len()
        invariant
            s <= slots@.len(),
            forall|k: int| 0 <= k < out@.len() ==> (#[trigger] out@[k]) < s && on_menu(slots@, coins, soft, out@[k] as int),
            forall|k: int, l: int| 0 <= k < l < out@.len() ==> out@[k] < out@[l],
            forall|ss: int|
                0 <= ss < s && on_menu(slots@, coins, soft, ss) ==> exists|k: int|
                    0 <= k < out@.len() && out@[k] == ss,
        decreases slots@.len() - s,
    {
        let ghost prev = out@;
        let slot = slots[s];
        if slot.accessible && slot.face_up && (soft || slot.price <= coins) {
            out.push(s);
        }
        proof {
            assert forall|ss: int|
                0 <= ss < s + 1 && on_menu(slots@, coins, soft, ss) implies exists|k: int|
                    0 <= k < out@.len() && out@[k] == ss by {
                if ss == s {
                    assert(out@[out@.len() - 1] == ss);
                } else {
                    let k = choose|k: int| 0 <= k < prev.len() && prev[k] == ss;
                    assert(out@[k] == ss);
                }
            }
        }
        s = s + 1;
    }
    out
}

/// One of the next mover's drafted wonders, as the menu floor reads it.
#[derive(Debug, Clone, Copy, PartialEq, Eq, Structural)]
pub struct OwnedWonder {
    pub built: bool,
    /// What building it costs them, in coins.
    pub price: u16,
}

/// Whether wonder `w` is a wonder the next mover could build right now: the
/// seven-wonder cap has not closed, they have not built it, and they can pay.
pub open spec fn affordable_wonder(wonders: Seq<OwnedWonder>, wonders_built: u8, coins: u16, w: int) -> bool {
    &&& wonders_built < MAX_WONDERS_BUILT
    &&& !wonders[w].built
    &&& wonders[w].price <= coins
}

/// The next mover's wonders they could build right now, in order: the
/// candidates for the wonder entry of the menu floor.
pub fn affordable_wonders(wonders: &Vec<OwnedWonder>, wonders_built: u8, coins: u16) -> (r: Vec<usize>)
    ensures
        forall|k: int| 0 <= k < r@.len() ==> (#[trigger] r@[k]) < wonders@.len() && affordable_wonder(wonders@, wonders_built, coins, r@[k] as int),
        forall|k: int, l: int| 0 <= k < l < r@.len() ==> r@[k] < r@[l],
        forall|w: int|
            0 <= w < wonders@.len() && affordable_wonder(wonders@, wonders_built, coins, w) ==> exists|k: int|
                0 <= k < r@.len() && r@[k] == w,
{
    let mut out: Vec<usize> = Vec::new();
    if wonders_built >= MAX_WONDERS_BUILT {
        return out;
    }
    let mut w: usize = 0;
    while w < wonders.len()
        invariant
            wonders_built < MAX_WONDERS_BUILT,
            w <= wonders@.len(),
            forall|k: int| 0 <= k < out@.len() ==> (#[trigger] out@[k]) < w && affordable_wonder(wonders@, wonders_built, coins, out@[k] as int),
            forall|k: int, l: int| 0 <= k < l < out@.len() ==> out@[k] < out@[l],
            forall|ww: int|
                0 <= ww < w && affordable_wonder(wonders@, wonders_built, coins, ww) ==> exists|k: int|
                    0 <= k < out@.len() && out@[k] == ww,
        decreases wonders@.len() - w,
    {
        let ghost prev = out@;
        let x = wonders[w];
        if !x.built && x.price <= coins {
            out.push(w);
        }
        proof {
            assert forall|ww: int|
                0 <= ww < w + 1 && affordable_wonder(wonders@, wonders_built, coins, ww) implies exists|k: int|
                    0 <= k < out@.len() && out@[k] == ww by {
                if ww == w {
                    assert(out@[out@.len() - 1] == ww);
                } else {
                    let k = choose|k: int| 0 <= k < prev.len() && prev[k] == ww;
                    assert(out@[k] == ww);
                }
            }
        }
        w = w + 1;
    }
    out
}

/// How many of the `produces` units of a resource the player already holds
/// `have` of still fall inside the marginal-value table: the units past its
/// last row are worth nothing.
pub open spec fn priced_units(have: usize, produces: u8) -> int {
    let room = MAX_UNITS as int - have as int;
    if room <= 0 {
        0
    } else if (produces as int) < room {
        produces as int
    } else {
        room
    }
}

/// The marginal-value table entries a production profile is priced at,
/// resource by resource over the first `upto` resources: a player holding
/// `have[r]` units of `r` reads rows `have[r]`, `have[r] + 1`, … of column
/// `r` (the row for the unit after the ones held) for as many units as stay
/// inside the table.
pub open spec fn unit_entries(have: Seq<usize>, produces: Seq<u8>, upto: int) -> Seq<(usize, usize)>
    decreases upto,
{
    if upto <= 0 {
        Seq::empty()
    } else {
        let r = upto - 1;
        unit_entries(have, produces, r) + Seq::new(
            priced_units(have[r], produces[r]) as nat,
            |i: int| ((have[r] + i) as usize, r as usize),
        )
    }
}

/// The table entries, as `(row, resource)`, whose values add up to what a
/// card's printed production would save the player: [`unit_entries`] over
/// every resource.
pub fn production_entries(have: &Vec<usize>, produces: &Vec<u8>) -> (r: Vec<(usize, usize)>)
    requires
        have@.len() == produces@.len(),
    ensures
        r@ == unit_entries(have@, produces@, produces@.len() as int),
        forall|k: int| 0 <= k < r@.len() ==> (#[trigger] r@[k]).0 < MAX_UNITS && r@[k].1 < produces@.len(),
{
    let mut out: Vec<(usize, usize)> = Vec::new();
    let mut r: usize = 0;
    while r < produces.len()
        invariant
            have@.len() == produces@.len(),
            r <= produces@.len(),
            out@ == unit_entries(have@, produces@, r as int),
            forall|k: int| 0 <= k < out@.len() ==> (#[trigger] out@[k]).0 < MAX_UNITS && out@[k].1 < r,
        decreases produces@.len() - r,
    {
        let h = have[r];
        let n: usize = if h >= MAX_UNITS {
            0
        } else if (produces[r] as usize) < MAX_UNITS - h {
            produces[r] as usize
        } else {
            MAX_UNITS - h
        };
        let ghost before = out@;
        let mut i: usize = 0;
        while i < n
            invariant
                have@.len() == produces@.len(),
                r < produces@.len(),
                h == have@[r as int],
                n == priced_units(h, produces@[r as int]),
                i <= n,
                out@ == before + Seq::new(i as nat, |j: int| ((h + j) as usize, r)),
                forall|k: int| 0 <= k < before.len() ==> (#[trigger] before[k]).0 < MAX_UNITS && before[k].1 < r,
                forall|k: int| 0 <= k < out@.len() ==> (#[trigger] out@[k]).0 < MAX_UNITS && out@[k].1 <= r,
            decreases n - i,
        {
            out.push((h + i, r));
            proof {
                assert(out@ =~= before + Seq::new((i + 1) as nat, |j: int| ((h + j) as usize, r)));
            }
            i = i + 1;
        }
        proof {
            assert(out@ =~= unit_entries(have@, produces@, r + 1));
        }
        r = r + 1;
    }
    out
}

} // verus!
