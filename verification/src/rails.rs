//! The terminal rails: three yes/no questions about a position that override
//! a weighted evaluation when they fire.
//!
//! Everything here is asked of a position `s`, the one a candidate action
//! produces, and of `q`, whoever moves next in it.
//!
//! * **Rail B** — if `q` holds a closing action, the position is `q`'s.
//! * **Rail C** — if `q` holds none but the other player does, and no single
//!   reply of `q`'s takes every one of them away, the position belongs to
//!   the other player.
//! * **Rail C′** — a banked extra turn makes its holder the mover, which is
//!   Rail B read from the other side; nothing special is needed for it.
//!
//! The card half of the detection reads cards in the structure, so it stands
//! down once the position's age differs from the root's; the wonder half is
//! public whatever the age, and is kept.
//!
//! Which sources close, what each card and wonder costs, and how many coins a
//! push of the conflict pawn loots are read off the position by the caller
//! and handed in as a [`RailPosition`]; the rules that decide ownership from
//! those numbers are what this module states and proves.

use vstd::prelude::*;

use crate::game::{Action, Phase};
use crate::player::Player;

verus! {

/// How many wonders may be built in one game, by both players together.
pub const MAX_WONDERS_BUILT: u8 = 7;

/// Whether the terminal rails are consulted at all.
#[derive(Debug, Clone, Copy, PartialEq, Eq, Structural)]
pub enum RailModel {
    /// No rail ever fires; the weighted sum decides every position.
    Off,
    /// Rails B, C and C′ as described in the module docs.
    On,
}

impl Default for RailModel {
    fn default() -> (r: RailModel)
        ensures
            r == RailModel::On,
    {
        RailModel::On
    }
}

/// The facts about a face-up card in the structure that a reply reads.
#[derive(Debug, Clone, Copy, PartialEq, Eq, Structural)]
pub struct SlotCard {
    /// Shields printed on the card.
    pub shields: u8,
    /// The index of the scientific symbol it carries, if any.
    pub science: Option<u8>,
}

/// The facts about a wonder that a reply reads.
#[derive(Debug, Clone, Copy, PartialEq, Eq, Structural)]
pub struct WonderCard {
    /// Shields the wonder grants.
    pub shields: u8,
    /// Whether building it retrieves a card from the discard pile for free.
    pub build_discarded_free: bool,
    /// How many coins building it takes off the opponent.
    pub opponent_loses_coins: u8,
}

/// One player's closing actions: the ways they can end the game on their
/// next move.
pub struct ClosingSources {
    /// Shields still needed to reach the opponent's capital.
    pub need: u8,
    /// Per structure slot: whether the red card there closes.
    pub military_slots: Vec<bool>,
    /// Per structure slot: whether the green card there closes.
    pub science_slots: Vec<bool>,
    /// Per structure slot: shields the card there would give this player.
    pub slot_shields: Vec<u8>,
    /// Per wonder: whether this player can close by building it.
    pub military_wonders: Vec<bool>,
    /// Per wonder: shields it would give this player.
    pub wonder_shields: Vec<u8>,
}

/// What one reply does, as the handful of numbers the denial check needs.
#[derive(Debug, Clone, Copy, PartialEq, Eq, Structural)]
pub struct Reply {
    /// The structure slot it consumes, if any.
    pub slot: Option<u8>,
    /// Shields it gains the replying player.
    pub shields: u8,
    /// Whether it grants them a further action before the holder moves.
    pub grants_action: bool,
    /// Whether it consumes one of the game's shared wonder slots.
    pub builds_wonder: bool,
    /// Coins it takes off the holder through a wonder's own effect.
    pub steals_coins: u16,
}

/// One seat's part of a position, as the rails read it.
pub struct Seat {
    /// Coins in hand.
    pub coins: u16,
    /// Per structure slot: what the face-up card there costs this player.
    pub card_cost: Vec<u16>,
    /// Per wonder: what building it costs this player.
    pub wonder_cost: Vec<u16>,
    /// Per scientific symbol: how many copies this player holds.
    pub science: Vec<u8>,
    /// Per scientific symbol: whether its pair token has been awarded.
    pub pairs_awarded: Vec<bool>,
    /// Whether this player holds the Strategy token (a shield more on every
    /// shield-carrying card they build).
    pub strategy: bool,
    /// Per wonder: whether building it gives this player another action
    /// (a play-again wonder, or any wonder while holding Theology).
    pub extra_turn: Vec<bool>,
    /// Indexed by the shields an opponent's reply gains: the coins the loot
    /// tokens that push passes take off this player.
    pub loot_loss: Vec<u16>,
    /// This player's closing sources, read with the structure's cards.
    pub closing: ClosingSources,
}

/// A position, as the rails read it.
pub struct RailPosition {
    pub is_over: bool,
    pub phase: Phase,
    /// Whether a pending effect (a token pick, a destroy, a rebuild) is the
    /// decision to be made.
    pub pending: bool,
    pub age: u8,
    /// Whoever moves next.
    pub mover: Player,
    /// How many structure slots still hold a card.
    pub occupied: u32,
    /// Wonders built so far by both players.
    pub wonders_built: u8,
    /// Per structure slot: the face-up card there, if any.
    pub slots: Vec<Option<SlotCard>>,
    /// Per wonder: its printed facts.
    pub wonders: Vec<WonderCard>,
    /// Indexed by seat.
    pub seats: Vec<Seat>,
    /// The mover's legal actions.
    pub legal: Vec<Action>,
}

impl ClosingSources {
    /// Every per-slot and per-wonder table has the size of the structure and
    /// of the wonder list.
    pub open spec fn wf(&self, n_slots: nat, n_wonders: nat) -> bool {
        &&& self.military_slots@.len() == n_slots
        &&& self.science_slots@.len() == n_slots
        &&& self.slot_shields@.len() == n_slots
        &&& self.military_wonders@.len() == n_wonders
        &&& self.wonder_shields@.len() == n_wonders
    }

    /// Whether any closing source is left once the card half has stood down
    /// (when `cards` is false).
    pub open spec fn any_with(&self, cards: bool) -> bool {
        ||| cards && exists|s: int| 0 <= s < self.military_slots@.len() && self.military_slots@[s]
        ||| cards && exists|s: int| 0 <= s < self.science_slots@.len() && self.science_slots@[s]
        ||| exists|w: int| 0 <= w < self.military_wonders@.len() && self.military_wonders@[w]
    }

    /// [`ClosingSources::any_with`], computed.
    pub fn any(&self, cards: bool) -> (r: bool)
        ensures
            r == self.any_with(cards),
    {
        if cards {
            let mut s: usize = 0;
            while s < self.military_slots.len()
                invariant
                    cards,
                    s <= self.military_slots@.len(),
                    forall|j: int| 0 <= j < s ==> !self.military_slots@[j],
                decreases self.military_slots@.len() - s,
            {
                if self.military_slots[s] {
                    assert(self.military_slots@[s as int]);
                    return true;
                }
                s = s + 1;
            }
            let mut s: usize = 0;
            while s < self.science_slots.len()
                invariant
                    cards,
                    s <= self.science_slots@.len(),
                    forall|j: int| 0 <= j < s ==> !self.science_slots@[j],
                decreases self.science_slots@.len() - s,
            {
                if self.science_slots[s] {
                    assert(self.science_slots@[s as int]);
                    return true;
                }
                s = s + 1;
            }
        }
        let mut w: usize = 0;
        while w < self.military_wonders.len()
            invariant
                w <= self.military_wonders@.len(),
                forall|j: int| 0 <= j < w ==> !self.military_wonders@[j],
            decreases self.military_wonders@.len() - w,
        {
            if self.military_wonders[w] {
                return true;
            }
            w = w + 1;
        }
        false
    }
}

impl Seat {
    pub open spec fn wf(&self, n_slots: nat, n_wonders: nat, n_science: nat) -> bool {
        &&& self.card_cost@.len() == n_slots
        &&& self.wonder_cost@.len() == n_wonders
        &&& self.science@.len() == n_science
        &&& self.pairs_awarded@.len() == n_science
        &&& self.extra_turn@.len() == n_wonders
        &&& self.loot_loss@.len() == 256
        &&& self.closing.wf(n_slots, n_wonders)
    }
}

impl RailPosition {
    /// How many scientific symbols the game has.
    pub open spec fn n_science(&self) -> nat {
        self.seats@[0].science@.len()
    }

    /// The seat of `p`.
    pub open spec fn seat(&self, p: Player) -> Seat {
        self.seats@[p.spec_index()]
    }

    /// The tables agree in size, slot numbers fit a `u8`, and every symbol a
    /// card carries is one the seats count.
    pub open spec fn wf(&self) -> bool {
        &&& self.slots@.len() <= 32
        &&& self.seats@.len() == 2
        &&& forall|i: int|
            0 <= i < 2 ==> #[trigger] self.seats@[i].wf(
                self.slots@.len(),
                self.wonders@.len(),
                self.n_science(),
            )
        &&& forall|s: int|
            0 <= s < self.slots@.len() ==> match #[trigger] self.slots@[s] {
                Some(c) => match c.science {
                    Some(sym) => sym < self.n_science(),
                    None => true,
                },
                None => true,
            }
        &&& forall|i: int| 0 <= i < self.legal@.len() ==> action_wf(#[trigger] self.legal@[i], self.wonders@.len())
    }

    /// The face-up card in `slot`, if any.
    pub open spec fn card_at(&self, slot: u8) -> Option<SlotCard> {
        if (slot as int) < self.slots@.len() {
            self.slots@[slot as int]
        } else {
            None
        }
    }
}

/// Both seats of a well-formed position are themselves well formed.
pub proof fn lemma_seat_wf(pos: &RailPosition, p: Player)
    requires
        pos.wf(),
    ensures
        pos.seat(p).wf(pos.slots@.len(), pos.wonders@.len(), pos.n_science()),
{
    assert(pos.seats@[p.spec_index()].wf(pos.slots@.len(), pos.wonders@.len(), pos.n_science()));
}

/// A wonder an action names exists.
pub open spec fn action_wf(a: Action, n_wonders: nat) -> bool {
    match a {
        Action::BuildWonder { wonder, .. } => (wonder as int) < n_wonders,
        _ => true,
    }
}

/// What `action`, taken by `replier`, does to the holder's closing sources.
pub open spec fn reply_of(pos: &RailPosition, replier: Player, action: Action) -> Reply {
    let me = pos.seat(replier);
    match action {
        Action::Discard { slot } => Reply {
            slot: Some(slot),
            shields: 0,
            grants_action: false,
            builds_wonder: false,
            steals_coins: 0,
        },
        Action::Build { slot } => match pos.card_at(slot) {
            None => Reply {
                slot: Some(slot),
                shields: 0,
                grants_action: false,
                builds_wonder: false,
                steals_coins: 0,
            },
            Some(c) => Reply {
                slot: Some(slot),
                shields: if me.strategy && c.shields > 0 && c.shields < 255 {
                    (c.shields + 1) as u8
                } else {
                    c.shields
                },
                grants_action: match c.science {
                    Some(sym) => me.science@[sym as int] == 1 && !me.pairs_awarded@[sym as int],
                    None => false,
                },
                builds_wonder: false,
                steals_coins: 0,
            },
        },
        Action::BuildWonder { slot, wonder } => {
            let d = pos.wonders@[wonder as int];
            Reply {
                slot: Some(slot),
                shields: d.shields,
                grants_action: me.extra_turn@[wonder as int] || d.build_discarded_free,
                builds_wonder: true,
                steals_coins: d.opponent_loses_coins as u16,
            }
        },
        Action::Effect { .. } => Reply {
            slot: None,
            shields: 0,
            grants_action: true,
            builds_wonder: false,
            steals_coins: 0,
        },
    }
}

/// A reply that hands its maker a further move before the holder's turn —
/// a wonder that plays again for them, a free rebuild from the discard pile,
/// a pair of symbols that wins a token, or any pending effect — leaves none
/// of the holder's closes standing: the holder does not move next.
pub proof fn lemma_extra_action_replies_resolve_every_close(
    pos: &RailPosition,
    holder: Player,
    cards: bool,
    action: Action,
)
    requires
        pos.wf(),
        action_wf(action, pos.wonders@.len()),
        match action {
            Action::BuildWonder { wonder, .. } => pos.seat(holder.opposite()).extra_turn@[wonder as int]
                || pos.wonders@[wonder as int].build_discarded_free,
            Action::Build { slot } => match pos.card_at(slot) {
                Some(c) => match c.science {
                    Some(sym) => pos.seat(holder.opposite()).science@[sym as int] == 1 && !pos.seat(
                        holder.opposite(),
                    ).pairs_awarded@[sym as int],
                    None => false,
                },
                None => false,
            },
            Action::Effect { .. } => true,
            Action::Discard { .. } => false,
        },
    ensures
        reply_of(pos, holder.opposite(), action).grants_action,
        !survives_reply(pos, holder, cards, reply_of(pos, holder.opposite(), action)),
{
}

/// A close rests on a card, or on a wonder: whenever some close of the
/// holder survives a reply, it is a red or green card in a slot the reply
/// did not take, or a military wonder. In particular a reply that takes
/// the holder's only closing card resolves the close.
pub proof fn lemma_surviving_close_is_not_the_taken_card(
    pos: &RailPosition,
    holder: Player,
    cards: bool,
    r: Reply,
)
    ensures
        survives_reply(pos, holder, cards, r) ==> {
            let mine = pos.seat(holder).closing;
            ||| exists|s: int|
                0 <= s < pos.slots@.len() && (mine.military_slots@[s] || mine.science_slots@[s])
                    && r.slot != Some(s as u8)
            ||| exists|w: int| 0 <= w < pos.wonders@.len() && mine.military_wonders@[w]
        },
{
    if survives_reply(pos, holder, cards, r) {
        let mine = pos.seat(holder).closing;
        if exists|s: int| military_slot_closes(pos, holder, cards, r, s) {
            let s = choose|s: int| military_slot_closes(pos, holder, cards, r, s);
            assert(mine.military_slots@[s] && r.slot != Some(s as u8));
        } else if exists|s: int| science_slot_closes(pos, holder, cards, r, s) {
            let s = choose|s: int| science_slot_closes(pos, holder, cards, r, s);
            assert(mine.science_slots@[s] && r.slot != Some(s as u8));
        } else {
            let w = choose|w: int| wonder_closes(pos, holder, r, w);
            assert(mine.military_wonders@[w]);
        }
    }
}

/// What a reply is: a discard takes its slot and does nothing else; a build
/// takes its slot and gains the card's printed shields, one more for a
/// holder of the Strategy token; a wonder takes its slot, builds a wonder,
/// gains the wonder's shields and takes its coins off the holder; any other
/// decision takes no slot and is itself a further action.
pub proof fn lemma_reply_shapes(pos: &RailPosition, replier: Player, action: Action)
    ensures
        ({
            let r = reply_of(pos, replier, action);
            let me = pos.seat(replier);
            &&& action matches Action::Discard { slot } ==> r == (Reply {
                slot: Some(slot),
                shields: 0,
                grants_action: false,
                builds_wonder: false,
                steals_coins: 0,
            })
            &&& action matches Action::Build { slot } ==> {
                &&& r.slot == Some(slot)
                &&& !r.builds_wonder
                &&& r.steals_coins == 0
                &&& r.shields == match pos.card_at(slot) {
                    Some(c) => if me.strategy && 0 < c.shields < 255 {
                        c.shields + 1
                    } else {
                        c.shields as int
                    },
                    None => 0,
                }
            }
            &&& action matches Action::BuildWonder { slot, wonder } ==> {
                &&& r.slot == Some(slot)
                &&& r.builds_wonder
                &&& r.shields == pos.wonders@[wonder as int].shields
                &&& r.steals_coins == pos.wonders@[wonder as int].opponent_loses_coins
            }
            &&& action is Effect ==> r.slot is None && r.grants_action && r.shields == 0
        }),
{
}

/// What any surviving close rests on. It is never one the reply ends the
/// turn order around (a further action, or the age's last card taken); a
/// red card still covers the shields needed once the reply's own shields
/// have pushed the pawn back; any card is still affordable out of the coins
/// the reply's loot and theft leave; with the card half stood down, or once
/// the reply fills the seventh wonder slot, only the other kind of source
/// is left.
pub proof fn lemma_what_a_surviving_close_rests_on(pos: &RailPosition, holder: Player, cards: bool, r: Reply)
    requires
        survives_reply(pos, holder, cards, r),
    ensures
        !r.grants_action,
        pos.occupied >= 1,
        r.slot is Some ==> pos.occupied >= 2,
        !cards ==> exists|w: int| 0 <= w < pos.wonders@.len() && pos.seat(holder).closing.military_wonders@[w],
        pos.wonders_built + (if r.builds_wonder { 1int } else { 0int }) >= MAX_WONDERS_BUILT ==> cards
            && exists|s: int|
            0 <= s < pos.slots@.len() && (pos.seat(holder).closing.military_slots@[s]
                || pos.seat(holder).closing.science_slots@[s]) && r.slot != Some(s as u8),
        ({
            let seat = pos.seat(holder);
            let mine = seat.closing;
            let left = seat.coins - seat.loot_loss@[r.shields as int] - r.steals_coins;
            let avail = if left < 0 { 0 } else { left };
            (forall|s: int|
                0 <= s < pos.slots@.len() && mine.military_slots@[s] ==> #[trigger] mine.slot_shields@[s]
                    < mine.need + r.shields || seat.card_cost@[s] > avail || r.slot == Some(s as u8)
                    || pos.slots@[s] is None) && (forall|s: int|
                0 <= s < pos.slots@.len() && mine.science_slots@[s] ==> #[trigger] seat.card_cost@[s]
                > avail || r.slot == Some(s as u8) || pos.slots@[s] is None) ==> exists|w: int|
                0 <= w < pos.wonders@.len() && mine.military_wonders@[w] && mine.wonder_shields@[w]
                    >= mine.need + r.shields && seat.wonder_cost@[w] <= avail
        }),
{
    let seat = pos.seat(holder);
    let mine = seat.closing;
    let left = seat.coins - seat.loot_loss@[r.shields as int] - r.steals_coins;
    let avail = if left < 0 { 0 } else { left };
    assert(coins_after(seat, r) <= avail);
    if exists|s: int| military_slot_closes(pos, holder, cards, r, s) {
        let s = choose|s: int| military_slot_closes(pos, holder, cards, r, s);
        assert(mine.military_slots@[s] && r.slot != Some(s as u8));
        assert(mine.slot_shields@[s] >= mine.need + r.shields);
        assert(seat.card_cost@[s] <= avail);
    } else if exists|s: int| science_slot_closes(pos, holder, cards, r, s) {
        let s = choose|s: int| science_slot_closes(pos, holder, cards, r, s);
        assert(mine.science_slots@[s] && r.slot != Some(s as u8));
        assert(seat.card_cost@[s] <= avail);
    } else {
        let w = choose|w: int| wonder_closes(pos, holder, r, w);
        assert(mine.military_wonders@[w]);
        assert(seat.wonder_cost@[w] <= avail);
    }
}

/// Read what one reply does.
pub fn read_reply(pos: &RailPosition, replier: Player, action: Action) -> (r: Reply)
    requires
        pos.wf(),
        action_wf(action, pos.wonders@.len()),
    ensures
        r == reply_of(pos, replier, action),
{
    proof {
        lemma_seat_wf(pos, replier);
    }
    let me = &pos.seats[replier.index()];
    match action {
        Action::Discard { slot } => Reply {
            slot: Some(slot),
            shields: 0,
            grants_action: false,
            builds_wonder: false,
            steals_coins: 0,
        },
        Action::Build { slot } => {
            let card = if (slot as usize) < pos.slots.len() {
                pos.slots[slot as usize]
            } else {
                None
            };
            match card {
                None => Reply {
                    slot: Some(slot),
                    shields: 0,
                    grants_action: false,
                    builds_wonder: false,
                    steals_coins: 0,
                },
                Some(c) => {
                    proof {
                        assert(pos.slots@[slot as int] == card);
                    }
                    let shields = if me.strategy && c.shields > 0 {
                        c.shields.saturating_add(1)
                    } else {
                        c.shields
                    };
                    let completes_pair = match c.science {
                        Some(sym) => me.science[sym as usize] == 1 && !me.pairs_awarded[sym as usize],
                        None => false,
                    };
                    Reply {
                        slot: Some(slot),
                        shields,
                        grants_action: completes_pair,
                        builds_wonder: false,
                        steals_coins: 0,
                    }
                },
            }
        },
        Action::BuildWonder { slot, wonder } => {
            let d = pos.wonders[wonder as usize];
            Reply {
                slot: Some(slot),
                shields: d.shields,
                grants_action: me.extra_turn[wonder as usize] || d.build_discarded_free,
                builds_wonder: true,
                steals_coins: d.opponent_loses_coins as u16,
            }
        },
        Action::Effect { .. } => Reply {
            slot: None,
            shields: 0,
            grants_action: true,
            builds_wonder: false,
            steals_coins: 0,
        },
    }
}


/// `a - b`, floored at zero.
pub open spec fn floor_sub(a: int, b: int) -> int {
    if a >= b {
        a - b
    } else {
        0
    }
}

/// The shields each military source has to cover once `r`'s own shields have
/// pushed the pawn back.
pub open spec fn need_after(mine: ClosingSources, r: Reply) -> int {
    mine.need as int + r.shields as int
}

/// The coins the holder has left to pay with once `r`'s loot and theft are
/// taken off them.
pub open spec fn coins_after(seat: Seat, r: Reply) -> int {
    floor_sub(floor_sub(seat.coins as int, seat.loot_loss@[r.shields as int] as int), r.steals_coins as int)
}

/// Whether `r` consumes slot `s`.
pub open spec fn taken(r: Reply, s: int) -> bool {
    r.slot == Some(s as u8)
}

/// The red card in slot `s` still closes for `holder` after `r`.
pub open spec fn military_slot_closes(pos: &RailPosition, holder: Player, cards: bool, r: Reply, s: int) -> bool {
    let seat = pos.seat(holder);
    let mine = seat.closing;
    &&& cards
    &&& 0 <= s < pos.slots@.len()
    &&& mine.military_slots@[s]
    &&& !taken(r, s)
    &&& mine.slot_shields@[s] as int >= need_after(mine, r)
    &&& pos.slots@[s] is Some
    &&& seat.card_cost@[s] as int <= coins_after(seat, r)
}

/// The green card in slot `s` still closes for `holder` after `r`: a science
/// close is untouched by anything the pawn does.
pub open spec fn science_slot_closes(pos: &RailPosition, holder: Player, cards: bool, r: Reply, s: int) -> bool {
    let seat = pos.seat(holder);
    let mine = seat.closing;
    &&& cards
    &&& 0 <= s < pos.slots@.len()
    &&& mine.science_slots@[s]
    &&& !taken(r, s)
    &&& pos.slots@[s] is Some
    &&& seat.card_cost@[s] as int <= coins_after(seat, r)
}

/// Wonder `w` still closes for `holder` after `r`.
pub open spec fn wonder_closes(pos: &RailPosition, holder: Player, r: Reply, w: int) -> bool {
    let seat = pos.seat(holder);
    let mine = seat.closing;
    &&& 0 <= w < pos.wonders@.len()
    &&& mine.military_wonders@[w]
    &&& mine.wonder_shields@[w] as int >= need_after(mine, r)
    &&& seat.wonder_cost@[w] as int <= coins_after(seat, r)
}

/// Whether at least one of `holder`'s closing sources survives the reply `r`.
///
/// It does not when the reply grants its maker a further action, when it
/// empties the structure (ending the age), or when every surviving source is
/// out of reach: consumed, out-pushed, unaffordable, or — for a wonder — shut
/// out by the seven-wonder cap.
pub open spec fn survives_reply(pos: &RailPosition, holder: Player, cards: bool, r: Reply) -> bool {
    &&& !r.grants_action
    &&& pos.occupied as int > (if r.slot is Some { 1int } else { 0int })
    &&& {
        ||| exists|s: int| military_slot_closes(pos, holder, cards, r, s)
        ||| exists|s: int| science_slot_closes(pos, holder, cards, r, s)
        ||| {
            &&& pos.wonders_built as int + (if r.builds_wonder { 1int } else { 0int }) < MAX_WONDERS_BUILT as int
            &&& exists|w: int| wonder_closes(pos, holder, r, w)
        }
    }
}

/// Whether at least one of `holder`'s closing sources survives the reply
/// `action` made by the other player.
#[verifier::loop_isolation(false)]
pub fn survives(pos: &RailPosition, holder: Player, cards: bool, action: Action) -> (b: bool)
    requires
        pos.wf(),
        action_wf(action, pos.wonders@.len()),
    ensures
        b == survives_reply(pos, holder, cards, reply_of(pos, holder.opposite(), action)),
{
    let replier = holder.other();
    let r = read_reply(pos, replier, action);
    if r.grants_action {
        return false;
    }
    let consumed: u32 = if r.slot.is_some() { 1 } else { 0 };
    let cards_after = pos.occupied.saturating_sub(consumed);
    if cards_after == 0 {
        return false;
    }
    proof {
        lemma_seat_wf(pos, holder);
    }
    let seat = &pos.seats[holder.index()];
    let mine = &seat.closing;
    let ghost gseat = pos.seat(holder);
    let need: u16 = mine.need as u16 + r.shields as u16;
    let coins = seat.coins.saturating_sub(seat.loot_loss[r.shields as usize]).saturating_sub(
        r.steals_coins,
    );
    assert(coins as int == coins_after(gseat, r));
    assert(need as int == need_after(gseat.closing, r));
    let n = pos.slots.len();
    if cards {
        let mut s: usize = 0;
        while s < n
            invariant
                pos.wf(),
                cards,
                n == pos.slots@.len(),
                seat == pos.seat(holder),
                mine == seat.closing,
                seat.wf(pos.slots@.len(), pos.wonders@.len(), pos.n_science()),
                coins as int == coins_after(*seat, r),
                need as int == need_after(*mine, r),
                s <= n,
                forall|j: int| 0 <= j < s ==> !military_slot_closes(pos, holder, cards, r, j),
            decreases n - s,
        {
            let is_taken = match r.slot {
                Some(t) => t as usize == s,
                None => false,
            };
            if mine.military_slots[s] && !is_taken && mine.slot_shields[s] as u16 >= need
                && pos.slots[s].is_some() && seat.card_cost[s] <= coins {
                assert(military_slot_closes(pos, holder, cards, r, s as int));
                return true;
            }
            s = s + 1;
        }
        let mut s: usize = 0;
        while s < n
            invariant
                pos.wf(),
                cards,
                n == pos.slots@.len(),
                seat == pos.seat(holder),
                mine == seat.closing,
                seat.wf(pos.slots@.len(), pos.wonders@.len(), pos.n_science()),
                coins as int == coins_after(*seat, r),
                s <= n,
                forall|j: int| 0 <= j < s ==> !science_slot_closes(pos, holder, cards, r, j),
            decreases n - s,
        {
            let is_taken = match r.slot {
                Some(t) => t as usize == s,
                None => false,
            };
            if mine.science_slots[s] && !is_taken && pos.slots[s].is_some() && seat.card_cost[s]
                <= coins {
                assert(science_slot_closes(pos, holder, cards, r, s as int));
                return true;
            }
            s = s + 1;
        }
    }
    let built_after: u16 = pos.wonders_built as u16 + if r.builds_wonder { 1 } else { 0 };
    if built_after < MAX_WONDERS_BUILT as u16 {
        let nw = pos.wonders.len();
        let mut w: usize = 0;
        while w < nw
            invariant
                pos.wf(),
                nw == pos.wonders@.len(),
                seat == pos.seat(holder),
                mine == seat.closing,
                seat.wf(pos.slots@.len(), pos.wonders@.len(), pos.n_science()),
                coins as int == coins_after(*seat, r),
                need as int == need_after(*mine, r),
                w <= nw,
                forall|j: int| 0 <= j < w ==> !wonder_closes(pos, holder, r, j),
            decreases nw - w,
        {
            if mine.military_wonders[w] && mine.wonder_shields[w] as u16 >= need
                && seat.wonder_cost[w] <= coins {
                assert(wonder_closes(pos, holder, r, w as int));
                return true;
            }
            w = w + 1;
        }
    }
    false
}

/// Every reply the mover can make leaves at least one of `holder`'s closing
/// sources standing.
pub open spec fn survives_every_reply(pos: &RailPosition, holder: Player, cards: bool) -> bool {
    forall|i: int|
        0 <= i < pos.legal@.len() ==> survives_reply(
            pos,
            holder,
            cards,
            reply_of(pos, holder.opposite(), #[trigger] pos.legal@[i]),
        )
}

/// The first legal reply this check believes takes `holder`'s close away,
/// or `None` when it believes none does.
pub fn first_resolving_reply(pos: &RailPosition, holder: Player, cards: bool) -> (r: Option<Action>)
    requires
        pos.wf(),
    ensures
        r is None <==> survives_every_reply(pos, holder, cards),
        r matches Some(a) ==> exists|i: int|
            0 <= i < pos.legal@.len() && pos.legal@[i] == a && !survives_reply(
                pos,
                holder,
                cards,
                reply_of(pos, holder.opposite(), a),
            ) && forall|j: int|
                0 <= j < i ==> survives_reply(
                    pos,
                    holder,
                    cards,
                    reply_of(pos, holder.opposite(), #[trigger] pos.legal@[j]),
                ),
{
    let mut i: usize = 0;
    while i < pos.legal.len()
        invariant
            pos.wf(),
            i <= pos.legal@.len(),
            forall|j: int|
                0 <= j < i ==> survives_reply(
                    pos,
                    holder,
                    cards,
                    reply_of(pos, holder.opposite(), #[trigger] pos.legal@[j]),
                ),
        decreases pos.legal@.len() - i,
    {
        let a = pos.legal[i];
        assert(action_wf(pos.legal@[i as int], pos.wonders@.len()));
        if !survives(pos, holder, cards, a) {
            return Some(a);
        }
        i = i + 1;
    }
    None
}

/// Which player, if either, the position already belongs to.
pub open spec fn rail_owner_of(pos: &RailPosition, root_age: u8, model: RailModel) -> Option<Player> {
    if model == RailModel::Off || pos.is_over {
        None
    } else if pos.phase != Phase::Turn || pos.pending {
        None
    } else {
        let cards = pos.age == root_age;
        let mover = pos.mover;
        let waiter = mover.opposite();
        if pos.seat(mover).closing.any_with(cards) {
            Some(mover)
        } else if pos.seat(waiter).closing.any_with(cards) && survives_every_reply(
            pos,
            waiter,
            cards,
        ) {
            Some(waiter)
        } else {
            None
        }
    }
}

/// Which player, if either, this position already belongs to.
///
/// `None` means no rail fires and the ordinary weighted sum decides. A
/// pending effect is a decision with its own action space, so the rails stand
/// down for it; so does the card half of the detection when the position's
/// age is not the root's.
pub fn rail_owner(pos: &RailPosition, root_age: u8, model: RailModel) -> (r: Option<Player>)
    requires
        pos.wf(),
    ensures
        r == rail_owner_of(pos, root_age, model),
{
    if model == RailModel::Off || pos.is_over {
        return None;
    }
    if pos.phase != Phase::Turn || pos.pending {
        return None;
    }
    let cards = pos.age == root_age;
    let mover = pos.mover;
    proof {
        lemma_seat_wf(pos, mover);
        lemma_seat_wf(pos, mover.opposite());
    }
    if pos.seats[mover.index()].closing.any(cards) {
        return Some(mover);
    }
    let waiter = mover.other();
    if pos.seats[waiter.index()].closing.any(cards) && first_resolving_reply(pos, waiter, cards).is_none() {
        return Some(waiter);
    }
    None
}

/// `±imminent`, signed towards `me`, or `None` when no rail fires (or the
/// rail weight is zero).
pub open spec fn rail_value_of(
    pos: &RailPosition,
    me: Player,
    root_age: u8,
    model: RailModel,
    imminent: i64,
) -> Option<int> {
    if imminent == 0 {
        None
    } else {
        match rail_owner_of(pos, root_age, model) {
            Some(owner) => Some(if owner == me { imminent as int } else { -imminent }),
            None => None,
        }
    }
}

/// `±imminent`, signed towards `me`, or `None` when no rail fires.
pub fn rail_value(pos: &RailPosition, me: Player, root_age: u8, model: RailModel, imminent: i64) -> (r: Option<i128>)
    requires
        pos.wf(),
    ensures
        match r {
            Some(v) => rail_value_of(pos, me, root_age, model, imminent) == Some(v as int),
            None => rail_value_of(pos, me, root_age, model, imminent) is None,
        },
{
    if imminent == 0 {
        return None;
    }
    match rail_owner(pos, root_age, model) {
        Some(owner) => Some(if owner == me { imminent as i128 } else { -(imminent as i128) }),
        None => None,
    }
}

/// The rails are antisymmetric between the two players: whenever one seat
/// reads a rail value the other reads exactly its negation, so the zero-sum
/// evaluation they override stays zero-sum.
pub proof fn lemma_rail_value_antisymmetric(
    pos: &RailPosition,
    me: Player,
    root_age: u8,
    model: RailModel,
    imminent: i64,
)
    ensures
        rail_value_of(pos, me, root_age, model, imminent) is Some <==> rail_value_of(
            pos,
            me.opposite(),
            root_age,
            model,
            imminent,
        ) is Some,
        rail_value_of(pos, me, root_age, model, imminent) is Some ==> rail_value_of(
            pos,
            me,
            root_age,
            model,
            imminent,
        )->0 == -rail_value_of(pos, me.opposite(), root_age, model, imminent)->0,
{
}

/// Switching the rails off silences every one of them.
pub proof fn lemma_rails_off_never_fire(pos: &RailPosition, me: Player, root_age: u8, imminent: i64)
    ensures
        rail_owner_of(pos, root_age, RailModel::Off) is None,
        rail_value_of(pos, me, root_age, RailModel::Off, imminent) is None,
{
}

/// The card half stands down across an age boundary: with the position in
/// another age than the root, a close that rests on structure cards alone
/// fires no rail for either player.
pub proof fn lemma_card_half_stands_down(pos: &RailPosition, root_age: u8, model: RailModel)
    requires
        pos.age != root_age,
        forall|w: int|
            0 <= w < pos.seat(Player::One).closing.military_wonders@.len()
                ==> !pos.seat(Player::One).closing.military_wonders@[w],
        forall|w: int|
            0 <= w < pos.seat(Player::Two).closing.military_wonders@.len()
                ==> !pos.seat(Player::Two).closing.military_wonders@[w],
    ensures
        rail_owner_of(pos, root_age, model) is None,
{
    assert(!pos.seat(pos.mover).closing.any_with(false));
    assert(!pos.seat(pos.mover.opposite()).closing.any_with(false));
}

/// Whoever a position is awarded to holds a close of their own: the mover
/// one they can play now, or the waiting player one that every legal reply
/// of the mover leaves standing while the mover holds none. Outside an
/// ordinary turn, with an effect pending, or once the game is over, no
/// position is awarded.
pub proof fn lemma_rail_owner_holds_a_close(pos: &RailPosition, root_age: u8, model: RailModel)
    ensures
        (pos.is_over || pos.pending || pos.phase != Phase::Turn) ==> rail_owner_of(pos, root_age, model) is None,
        rail_owner_of(pos, root_age, model) == Some(pos.mover) ==> pos.seat(pos.mover).closing.any_with(
            pos.age == root_age,
        ),
        rail_owner_of(pos, root_age, model) == Some(pos.mover.opposite()) ==> {
            &&& pos.seat(pos.mover.opposite()).closing.any_with(pos.age == root_age)
            &&& !pos.seat(pos.mover).closing.any_with(pos.age == root_age)
            &&& forall|i: int|
                0 <= i < pos.legal@.len() ==> survives_reply(
                    pos,
                    pos.mover.opposite(),
                    pos.age == root_age,
                    reply_of(pos, pos.mover, #[trigger] pos.legal@[i]),
                )
        },
{
    if rail_owner_of(pos, root_age, model) == Some(pos.mover.opposite()) {
        assert(pos.mover.opposite() != pos.mover) by {
            match pos.mover {
                Player::One => {},
                Player::Two => {},
            }
        }
        assert(pos.mover.opposite().opposite() == pos.mover) by {
            match pos.mover {
                Player::One => {},
                Player::Two => {},
            }
        }
    }
}

/// Rail B: an ordinary turn in which the mover holds a closing source belongs
/// to the mover, whatever the waiting player holds.
pub proof fn lemma_mover_close_owns_position(pos: &RailPosition, root_age: u8)
    requires
        !pos.is_over,
        pos.phase == Phase::Turn,
        !pos.pending,
        pos.seat(pos.mover).closing.any_with(pos.age == root_age),
    ensures
        rail_owner_of(pos, root_age, RailModel::On) == Some(pos.mover),
{
}

/// A close that a single reply can take away is not undeniable: if the
/// mover holds no close and some legal reply resolves the waiting player's,
/// no rail fires.
pub proof fn lemma_deniable_close_is_not_owned(pos: &RailPosition, root_age: u8, i: int)
    requires
        0 <= i < pos.legal@.len(),
        !pos.seat(pos.mover).closing.any_with(pos.age == root_age),
        !survives_reply(
            pos,
            pos.mover.opposite(),
            pos.age == root_age,
            reply_of(pos, pos.mover, pos.legal@[i]),
        ),
    ensures
        rail_owner_of(pos, root_age, RailModel::On) is None,
{
    assert(pos.mover.opposite().opposite() == pos.mover);
}

} // verus!
