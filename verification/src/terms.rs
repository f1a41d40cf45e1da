//! The evaluation terms, each read for one player, reduced to the integer
//! decisions and counts they are built on.
//!
//! The weighted sums these feed are floating-point and are formed by the
//! caller; what is stated here is which player a term credits, which table
//! entry it reads, and the counts it prices.

use vstd::prelude::*;

use crate::game::Phase;
use crate::player::Player;

verus! {

/// The decisions each player gets in one age: the structure deals twenty
/// cards, and the two players take them in turn.
pub const DECISIONS_PER_AGE: u32 = 10;

/// The largest number of units of one resource the development term prices:
/// no card or wonder asks for more than three of anything, and the table is
/// sized one past that so the zero is visible rather than assumed.
pub const MAX_UNITS: usize = 4;

/// The public facts about a position that the turn-order terms read.
#[derive(Debug, Clone, Copy, PartialEq, Eq, Structural)]
pub struct TurnView {
    pub is_over: bool,
    pub phase: Phase,
    /// The age being played, `0` before the first is dealt.
    pub age: u8,
    /// Whoever moves next.
    pub current: Player,
    /// How many cards the structure still holds.
    pub cards_left: u32,
    /// Whether the mover has a banked extra turn.
    pub extra_turn: bool,
    /// The conflict pawn's position: positive towards the second seat's
    /// capital, so positive favours the first seat.
    pub conflict: i8,
    /// Who took the age's last card.
    pub last_card_taker: Player,
}

/// The cards of the current structure `p` can expect to take: the mover
/// takes the odd one.
pub open spec fn picks(cards_left: int, mover: bool) -> int {
    if mover {
        (cards_left + 1) / 2
    } else {
        cards_left / 2
    }
}

/// The ages not yet dealt.
pub open spec fn undealt_ages(view: TurnView) -> int {
    let age = if view.age == 0 {
        1int
    } else {
        view.age as int
    };
    let first_undealt = if view.phase == Phase::WonderDraft {
        age
    } else {
        age + 1
    };
    let left = if 4 - first_undealt > 0 {
        4 - first_undealt
    } else {
        0
    };
    if left < 3 {
        left
    } else {
        3
    }
}

/// Roughly how many more decisions `p` gets this game: their share of the
/// current structure plus a full age's worth for every age not yet dealt.
pub open spec fn decisions_left_of(view: TurnView, p: Player) -> int {
    picks(view.cards_left as int, view.current == p) + undealt_ages(view) * DECISIONS_PER_AGE
}

/// [`decisions_left_of`], computed.
pub fn decisions_left(view: &TurnView, p: Player) -> (r: u32)
    ensures
        r == decisions_left_of(*view, p),
{
    let cards_left = view.cards_left;
    let picks: u32 = if view.current == p {
        cards_left / 2 + cards_left % 2
    } else {
        cards_left / 2
    };
    let age: u32 = if view.age == 0 {
        1
    } else {
        view.age as u32
    };
    let first_undealt: u32 = if view.phase == Phase::WonderDraft {
        age
    } else {
        age + 1
    };
    let left = 4u32.saturating_sub(first_undealt);
    let undealt = if left < 3 {
        left
    } else {
        3
    };
    picks + undealt * DECISIONS_PER_AGE
}

/// The two players' shares of the current structure add up to the cards
/// left in it: the mover gets the odd card, and no card is counted twice.
pub proof fn lemma_picks_share_the_structure(cards_left: int)
    requires
        0 <= cards_left,
    ensures
        picks(cards_left, true) + picks(cards_left, false) == cards_left,
        picks(cards_left, false) <= picks(cards_left, true) <= picks(cards_left, false) + 1,
{
}

/// The player the conflict pawn favours, if it is off centre.
pub open spec fn military_leader(view: TurnView) -> Option<Player> {
    if view.conflict > 0 {
        Some(Player::One)
    } else if view.conflict < 0 {
        Some(Player::Two)
    } else {
        None
    }
}

/// Who is projected to begin the next age.
pub open spec fn projected_starter_of(view: TurnView) -> Option<Player> {
    if view.is_over {
        None
    } else {
        match view.phase {
            Phase::ChooseFirstPlayer => Some(view.current),
            Phase::WonderDraft | Phase::GameOver => None,
            Phase::Turn => match military_leader(view) {
                Some(leader) => Some(leader.opposite()),
                None => if view.cards_left == 0 {
                    Some(view.last_card_taker)
                } else {
                    let n = view.cards_left as int + if view.extra_turn {
                        1int
                    } else {
                        0int
                    };
                    if n % 2 == 1 {
                        Some(view.current)
                    } else {
                        Some(view.current.opposite())
                    }
                },
            },
        }
    }
}

/// Who is projected to begin the next age.
///
/// With the pawn off centre the weaker player chooses, and chooses
/// themselves. With it centred, whoever takes the age's last card begins:
/// a parity count on the cards left, flipped by a banked extra turn. `None`
/// during the wonder draft or once the game is over.
pub fn projected_starter(view: &TurnView) -> (r: Option<Player>)
    ensures
        r == projected_starter_of(*view),
{
    if view.is_over {
        return None;
    }
    match view.phase {
        Phase::ChooseFirstPlayer => Some(view.current),
        Phase::WonderDraft | Phase::GameOver => None,
        Phase::Turn => {
            if view.conflict > 0 {
                Some(Player::Two)
            } else if view.conflict < 0 {
                Some(Player::One)
            } else if view.cards_left == 0 {
                Some(view.last_card_taker)
            } else {
                let n: u64 = view.cards_left as u64 + if view.extra_turn {
                    1
                } else {
                    0
                };
                if n % 2 == 1 {
                    Some(view.current)
                } else {
                    Some(view.current.other())
                }
            }
        },
    }
}

/// The entry of the per-age table that beginning the next age reads: the
/// current age's, Age III's for anything later.
pub open spec fn next_age_index(age: u8) -> int {
    let a = if age == 0 {
        1int
    } else {
        age as int
    };
    if a - 1 < 2 {
        a - 1
    } else {
        2
    }
}

/// What beginning the next age is worth to `p`: the current age's entry of
/// `weights` when `p` is the projected starter, and `zero` otherwise.
pub fn next_age_start<T: Copy>(view: &TurnView, p: Player, weights: &[T; 3], zero: T) -> (r: T)
    ensures
        r == if projected_starter_of(*view) == Some(p) {
            weights@[next_age_index(view.age)]
        } else {
            zero
        },
{
    if projected_starter(view) != Some(p) {
        return zero;
    }
    let age: usize = if view.age == 0 {
        1
    } else {
        view.age as usize
    };
    let i = if age - 1 < 2 {
        age - 1
    } else {
        2
    };
    weights[i]
}

/// The conflict pawn's position, signed so positive favours `p`.
pub open spec fn signed_distance(view: TurnView, p: Player) -> int {
    match p {
        Player::One => view.conflict as int,
        Player::Two => -(view.conflict as int),
    }
}

/// The conflict pawn's position, signed so positive favours `p`.
pub fn military_position(view: &TurnView, p: Player) -> (r: i32)
    ensures
        r == signed_distance(*view, p),
{
    match p {
        Player::One => view.conflict as i32,
        Player::Two => -(view.conflict as i32),
    }
}

/// The escalating "somebody is about to win outright" term: the square of
/// how far past the second loot token the pawn is, signed towards whoever it
/// favours; zero inside the second token.
pub open spec fn urgency_of(view: TurnView, p: Player, second_loot: u8) -> int {
    let d = signed_distance(view, p);
    let a = if d < 0 {
        -d
    } else {
        d
    };
    if a > second_loot as int {
        let excess = a - second_loot as int;
        if d > 0 {
            excess * excess
        } else {
            -(excess * excess)
        }
    } else {
        0
    }
}

/// [`urgency_of`], computed.
pub fn military_urgency(view: &TurnView, p: Player, second_loot: u8) -> (r: i64)
    ensures
        r == urgency_of(*view, p, second_loot),
{
    let d = military_position(view, p) as i64;
    let a = if d < 0 {
        -d
    } else {
        d
    };
    if a > second_loot as i64 {
        let excess = a - second_loot as i64;
        proof {
            assert(0 < excess <= 128);
            assert(excess * excess <= 128 * 128) by (nonlinear_arith)
                requires
                    0 < excess <= 128,
            ;
        }
        if d > 0 {
            excess * excess
        } else {
            -(excess * excess)
        }
    } else {
        0
    }
}

/// The military terms are antisymmetric: what favours one seat disfavours
/// the other by exactly as much.
pub proof fn lemma_military_terms_antisymmetric(view: TurnView, p: Player, second_loot: u8)
    ensures
        signed_distance(view, p) == -signed_distance(view, p.opposite()),
        urgency_of(view, p, second_loot) == -urgency_of(view, p.opposite(), second_loot),
{
}

/// During an ordinary turn of age `a` (one to three) the two players'
/// decision budgets share out the structure's cards, the mover taking the
/// odd one, and each adds a full age's worth of decisions for every one of
/// the `3 − a` ages still to be dealt.
pub proof fn lemma_decisions_left_in_a_turn(view: TurnView, p: Player)
    requires
        view.phase == Phase::Turn,
        1 <= view.age <= 3,
    ensures
        decisions_left_of(view, p) + decisions_left_of(view, p.opposite()) == view.cards_left + 2 * (3
            - view.age) * DECISIONS_PER_AGE,
        view.current == p ==> decisions_left_of(view, p) == (view.cards_left + 1) / 2 + (3 - view.age)
            * DECISIONS_PER_AGE,
        view.current != p ==> decisions_left_of(view, p) == view.cards_left / 2 + (3 - view.age)
            * DECISIONS_PER_AGE,
{
}

/// Who begins the next age, during an ordinary turn: with the pawn off
/// centre the player it disfavours (who then chooses, and chooses
/// themselves); with it centred, whoever takes the age's last card — the
/// mover when an odd number of takes remain (a banked extra turn counting as
/// one more), the opponent when an even number do.
pub proof fn lemma_projected_starter_in_a_turn(view: TurnView)
    requires
        !view.is_over,
        view.phase == Phase::Turn,
    ensures
        view.conflict > 0 ==> projected_starter_of(view) == Some(Player::Two),
        view.conflict < 0 ==> projected_starter_of(view) == Some(Player::One),
        view.conflict == 0 && view.cards_left == 0 ==> projected_starter_of(view) == Some(
            view.last_card_taker,
        ),
        view.conflict == 0 && view.cards_left > 0 && !view.extra_turn ==> projected_starter_of(view)
            == Some(if view.cards_left % 2 == 1 { view.current } else { view.current.opposite() }),
        view.conflict == 0 && view.cards_left > 0 && view.extra_turn ==> projected_starter_of(view)
            == Some(if view.cards_left % 2 == 0 { view.current } else { view.current.opposite() }),
{
}

/// The urgency term is zero while the pawn is within the second loot token
/// of the centre, and past it is the square of the excess, positive for
/// the player the pawn favours and negative for the other.
pub proof fn lemma_urgency_is_the_squared_excess(view: TurnView, p: Player, second_loot: u8)
    ensures
        ({
            let d = if p == Player::One { view.conflict as int } else { 0 - view.conflict };
            &&& -(second_loot as int) <= d <= second_loot ==> urgency_of(view, p, second_loot) == 0
            &&& d > second_loot ==> urgency_of(view, p, second_loot) == (d - second_loot) * (d
                - second_loot)
            &&& d < -(second_loot as int) ==> urgency_of(view, p, second_loot) == -((0 - d - second_loot)
                * (0 - d - second_loot))
        }),
{
}

/// A symbol's second copy is obtainable exactly when one of its copies is
/// neither gone nor from an age already past; with every copy gone it never
/// is, whatever the age.
pub proof fn lemma_second_copy_needs_a_live_copy(gone: Seq<bool>, copies: Seq<SymbolCard>, age: u8)
    ensures
        (forall|i: int| 0 <= i < copies.len() ==> gone[#[trigger] copies[i].card as int])
            ==> !second_copy_obtainable_of(gone, copies, age),
        (exists|i: int|
            0 <= i < copies.len() && !gone[#[trigger] copies[i].card as int] && copies[i].age >= age
                && copies[i].age >= 1) ==> second_copy_obtainable_of(gone, copies, age),
{
}

/// A symbol is a threatened pair exactly when it is held once, its pair
/// token is still to be won, it is not the Law token's symbol, and its second
/// copy can still be had: looking at one more symbol raises the count by one
/// in that case and leaves it alone otherwise. The count never exceeds the
/// symbols looked at.
pub proof fn lemma_pair_candidates_step(
    held: Seq<u8>,
    awarded: Seq<bool>,
    law_symbol: Option<u8>,
    obtainable: Seq<bool>,
    i: int,
)
    requires
        0 <= i < 256,
    ensures
        pair_candidates_of(held, awarded, law_symbol, obtainable, i + 1) == pair_candidates_of(
            held,
            awarded,
            law_symbol,
            obtainable,
            i,
        ) + if held[i] == 1 && !awarded[i] && obtainable[i] && law_symbol != Some(i as u8) {
            1int
        } else {
            0int
        },
        pair_candidates_of(held, awarded, law_symbol, obtainable, i) <= i,
    decreases i,
{
    if i > 0 {
        lemma_pair_candidates_step(held, awarded, law_symbol, obtainable, i - 1);
    }
}

/// How many entries of `s` are set.
pub open spec fn count_true(s: Seq<bool>) -> nat
    decreases s.len(),
{
    if s.len() == 0 {
        0
    } else {
        count_true(s.drop_last()) + if s.last() {
            1nat
        } else {
            0nat
        }
    }
}

/// How many of the tokens on the board are among the `strong` ones.
pub open spec fn count_strong(board: Seq<u8>, strong: Seq<Option<u8>>) -> nat
    decreases board.len(),
{
    if board.len() == 0 {
        0
    } else {
        count_strong(board.drop_last(), strong) + if strong.contains(Some(board.last())) {
            1nat
        } else {
            0nat
        }
    }
}

/// How many of the three progress tokens a science player most wants — Law,
/// Theology and Strategy, given by id in `strong` (`None` for one the game
/// does not have) — are still on the board to be claimed.
pub fn strong_board_tokens(board: &Vec<u8>, strong: &[Option<u8>; 3]) -> (r: u32)
    requires
        board@.len() <= 0xFFFF_FFFFu32,
    ensures
        r == count_strong(board@, strong@),
{
    let mut n: u32 = 0;
    let mut i: usize = 0;
    while i < board.len()
        invariant
            board@.len() <= 0xFFFF_FFFFu32,
            i <= board@.len(),
            n == count_strong(board@.take(i as int), strong@),
            n <= i,
        decreases board@.len() - i,
    {
        let t = board[i];
        let is_strong = strong[0] == Some(t) || strong[1] == Some(t) || strong[2] == Some(t);
        proof {
            assert(board@.take(i + 1).drop_last() =~= board@.take(i as int));
            assert(board@.take(i + 1).last() == t);
            assert(strong@.contains(Some(t)) <==> is_strong) by {
                if strong@.contains(Some(t)) {
                    let j = choose|j: int| 0 <= j < strong@.len() && strong@[j] == Some(t);
                    assert(j == 0 || j == 1 || j == 2);
                }
                if strong[0] == Some(t) {
                    assert(strong@[0] == Some(t));
                }
                if strong[1] == Some(t) {
                    assert(strong@[1] == Some(t));
                }
                if strong[2] == Some(t) {
                    assert(strong@[2] == Some(t));
                }
            }
        }
        if is_strong {
            n = n + 1;
        }
        i = i + 1;
    }
    proof {
        assert(board@.take(i as int) =~= board@);
    }
    n
}

/// A board token counts exactly when it is one of the three strong tokens,
/// whichever of the three it is: adding a token to the board raises the
/// count by one if it equals `strong[0]`, `strong[1]` or `strong[2]`, and
/// leaves it alone otherwise.
pub proof fn lemma_strong_token_counts_once(board: Seq<u8>, strong: Seq<Option<u8>>, t: u8)
    requires
        strong.len() == 3,
    ensures
        count_strong(board.push(t), strong) == count_strong(board, strong) + if strong[0] == Some(t)
            || strong[1] == Some(t) || strong[2] == Some(t) {
            1int
        } else {
            0int
        },
{
    assert(board.push(t).drop_last() =~= board);
    assert(board.push(t).last() == t);
    if strong[0] == Some(t) || strong[1] == Some(t) || strong[2] == Some(t) {
        if strong[0] == Some(t) {
            assert(strong.contains(Some(t)));
        } else if strong[1] == Some(t) {
            assert(strong.contains(Some(t)));
        } else {
            assert(strong[2] == Some(t));
            assert(strong.contains(Some(t)));
        }
    } else {
        assert(!strong.contains(Some(t))) by {
            if strong.contains(Some(t)) {
                let j = choose|j: int| 0 <= j < strong.len() && strong[j] == Some(t);
                assert(j == 0 || j == 1 || j == 2);
            }
        }
    }
}

/// The strong-token count is additive over the board, never exceeds the
/// board's size, and a board of strong tokens alone counts every one of them.
pub proof fn lemma_strong_tokens_add_up(a: Seq<u8>, b: Seq<u8>, strong: Seq<Option<u8>>)
    ensures
        count_strong(a + b, strong) == count_strong(a, strong) + count_strong(b, strong),
        count_strong(a, strong) <= a.len(),
        (forall|i: int| 0 <= i < a.len() ==> strong.contains(Some(#[trigger] a[i]))) ==> count_strong(
            a,
            strong,
        ) == a.len(),
    decreases b.len(), a.len(),
{
    if b.len() > 0 {
        assert((a + b).drop_last() =~= a + b.drop_last());
        assert((a + b).last() == b.last());
        lemma_strong_tokens_add_up(a, b.drop_last(), strong);
    } else {
        assert(a + b =~= a);
        if a.len() > 0 {
            lemma_strong_tokens_add_up(a.drop_last(), b, strong);
            if forall|i: int| 0 <= i < a.len() ==> strong.contains(Some(#[trigger] a[i])) {
                assert forall|i: int| 0 <= i < a.drop_last().len() implies strong.contains(
                    Some(#[trigger] a.drop_last()[i]),
                ) by {
                    assert(a.drop_last()[i] == a[i]);
                }
                assert(strong.contains(Some(a[a.len() - 1])));
            }
        }
    }
}

/// The cards no longer in play: built in either city, spent under a wonder,
/// or in the discard pile.
pub fn gone_cards(
    built_one: &Vec<bool>,
    built_two: &Vec<bool>,
    fodder: &Vec<bool>,
    discard: &Vec<bool>,
) -> (r: Vec<bool>)
    requires
        built_two@.len() == built_one@.len(),
        fodder@.len() == built_one@.len(),
        discard@.len() == built_one@.len(),
    ensures
        r@.len() == built_one@.len(),
        forall|c: int|
            0 <= c < r@.len() ==> #[trigger] r@[c] == (built_one@[c] || built_two@[c] || fodder@[c]
                || discard@[c]),
{
    let mut out: Vec<bool> = Vec::new();
    let mut c: usize = 0;
    while c < built_one.len()
        invariant
            built_two@.len() == built_one@.len(),
            fodder@.len() == built_one@.len(),
            discard@.len() == built_one@.len(),
            c <= built_one@.len(),
            out@.len() == c,
            forall|j: int|
                0 <= j < c ==> #[trigger] out@[j] == (built_one@[j] || built_two@[j] || fodder@[j]
                    || discard@[j]),
        decreases built_one@.len() - c,
    {
        out.push(built_one[c] || built_two[c] || fodder[c] || discard[c]);
        c = c + 1;
    }
    out
}

/// A card printed with a scientific symbol, and its age.
#[derive(Debug, Clone, Copy, PartialEq, Eq, Structural)]
pub struct SymbolCard {
    /// The card's index.
    pub card: u16,
    /// The age whose deck it belongs to.
    pub age: u8,
}

/// Some copy of the symbol is neither gone nor from an age already past.
pub open spec fn second_copy_obtainable_of(gone: Seq<bool>, copies: Seq<SymbolCard>, age: u8) -> bool {
    let current = if age == 0 {
        1int
    } else {
        age as int
    };
    exists|i: int|
        0 <= i < copies.len() && !gone[copies[i].card as int] && copies[i].age as int >= current
}

/// Whether the second copy of a symbol, printed on the cards `copies`, is
/// still physically obtainable: a copy is gone once it is in a city, under a
/// wonder or in the discard pile, and a copy from an earlier age than the
/// one being played went back in the box if it never appeared.
pub fn second_copy_obtainable(gone: &Vec<bool>, copies: &Vec<SymbolCard>, age: u8) -> (r: bool)
    requires
        forall|i: int| 0 <= i < copies@.len() ==> (#[trigger] copies@[i]).card < gone@.len(),
    ensures
        r == second_copy_obtainable_of(gone@, copies@, age),
{
    let current: u8 = if age == 0 {
        1
    } else {
        age
    };
    let mut i: usize = 0;
    while i < copies.len()
        invariant
            forall|j: int| 0 <= j < copies@.len() ==> (#[trigger] copies@[j]).card < gone@.len(),
            current as int == if age == 0 {
                1int
            } else {
                age as int
            },
            i <= copies@.len(),
            forall|j: int|
                0 <= j < i ==> gone@[copies@[j].card as int] || (copies@[j].age as int) < current,
        decreases copies@.len() - i,
    {
        let c = copies[i];
        if !gone[c.card as usize] && c.age >= current {
            assert(!gone@[copies@[i as int].card as int] && copies@[i as int].age as int >= current);
            return true;
        }
        i = i + 1;
    }
    false
}

/// How many half-pairs `p` is sitting on that can still be completed: a
/// symbol held exactly once, whose pair token has not been awarded, that is
/// not the Law token's symbol (which can never pair), and whose second copy
/// is still obtainable.
pub open spec fn pair_candidates_of(
    held: Seq<u8>,
    awarded: Seq<bool>,
    law_symbol: Option<u8>,
    obtainable: Seq<bool>,
    upto: int,
) -> nat
    decreases upto,
{
    if upto <= 0 {
        0
    } else {
        let i = upto - 1;
        pair_candidates_of(held, awarded, law_symbol, obtainable, i) + if held[i] == 1 && law_symbol
            != Some(i as u8) && !awarded[i] && obtainable[i] {
            1nat
        } else {
            0nat
        }
    }
}

/// [`pair_candidates_of`] over every symbol, computed.
pub fn pair_threat_candidates(
    held: &Vec<u8>,
    awarded: &Vec<bool>,
    law_symbol: Option<u8>,
    obtainable: &Vec<bool>,
) -> (r: u32)
    requires
        awarded@.len() == held@.len(),
        obtainable@.len() == held@.len(),
        held@.len() <= 256,
    ensures
        r == pair_candidates_of(held@, awarded@, law_symbol, obtainable@, held@.len() as int),
{
    let mut n: u32 = 0;
    let mut i: usize = 0;
    while i < held.len()
        invariant
            awarded@.len() == held@.len(),
            obtainable@.len() == held@.len(),
            held@.len() <= 256,
            i <= held@.len(),
            n == pair_candidates_of(held@, awarded@, law_symbol, obtainable@, i as int),
            n <= i,
        decreases held@.len() - i,
    {
        if held[i] == 1 && law_symbol != Some(i as u8) && !awarded[i] && obtainable[i] {
            n = n + 1;
        }
        i = i + 1;
    }
    n
}

/// How many of the first `upto` items are selected and ask for at least
/// `k + 1` units of resource `r`.
pub open spec fn demand_count(selected: Seq<bool>, costs: Seq<Vec<u8>>, k: int, r: int, upto: int) -> nat
    decreases upto,
{
    if upto <= 0 {
        0
    } else {
        let c = upto - 1;
        demand_count(selected, costs, k, r, c) + if selected[c] && costs[c]@[r] as int >= k + 1 {
            1nat
        } else {
            0nat
        }
    }
}

/// Asking for a `k + 2`-th unit means asking for a `k + 1`-th: the counts
/// never grow with `k`, and never exceed the items selected.
pub proof fn lemma_demand_monotone(selected: Seq<bool>, costs: Seq<Vec<u8>>, k: int, r: int, upto: int)
    requires
        0 <= k,
        0 <= upto <= selected.len(),
    ensures
        demand_count(selected, costs, k + 1, r, upto) <= demand_count(selected, costs, k, r, upto),
        demand_count(selected, costs, k, r, upto) <= count_true(selected.take(upto)),
    decreases upto,
{
    if upto > 0 {
        lemma_demand_monotone(selected, costs, k, r, upto - 1);
        assert(selected.take(upto).drop_last() =~= selected.take(upto - 1));
    }
}

/// The demand table: row `k`, column `r` counts the selected items whose
/// cost asks for at least `k + 1` units of resource `r`.
pub fn demand_counts(selected: &Vec<bool>, costs: &Vec<Vec<u8>>, n_resources: usize) -> (t: Vec<Vec<u32>>)
    requires
        costs@.len() == selected@.len(),
        selected@.len() <= 0xFFFF_FFFFu32,
        forall|c: int| 0 <= c < costs@.len() ==> (#[trigger] costs@[c])@.len() == n_resources,
    ensures
        t@.len() == MAX_UNITS,
        forall|k: int|
            0 <= k < MAX_UNITS ==> (#[trigger] t@[k])@.len() == n_resources && forall|r: int|
                0 <= r < n_resources ==> t@[k]@[r] == demand_count(
                    selected@,
                    costs@,
                    k,
                    r,
                    selected@.len() as int,
                ),
{
    let mut table: Vec<Vec<u32>> = Vec::new();
    let mut k: usize = 0;
    while k < MAX_UNITS
        invariant
            costs@.len() == selected@.len(),
            selected@.len() <= 0xFFFF_FFFFu32,
            forall|c: int| 0 <= c < costs@.len() ==> (#[trigger] costs@[c])@.len() == n_resources,
            k <= MAX_UNITS,
            table@.len() == k,
            forall|kk: int|
                0 <= kk < k ==> (#[trigger] table@[kk])@.len() == n_resources && forall|r: int|
                    0 <= r < n_resources ==> table@[kk]@[r] == demand_count(
                        selected@,
                        costs@,
                        kk,
                        r,
                        selected@.len() as int,
                    ),
        decreases MAX_UNITS - k,
    {
        let mut row: Vec<u32> = Vec::new();
        let mut r: usize = 0;
        while r < n_resources
            invariant
                costs@.len() == selected@.len(),
                selected@.len() <= 0xFFFF_FFFFu32,
                forall|c: int| 0 <= c < costs@.len() ==> (#[trigger] costs@[c])@.len() == n_resources,
                k < MAX_UNITS,
                r <= n_resources,
                row@.len() == r,
                forall|rr: int|
                    0 <= rr < r ==> #[trigger] row@[rr] == demand_count(
                        selected@,
                        costs@,
                        k as int,
                        rr,
                        selected@.len() as int,
                    ),
            decreases n_resources - r,
        {
            let mut n: u32 = 0;
            let mut c: usize = 0;
            while c < selected.len()
                invariant
                    costs@.len() == selected@.len(),
                    selected@.len() <= 0xFFFF_FFFFu32,
                    forall|cc: int| 0 <= cc < costs@.len() ==> (#[trigger] costs@[cc])@.len() == n_resources,
                    r < n_resources,
                    k < MAX_UNITS,
                    c <= selected@.len(),
                    n == demand_count(selected@, costs@, k as int, r as int, c as int),
                    n <= c,
                decreases selected@.len() - c,
            {
                if selected[c] && costs[c][r] as usize >= k + 1 {
                    n = n + 1;
                }
                c = c + 1;
            }
            row.push(n);
            r = r + 1;
        }
        table.push(row);
        k = k + 1;
    }
    table
}

/// Whether card `c` is in the supply pool: the current age's unseen cards
/// plus every card of an age not yet dealt.
pub open spec fn in_pool(unknown: Seq<bool>, age_cards: Seq<Vec<bool>>, undealt: Seq<u8>, c: int) -> bool {
    ||| unknown[c]
    ||| exists|j: int|
        0 <= j < undealt.len() && 1 <= undealt[j] <= age_cards.len() && (#[trigger] age_cards[undealt[j]
            - 1])@[c]
}

/// The supply pool as a set of cards.
pub fn supply_pool(unknown: &Vec<bool>, age_cards: &Vec<Vec<bool>>, undealt: &Vec<u8>) -> (pool: Vec<bool>)
    requires
        forall|a: int| 0 <= a < age_cards@.len() ==> (#[trigger] age_cards@[a])@.len() == unknown@.len(),
    ensures
        pool@.len() == unknown@.len(),
        forall|c: int| 0 <= c < pool@.len() ==> #[trigger] pool@[c] == in_pool(unknown@, age_cards@, undealt@, c),
{
    let mut pool: Vec<bool> = Vec::new();
    let mut c: usize = 0;
    while c < unknown.len()
        invariant
            forall|a: int| 0 <= a < age_cards@.len() ==> (#[trigger] age_cards@[a])@.len() == unknown@.len(),
            c <= unknown@.len(),
            pool@.len() == c,
            forall|cc: int| 0 <= cc < c ==> #[trigger] pool@[cc] == in_pool(unknown@, age_cards@, undealt@, cc),
        decreases unknown@.len() - c,
    {
        let mut member = unknown[c];
        let mut j: usize = 0;
        while j < undealt.len() && !member
            invariant
                forall|a: int| 0 <= a < age_cards@.len() ==> (#[trigger] age_cards@[a])@.len() == unknown@.len(),
                c < unknown@.len(),
                j <= undealt@.len(),
                member == (unknown@[c as int] || exists|jj: int|
                    0 <= jj < j && 1 <= undealt@[jj] <= age_cards@.len() && (#[trigger] age_cards@[undealt@[jj]
                        - 1])@[c as int]),
            decreases undealt@.len() - j,
        {
            let a = undealt[j];
            if a >= 1 && (a as usize) <= age_cards.len() && age_cards[(a - 1) as usize][c] {
                member = true;
            }
            j = j + 1;
        }
        proof {
            if !member {
                assert(!in_pool(unknown@, age_cards@, undealt@, c as int)) by {
                    assert(j == undealt@.len());
                }
            } else {
                if !unknown@[c as int] {
                    let jj = choose|jj: int|
                        0 <= jj < j && 1 <= undealt@[jj] <= age_cards@.len() && (#[trigger] age_cards@[undealt@[jj]
                            - 1])@[c as int];
                    assert(0 <= jj < undealt@.len());
                }
            }
        }
        pool.push(member);
        c = c + 1;
    }
    pool
}

/// The supply statistics of a root position, as counts: how many cards the
/// pool holds, and, for the `k`-th unit of each resource, how many of them
/// ask for it. The fraction of the pool asking for it is
/// `counts[k][r] / pool_size` (zero for an empty pool).
pub struct DevSupply {
    pub counts: Vec<Vec<u32>>,
    pub pool_size: u32,
}

impl DevSupply {
    /// Read the supply counts: `unknown` is the current age's unseen cards,
    /// `age_cards[a - 1]` the cards of age `a`, `undealt` the ages not yet
    /// dealt, and `costs[c][r]` the units of resource `r` card `c` asks for.
    pub fn of(
        unknown: &Vec<bool>,
        age_cards: &Vec<Vec<bool>>,
        undealt: &Vec<u8>,
        costs: &Vec<Vec<u8>>,
        n_resources: usize,
    ) -> (d: DevSupply)
        requires
            forall|a: int| 0 <= a < age_cards@.len() ==> (#[trigger] age_cards@[a])@.len() == unknown@.len(),
            costs@.len() == unknown@.len(),
            unknown@.len() <= 0xFFFF_FFFFu32,
            forall|c: int| 0 <= c < costs@.len() ==> (#[trigger] costs@[c])@.len() == n_resources,
        ensures
            ({
                let pool = Seq::new(unknown@.len(), |c: int| in_pool(unknown@, age_cards@, undealt@, c));
                &&& d.pool_size == count_true(pool)
                &&& d.counts@.len() == MAX_UNITS
                &&& forall|k: int|
                    0 <= k < MAX_UNITS ==> (#[trigger] d.counts@[k])@.len() == n_resources && forall|r: int|
                        0 <= r < n_resources ==> d.counts@[k]@[r] == demand_count(
                            pool,
                            costs@,
                            k,
                            r,
                            pool.len() as int,
                        )
            }),
    {
        let pool = supply_pool(unknown, age_cards, undealt);
        let ghost spool = Seq::new(unknown@.len(), |c: int| in_pool(unknown@, age_cards@, undealt@, c));
        assert(pool@ =~= spool);
        let counts = demand_counts(&pool, costs, n_resources);
        let mut n: u32 = 0;
        let mut c: usize = 0;
        while c < pool.len()
            invariant
                pool@.len() <= 0xFFFF_FFFFu32,
                c <= pool@.len(),
                n == count_true(pool@.take(c as int)),
                n <= c,
            decreases pool@.len() - c,
        {
            proof {
                assert(pool@.take(c + 1).drop_last() =~= pool@.take(c as int));
            }
            if pool[c] {
                n = n + 1;
            }
            c = c + 1;
        }
        proof {
            assert(pool@.take(c as int) =~= pool@);
        }
        DevSupply { counts, pool_size: n }
    }
}

/// A card in the structure, as the chain terms read it.
#[derive(Debug, Clone, Copy, PartialEq, Eq, Structural)]
pub struct ChainCard {
    pub victory_points: u8,
    /// The card whose owner builds this one for free, if any.
    pub chain_from: Option<u16>,
}

/// One slot of the structure.
#[derive(Debug, Clone, Copy, PartialEq, Eq, Structural)]
pub struct StructureSlot {
    /// Whether the slot can be taken this turn.
    pub accessible: bool,
    /// The face-up card in it, if any.
    pub card: Option<ChainCard>,
}

/// The free chain builds among the first `upto` slots that `taker` can take:
/// each is worth two plus its printed points.
pub open spec fn gift_value(slots: Seq<StructureSlot>, taker_built: Seq<bool>, upto: int) -> nat
    decreases upto,
{
    if upto <= 0 {
        0
    } else {
        let s = slots[upto - 1];
        gift_value(slots, taker_built, upto - 1) + if s.accessible && s.card is Some && s.card->0.chain_from is Some
            && taker_built[s.card->0.chain_from->0 as int] {
            (2 + s.card->0.victory_points) as nat
        } else {
            0nat
        }
    }
}

/// The value of the free chain builds `p` is about to hand the opponent, if
/// it is genuinely the opponent's turn next in the root's age; zero
/// otherwise. `taker_built` is the opponent's city.
pub open spec fn chain_gift_of(
    view: TurnView,
    p: Player,
    root_age: u8,
    slots: Seq<StructureSlot>,
    taker_built: Seq<bool>,
) -> nat {
    if view.age != root_age || view.phase != Phase::Turn || view.current != p.opposite() {
        0
    } else {
        gift_value(slots, taker_built, slots.len() as int)
    }
}

/// The chain gift is charged only when the opponent moves next in the
/// root's age; then each accessible face-up card the opponent can chain for
/// free costs two plus its printed points, and nothing else costs anything.
pub proof fn lemma_chain_gift_charges_free_builds(
    view: TurnView,
    p: Player,
    root_age: u8,
    slots: Seq<StructureSlot>,
    taker_built: Seq<bool>,
    s: StructureSlot,
)
    ensures
        (view.age != root_age || view.phase != Phase::Turn || view.current == p) ==> chain_gift_of(
            view,
            p,
            root_age,
            slots,
            taker_built,
        ) == 0,
        gift_value(slots.push(s), taker_built, slots.len() + 1int) == gift_value(slots, taker_built, slots.len() as int)
            + if s.accessible && s.card is Some && s.card->0.chain_from is Some
            && taker_built[s.card->0.chain_from->0 as int] {
            2 + s.card->0.victory_points
        } else {
            0int
        },
{
    lemma_gift_value_prefix(slots, s, taker_built, slots.len() as int);
}

/// Appending a slot leaves the gift over the earlier slots unchanged.
proof fn lemma_gift_value_prefix(slots: Seq<StructureSlot>, s: StructureSlot, taker_built: Seq<bool>, upto: int)
    requires
        0 <= upto <= slots.len(),
    ensures
        gift_value(slots.push(s), taker_built, upto) == gift_value(slots, taker_built, upto),
    decreases upto,
{
    if upto > 0 {
        lemma_gift_value_prefix(slots, s, taker_built, upto - 1);
        assert(slots.push(s)[upto - 1] == slots[upto - 1]);
    }
}

/// [`chain_gift_of`], computed.
pub fn chain_gift_exposure(
    view: &TurnView,
    p: Player,
    root_age: u8,
    slots: &Vec<StructureSlot>,
    taker_built: &Vec<bool>,
) -> (r: u32)
    requires
        slots@.len() <= 32,
        forall|i: int|
            0 <= i < slots@.len() ==> match (#[trigger] slots@[i]).card {
                Some(c) => match c.chain_from {
                    Some(f) => (f as int) < taker_built@.len(),
                    None => true,
                },
                None => true,
            },
    ensures
        r == chain_gift_of(*view, p, root_age, slots@, taker_built@),
{
    let taker = p.other();
    if view.age != root_age || view.phase != Phase::Turn || view.current != taker {
        return 0;
    }
    let mut value: u32 = 0;
    let mut i: usize = 0;
    while i < slots.len()
        invariant
            slots@.len() <= 32,
            forall|j: int|
                0 <= j < slots@.len() ==> match (#[trigger] slots@[j]).card {
                    Some(c) => match c.chain_from {
                        Some(f) => (f as int) < taker_built@.len(),
                        None => true,
                    },
                    None => true,
                },
            i <= slots@.len(),
            value == gift_value(slots@, taker_built@, i as int),
            value <= i * 257,
        decreases slots@.len() - i,
    {
        let s = slots[i];
        if s.accessible {
            match s.card {
                Some(c) => match c.chain_from {
                    Some(f) => {
                        if taker_built[f as usize] {
                            value = value + 2 + c.victory_points as u32;
                        }
                    },
                    None => {},
                },
                None => {},
            }
        }
        i = i + 1;
    }
    value
}

/// The "as if the game ended now" point breakdown of one player.
#[derive(Debug, Clone, Copy, PartialEq, Eq, Structural)]
pub struct Breakdown {
    pub civilian: u32,
    pub scientific: u32,
    pub commercial: u32,
    pub guilds: u32,
    pub wonders: u32,
    pub progress_tokens: u32,
    pub military: u32,
    pub coins: u32,
}

/// The points from cards, wonders and tokens: the breakdown without military
/// (read as board position instead) and coins (which have their own terms).
pub fn card_and_token_vp(b: &Breakdown) -> (r: u64)
    ensures
        r == b.civilian as int + b.scientific as int + b.commercial as int + b.guilds as int
            + b.wonders as int + b.progress_tokens as int,
{
    b.civilian as u64 + b.scientific as u64 + b.commercial as u64 + b.guilds as u64
        + b.wonders as u64 + b.progress_tokens as u64
}

/// The wonders a player has drafted and not yet built: a certain demand on
/// their city's resources.
pub fn unbuilt_wonders(drafted: &Vec<bool>, built: &Vec<bool>) -> (r: Vec<bool>)
    requires
        built@.len() == drafted@.len(),
    ensures
        r@.len() == drafted@.len(),
        forall|w: int| 0 <= w < r@.len() ==> #[trigger] r@[w] == (drafted@[w] && !built@[w]),
{
    let mut out: Vec<bool> = Vec::new();
    let mut w: usize = 0;
    while w < drafted.len()
        invariant
            built@.len() == drafted@.len(),
            w <= drafted@.len(),
            out@.len() == w,
            forall|j: int| 0 <= j < w ==> #[trigger] out@[j] == (drafted@[j] && !built@[j]),
        decreases drafted@.len() - w,
    {
        out.push(drafted[w] && !built[w]);
        w = w + 1;
    }
    out
}

} // verus!
