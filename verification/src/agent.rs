//! The move-choice shell both agents share: the forced-move shortcut, the
//! filter that keeps a determinized search to the moves actually offered,
//! and the guard that never hands back a move the caller did not offer.

use rand::rngs::StdRng;
use vstd::prelude::*;

use crate::game::{Action, GameResult};
use crate::player::Player;
use crate::rollout::pick_uniform;

verus! {

/// The move to play without thinking: the only legal one, when there is
/// exactly one.
pub fn forced_move(legal: &Vec<Action>) -> (r: Option<Action>)
    requires
        legal@.len() > 0,
    ensures
        r is Some <==> legal@.len() == 1,
        r matches Some(a) ==> a == legal@[0],
{
    if legal.len() == 1 {
        Some(legal[0])
    } else {
        None
    }
}

/// The offered moves a determinized root agrees are legal (`legal_in_root`
/// holds that verdict for each), in their offered order — or all of them,
/// should the determinization disagree with every one.
pub fn offered_moves(legal: &Vec<Action>, legal_in_root: &Vec<bool>) -> (r: Vec<Action>)
    requires
        legal_in_root@.len() == legal@.len(),
    ensures
        (exists|i: int| 0 <= i < legal@.len() && legal_in_root@[i]) ==> r@ == filter_by(legal@, legal_in_root@),
        (forall|i: int| 0 <= i < legal@.len() ==> !legal_in_root@[i]) ==> r@ == legal@,
        forall|k: int| 0 <= k < r@.len() ==> legal@.contains(#[trigger] r@[k]),
{
    let mut out: Vec<Action> = Vec::new();
    let mut i: usize = 0;
    while i < legal.len()
        invariant
            legal_in_root@.len() == legal@.len(),
            i <= legal@.len(),
            out@ == filter_by(legal@.take(i as int), legal_in_root@.take(i as int)),
        decreases legal@.len() - i,
    {
        proof {
            assert(legal@.take(i + 1).drop_last() =~= legal@.take(i as int));
            assert(legal_in_root@.take(i + 1).drop_last() =~= legal_in_root@.take(i as int));
        }
        if legal_in_root[i] {
            out.push(legal[i]);
        }
        i = i + 1;
    }
    proof {
        assert(legal@.take(i as int) =~= legal@);
        assert(legal_in_root@.take(i as int) =~= legal_in_root@);
        lemma_filter_by_within(legal@, legal_in_root@);
        if forall|k: int| 0 <= k < legal@.len() ==> !legal_in_root@[k] {
            lemma_filter_by_none(legal@, legal_in_root@);
        }
    }
    if out.len() == 0 {
        proof {
            lemma_filter_by_empty(legal@, legal_in_root@);
        }
        let mut all: Vec<Action> = Vec::new();
        let mut j: usize = 0;
        while j < legal.len()
            invariant
                j <= legal@.len(),
                all@ == legal@.take(j as int),
            decreases legal@.len() - j,
        {
            proof {
                assert(legal@.take(j + 1) =~= legal@.take(j as int).push(legal@[j as int]));
            }
            all.push(legal[j]);
            j = j + 1;
        }
        proof {
            assert(legal@.take(j as int) =~= legal@);
            assert forall|k: int| 0 <= k < all@.len() implies legal@.contains(#[trigger] all@[k]) by {
                assert(legal@[k] == all@[k]);
            }
        }
        return all;
    }
    out
}

/// The elements of `s` whose entry in `keep` is set, in order.
pub open spec fn filter_by(s: Seq<Action>, keep: Seq<bool>) -> Seq<Action>
    decreases s.len(),
{
    if s.len() == 0 || keep.len() == 0 {
        Seq::empty()
    } else {
        let rest = filter_by(s.drop_last(), keep.drop_last());
        if keep.last() {
            rest.push(s.last())
        } else {
            rest
        }
    }
}

/// Everything a filter keeps comes from the filtered sequence.
proof fn lemma_filter_by_within(s: Seq<Action>, keep: Seq<bool>)
    requires
        keep.len() == s.len(),
    ensures
        forall|k: int| 0 <= k < filter_by(s, keep).len() ==> s.contains(#[trigger] filter_by(s, keep)[k]),
    decreases s.len(),
{
    if s.len() > 0 {
        lemma_filter_by_within(s.drop_last(), keep.drop_last());
        let rest = filter_by(s.drop_last(), keep.drop_last());
        assert forall|k: int| 0 <= k < filter_by(s, keep).len() implies s.contains(#[trigger] filter_by(s, keep)[k]) by {
            if k < rest.len() {
                assert(s.drop_last().contains(rest[k]));
                let j = choose|j: int| 0 <= j < s.drop_last().len() && s.drop_last()[j] == rest[k];
                assert(s[j] == rest[k]);
            } else {
                assert(filter_by(s, keep)[k] == s[s.len() - 1]);
            }
        }
    }
}

/// A filter over entries none of which is kept keeps nothing.
proof fn lemma_filter_by_none(s: Seq<Action>, keep: Seq<bool>)
    requires
        keep.len() == s.len(),
        forall|i: int| 0 <= i < s.len() ==> !keep[i],
    ensures
        filter_by(s, keep).len() == 0,
    decreases s.len(),
{
    if s.len() > 0 {
        assert(!keep[keep.len() - 1]);
        lemma_filter_by_none(s.drop_last(), keep.drop_last());
    }
}

/// A filter that keeps nothing found no kept entry.
proof fn lemma_filter_by_empty(s: Seq<Action>, keep: Seq<bool>)
    requires
        keep.len() == s.len(),
        filter_by(s, keep).len() == 0,
    ensures
        forall|i: int| 0 <= i < s.len() ==> !keep[i],
    decreases s.len(),
{
    if s.len() > 0 {
        let rest = filter_by(s.drop_last(), keep.drop_last());
        if keep.last() {
            assert(filter_by(s, keep).len() == rest.len() + 1);
        }
        lemma_filter_by_empty(s.drop_last(), keep.drop_last());
        assert forall|i: int| 0 <= i < s.len() implies !keep[i] by {
            if i < s.len() - 1 {
                assert(!keep.drop_last()[i]);
            }
        }
    }
}

/// The search's choice if it is one of the offered moves, and the first
/// offered move otherwise: never a move the caller did not offer.
pub fn offered_or_first(legal: &Vec<Action>, chosen: Option<Action>) -> (r: Action)
    requires
        legal@.len() > 0,
    ensures
        legal@.contains(r),
        chosen is Some && legal@.contains(chosen->0) ==> r == chosen->0,
        !(chosen is Some && legal@.contains(chosen->0)) ==> r == legal@[0],
{
    match chosen {
        Some(c) => {
            let mut i: usize = 0;
            while i < legal.len()
                invariant
                    chosen == Some(c),
                    legal@.len() > 0,
                    i <= legal@.len(),
                    forall|j: int| 0 <= j < i ==> legal@[j] != c,
                decreases legal@.len() - i,
            {
                if legal[i] == c {
                    assert(legal@[i as int] == c);
                    return c;
                }
                i = i + 1;
            }
            assert(legal@[0] == legal[0]);
            legal[0]
        },
        None => {
            assert(legal@[0] == legal[0]);
            legal[0]
        },
    }
}

/// One of the moves tied for the best score, drawn uniformly.
pub fn pick_among_best(best: &Vec<Action>, rng: &mut StdRng) -> (a: Action)
    requires
        best@.len() > 0,
    ensures
        best@.contains(a),
{
    pick_uniform(best, rng)
}

/// The score of a finished game for `me`: `+instant` for a win, `−instant`
/// for a loss, `0` for a draw; `None` while the game is still going.
pub open spec fn terminal_score_of(result: Option<GameResult>, me: Player, instant: i64) -> Option<int> {
    match result {
        Some(GameResult::Win { winner, .. }) => Some(if winner == me { instant as int } else { -instant }),
        Some(GameResult::Draw) => Some(0),
        None => None,
    }
}

/// The score a finished game gets, dwarfing every other term of the
/// evaluation; `None` while the game is still going.
pub fn terminal_score(result: Option<GameResult>, me: Player, instant: i64) -> (r: Option<i128>)
    ensures
        match r {
            Some(v) => terminal_score_of(result, me, instant) == Some(v as int),
            None => terminal_score_of(result, me, instant) is None,
        },
{
    match result {
        Some(GameResult::Win { winner, .. }) => Some(if winner == me { instant as i128 } else { -(instant as i128) }),
        Some(GameResult::Draw) => Some(0),
        None => None,
    }
}

/// A finished game is scored zero-sum: the two seats' scores are opposites,
/// and a win, a draw and a loss are ordered as such for any positive weight.
pub proof fn lemma_terminal_score_zero_sum(result: GameResult, me: Player, instant: i64)
    requires
        instant > 0,
    ensures
        terminal_score_of(Some(result), me, instant)->0 == -terminal_score_of(Some(result), me.opposite(), instant)->0,
        result matches GameResult::Win { winner, .. } && winner == me ==> terminal_score_of(Some(result), me, instant)->0 > 0,
        result matches GameResult::Win { winner, .. } && winner != me ==> terminal_score_of(Some(result), me, instant)->0 < 0,
        result is Draw ==> terminal_score_of(Some(result), me, instant)->0 == 0,
{
}

} // verus!
