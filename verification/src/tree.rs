//! The search tree of the Monte Carlo agent: an index-based arena of
//! decision, chance and terminal nodes, and the bookkeeping the search does
//! over it.
//!
//! # Value convention
//!
//! A finished game is worth `1` to the first seat, `½` for a draw and `0` to
//! the second seat (or, under [`Objective::TargetKind`], `1` exactly when the
//! searching seat wins by the target kind). Every node accumulates values
//! from that one anchor, so backpropagation adds the same value to every node
//! on the path, and the perspective flip happens in exactly one place: when a
//! parent's mover is not the anchor, exploitation reads `1 − mean`
//! ([`exploit_reads_directly`]).
//!
//! # What lives here and what does not
//!
//! The arena's shape — which child belongs to which action, which prefix of
//! a decision node's actions has been expanded, which outcomes a chance node
//! has drawn — and its visit counts are kept and proved here. The running
//! value sums, the exploration bonus and the progressive-widening allowance
//! are floating-point quantities that the search driver keeps alongside the
//! arena, indexed by the same node ids.

use rand::rngs::StdRng;
use vstd::prelude::*;

use crate::game::{Action, GameResult, VictoryKind};
use crate::player::Player;
use crate::rng::shuffle;

verus! {

/// "No child here yet."
pub const NO_NODE: u32 = 0xFFFF_FFFFu32;

/// A value backed up from a finished game: `0`, `½` or `1`.
#[derive(Debug, Clone, Copy, PartialEq, Eq, Structural)]
pub enum Reward {
    Zero,
    Half,
    One,
}

impl Reward {
    /// The reward in halves: `0`, `1` or `2`.
    pub open spec fn half_points(self) -> int {
        match self {
            Reward::Zero => 0,
            Reward::Half => 1,
            Reward::One => 2,
        }
    }

    /// The reward in halves: `0`, `1` or `2`.
    pub fn halves(self) -> (r: u8)
        ensures
            r == self.half_points(),
    {
        match self {
            Reward::Zero => 0,
            Reward::Half => 1,
            Reward::One => 2,
        }
    }
}

/// What a search is built to maximize.
#[derive(Debug, Clone, Copy, PartialEq, Eq, Structural)]
pub enum Objective {
    /// The probability of winning at all, by any route.
    WinProbability,
    /// The probability that the searching seat wins by exactly this kind.
    TargetKind(VictoryKind),
}

/// Whether `actual` counts as an achievement of `target`, the two civilian
/// kinds counting as one.
pub open spec fn kinds_match(actual: VictoryKind, target: VictoryKind) -> bool {
    let civilian_actual = actual == VictoryKind::CivilianVictory || actual
        == VictoryKind::CivilianTiebreak;
    let civilian_target = target == VictoryKind::CivilianVictory || target
        == VictoryKind::CivilianTiebreak;
    (civilian_actual && civilian_target) || actual == target
}

/// Whether a finished game's actual kind counts as an achievement of
/// `target`, folding the civilian victory and the civilian tiebreak together.
pub fn kind_matches_target(actual: VictoryKind, target: VictoryKind) -> (b: bool)
    ensures
        b == kinds_match(actual, target),
{
    match (actual, target) {
        (
            VictoryKind::CivilianVictory | VictoryKind::CivilianTiebreak,
            VictoryKind::CivilianVictory | VictoryKind::CivilianTiebreak,
        ) => true,
        _ => actual == target,
    }
}

/// A short, stable name for a victory kind, the two civilian kinds sharing
/// one: what a target-kind objective is described by.
pub fn victory_kind_name(kind: VictoryKind) -> (r: &'static str)
    ensures
        r@ == match kind {
            VictoryKind::MilitarySupremacy => "military"@,
            VictoryKind::ScientificSupremacy => "science"@,
            VictoryKind::CivilianVictory | VictoryKind::CivilianTiebreak => "civilian"@,
        },
{
    match kind {
        VictoryKind::MilitarySupremacy => "military",
        VictoryKind::ScientificSupremacy => "science",
        VictoryKind::CivilianVictory | VictoryKind::CivilianTiebreak => "civilian",
    }
}

/// `1` if the first seat won, `0` if the second seat won, `½` for a draw.
pub open spec fn reward_of(result: GameResult) -> Reward {
    match result.spec_winner() {
        Some(Player::One) => Reward::One,
        Some(Player::Two) => Reward::Zero,
        None => Reward::Half,
    }
}

/// `1` if the first seat won, `0` if the second seat won, `½` for a draw.
pub fn value_of(result: GameResult) -> (r: Reward)
    ensures
        r == reward_of(result),
{
    match result.winner() {
        Some(Player::One) => Reward::One,
        Some(Player::Two) => Reward::Zero,
        None => Reward::Half,
    }
}

/// The reward a search under `objective`, run for seat `me`, backs up from a
/// finished game.
pub open spec fn objective_reward(result: GameResult, objective: Objective, me: Player) -> Reward {
    match objective {
        Objective::WinProbability => reward_of(result),
        Objective::TargetKind(target) => match result {
            GameResult::Win { winner, kind } => if winner == me && kinds_match(kind, target) {
                Reward::One
            } else {
                Reward::Zero
            },
            GameResult::Draw => Reward::Zero,
        },
    }
}

/// [`value_of`], generalized by the search's objective: under
/// [`Objective::TargetKind`] only a win by `me` of the target kind scores.
pub fn objective_value_of(result: GameResult, objective: Objective, me: Player) -> (r: Reward)
    ensures
        r == objective_reward(result, objective, me),
{
    match objective {
        Objective::WinProbability => value_of(result),
        Objective::TargetKind(target) => match result {
            GameResult::Win { winner, kind } => {
                if winner == me && kind_matches_target(kind, target) {
                    Reward::One
                } else {
                    Reward::Zero
                }
            },
            GameResult::Draw => Reward::Zero,
        },
    }
}

/// The same game with the seats swapped.
pub open spec fn swap_seats(result: GameResult) -> GameResult {
    match result {
        GameResult::Win { winner, kind } => GameResult::Win { winner: winner.opposite(), kind },
        GameResult::Draw => result,
    }
}

/// The win-probability reward is zero-sum: a game and the same game with the
/// seats swapped are worth exactly one between them, which is what makes
/// `1 − mean` the other seat's value.
pub proof fn lemma_reward_is_zero_sum(result: GameResult)
    ensures
        reward_of(result).half_points() + reward_of(swap_seats(result)).half_points() == 2,
{
}

/// Under the win-probability objective the reward is [`reward_of`] itself,
/// whichever seat is searching.
pub proof fn lemma_win_probability_ignores_the_searcher(result: GameResult, me: Player)
    ensures
        objective_reward(result, Objective::WinProbability, me) == reward_of(result),
        objective_reward(result, Objective::WinProbability, me) == objective_reward(
            result,
            Objective::WinProbability,
            me.opposite(),
        ),
{
}

/// Under a target kind, only a win by the searching seat of a matching kind
/// scores, and every other finish scores nothing.
pub proof fn lemma_target_kind_rewards_only_the_searcher(
    result: GameResult,
    target: VictoryKind,
    me: Player,
)
    ensures
        objective_reward(result, Objective::TargetKind(target), me) == Reward::One
            || objective_reward(result, Objective::TargetKind(target), me) == Reward::Zero,
        objective_reward(result, Objective::TargetKind(target), me) == Reward::One <==> exists|
            k: VictoryKind,
        |
            result == (GameResult::Win { winner: me, kind: k }) && kinds_match(k, target),
{
    match result {
        GameResult::Win { winner, kind } => {
            if winner == me && kinds_match(kind, target) {
                assert(result == (GameResult::Win { winner: me, kind: kind }));
            }
        },
        GameResult::Draw => {},
    }
}

/// Whether exploitation at a node whose parent's mover is `mover` reads the
/// child's mean as it is (`true`) or as `1 − mean` (`false`): the one place
/// the perspective flip happens.
pub open spec fn reads_directly(objective: Objective, me: Player, mover: Player) -> bool {
    let anchor = match objective {
        Objective::WinProbability => Player::One,
        Objective::TargetKind(_) => me,
    };
    mover == anchor
}

/// [`reads_directly`], computed.
pub fn exploit_reads_directly(objective: Objective, me: Player, mover: Player) -> (b: bool)
    ensures
        b == reads_directly(objective, me, mover),
{
    let anchor = match objective {
        Objective::WinProbability => Player::One,
        Objective::TargetKind(_) => me,
    };
    mover == anchor
}

/// One drawn outcome of a chance node.
#[derive(Debug, Clone, Copy, PartialEq, Eq, Structural)]
pub struct ChanceChild {
    /// Which reveal this child resolves, as the key the driver finds it by.
    pub outcome: u64,
    /// The node that reveal leads to.
    pub node: u32,
}

/// What kind of node this is, and its kind-specific payload.
#[allow(inconsistent_fields)]
pub enum Kind {
    /// The game is over here; `value` is its reward.
    Terminal { value: Reward },
    /// One player must choose among `actions`.
    Decision {
        mover: Player,
        /// Legal actions, shuffled once so expansion order carries no bias.
        actions: Vec<Action>,
        /// `children[i]` is the node for `actions[i]`, or [`NO_NODE`].
        children: Vec<u32>,
        /// How many of `children` have been created, always a prefix.
        expanded: usize,
    },
    /// `action` has been chosen and its randomness must be resolved.
    Chance { action: Action, children: Vec<ChanceChild> },
}

/// One node of the arena.
pub struct Node {
    /// How many simulations have passed through this node.
    pub visits: u32,
    pub kind: Kind,
}

/// `c` is a child of node `p`: an expanded child of a decision node, or a
/// drawn outcome of a chance node.
pub open spec fn child_of(nodes: Seq<Node>, p: int, c: int) -> bool {
    &&& 0 <= p < nodes.len()
    &&& match nodes[p].kind {
        Kind::Terminal { .. } => false,
        Kind::Decision { children, expanded, .. } => exists|j: int|
            0 <= j < expanded && j < children@.len() && children@[j] == c,
        Kind::Chance { children, .. } => exists|j: int|
            0 <= j < children@.len() && children@[j].node == c,
    }
}

/// Node `i`'s links are consistent: a decision node's children line up with
/// its actions and form an expanded prefix, every link points to a later
/// node of the arena, and a chance node never holds one outcome twice.
pub open spec fn node_wf(nodes: Seq<Node>, i: int) -> bool {
    match nodes[i].kind {
        Kind::Terminal { .. } => true,
        Kind::Decision { actions, children, expanded, .. } => {
            &&& actions@.len() == children@.len()
            &&& expanded <= children@.len()
            &&& forall|j: int|
                0 <= j < children@.len() ==> if j < expanded {
                    i < #[trigger] children@[j] < nodes.len()
                } else {
                    children@[j] == NO_NODE
                }
        },
        Kind::Chance { children, .. } => {
            &&& forall|j: int|
                0 <= j < children@.len() ==> i < #[trigger] children@[j].node < nodes.len()
            &&& forall|j: int, k: int|
                0 <= j < children@.len() && 0 <= k < children@.len() && j != k
                    ==> #[trigger] children@[j].outcome != #[trigger] children@[k].outcome
        },
    }
}

/// A node that has just been made: unvisited, and linking to nothing.
pub open spec fn fresh(node: Node) -> bool {
    &&& node.visits == 0
    &&& match node.kind {
        Kind::Terminal { .. } => true,
        Kind::Decision { actions, children, expanded, .. } => {
            &&& expanded == 0
            &&& actions@.len() == children@.len()
            &&& forall|j: int| 0 <= j < children@.len() ==> children@[j] == NO_NODE
        },
        Kind::Chance { children, .. } => children@.len() == 0,
    }
}

/// The arena and the counters of the search over it.
pub struct Tree {
    pub nodes: Vec<Node>,
    /// Total simulations completed.
    pub simulations: u64,
    /// How many times a node's actions were ranked by prior: one per
    /// decision node that was due a ranking at its first expansion.
    pub rankings: u64,
    /// The seat this tree searches for: whoever moves at the root.
    pub me: Player,
    pub objective: Objective,
}

impl Tree {
    /// The arena is well formed: the root is a decision node for the
    /// searching seat, every node's links are consistent and point forward,
    /// and node ids fit below [`NO_NODE`].
    pub open spec fn wf(&self) -> bool {
        &&& 1 <= self.nodes@.len() < NO_NODE
        &&& self.nodes@[0].kind is Decision
        &&& forall|i: int| 0 <= i < self.nodes@.len() ==> node_wf(self.nodes@, i)
    }

    /// The root has been visited exactly once per completed simulation.
    pub open spec fn counts_agree(&self) -> bool {
        self.nodes@[0].visits == self.simulations
    }
}

/// A link of a well-formed arena always points to a later node.
pub proof fn lemma_child_after_parent(nodes: Seq<Node>, p: int, c: int)
    requires
        forall|i: int| 0 <= i < nodes.len() ==> node_wf(nodes, i),
        child_of(nodes, p, c),
    ensures
        p < c < nodes.len(),
{
    assert(node_wf(nodes, p));
    match nodes[p].kind {
        Kind::Terminal { .. } => {},
        Kind::Decision { children, expanded, .. } => {
            let j = choose|j: int| 0 <= j < expanded && j < children@.len() && children@[j] == c;
            assert(p < children@[j] < nodes.len());
        },
        Kind::Chance { children, .. } => {
            let j = choose|j: int| 0 <= j < children@.len() && children@[j].node == c;
            assert(p < children@[j].node < nodes.len());
        },
    }
}

/// A decision node for `mover` over `actions`, shuffled once so that
/// expansion order carries no systematic bias.
pub fn decision_node(mover: Player, actions: Vec<Action>, rng: &mut StdRng) -> (n: Node)
    ensures
        fresh(n),
        match n.kind {
            Kind::Decision { mover: m, actions: a, .. } => m == mover && a@.to_multiset()
                == actions@.to_multiset(),
            _ => false,
        },
{
    let mut actions = actions;
    shuffle(&mut actions, rng);
    let mut children: Vec<u32> = Vec::new();
    let n = actions.len();
    while children.len() < n
        invariant
            children@.len() <= n,
            forall|j: int| 0 <= j < children@.len() ==> children@[j] == NO_NODE,
        decreases n - children@.len(),
    {
        children.push(NO_NODE);
    }
    Node { visits: 0, kind: Kind::Decision { mover, actions, children, expanded: 0 } }
}

impl Tree {
    /// A tree whose root is a decision for `mover` over `actions`; `mover`
    /// is the seat the tree searches for.
    pub fn new(mover: Player, actions: Vec<Action>, objective: Objective, rng: &mut StdRng) -> (t: Tree)
        ensures
            t.wf(),
            t.counts_agree(),
            t.nodes@.len() == 1,
            fresh(t.nodes@[0]),
            t.simulations == 0,
            t.rankings == 0,
            t.me == mover,
            t.objective == objective,
            match t.nodes@[0].kind {
                Kind::Decision { mover: m, actions: a, .. } => m == mover && a@.to_multiset()
                    == actions@.to_multiset(),
                _ => false,
            },
    {
        let root = decision_node(mover, actions, rng);
        let mut nodes: Vec<Node> = Vec::new();
        nodes.push(root);
        let t = Tree { nodes, simulations: 0, rankings: 0, me: mover, objective };
        assert(node_wf(t.nodes@, 0));
        t
    }
}

/// Whether node `id` is a decision node with an action still unexpanded.
pub open spec fn can_expand(nodes: Seq<Node>, id: int) -> bool {
    match nodes[id].kind {
        Kind::Decision { children, expanded, .. } => expanded < children@.len(),
        _ => false,
    }
}

/// `path` is a simulation's route through the arena: it starts at the root
/// and each step goes from a node to one of its children.
pub open spec fn is_path(nodes: Seq<Node>, path: Seq<u32>) -> bool {
    &&& path.len() >= 1
    &&& path[0] == 0
    &&& forall|k: int| 0 <= k < path.len() - 1 ==> child_of(nodes, #[trigger] path[k] as int, path[k + 1] as int)
}

/// Whether node `i` lies on `path`.
pub open spec fn on_path(path: Seq<u32>, i: int) -> bool {
    exists|k: int| 0 <= k < path.len() && path[k] == i
}

/// A path through a well-formed arena only ever moves to later nodes, so it
/// never visits a node twice.
pub proof fn lemma_path_increasing(nodes: Seq<Node>, path: Seq<u32>)
    requires
        forall|i: int| 0 <= i < nodes.len() ==> node_wf(nodes, i),
        nodes.len() >= 1,
        is_path(nodes, path),
    ensures
        forall|k: int, l: int| 0 <= k < l < path.len() ==> path[k] < path[l],
        forall|k: int| 0 <= k < path.len() ==> path[k] < nodes.len(),
{
    assert forall|l: int| 0 < l < path.len() implies path[l - 1] < #[trigger] path[l] && path[l] < nodes.len() by {
        assert(child_of(nodes, path[l - 1] as int, path[l] as int));
        lemma_child_after_parent(nodes, path[l - 1] as int, path[l] as int);
    }
    assert forall|k: int, l: int| 0 <= k < l < path.len() implies path[k] < path[l] by {
        lemma_path_step_increasing(path, k, l);
    }
}

/// A sequence that rises at every step rises between any two positions.
proof fn lemma_path_step_increasing(path: Seq<u32>, k: int, l: int)
    requires
        0 <= k < l < path.len(),
        forall|m: int| 0 < m < path.len() ==> path[m - 1] < #[trigger] path[m],
    ensures
        path[k] < path[l],
    decreases l - k,
{
    if l > k + 1 {
        lemma_path_step_increasing(path, k, l - 1);
    }
}

impl Tree {
    /// The action the next expansion of decision node `id` would create a
    /// child for, or `None` when the node is fully expanded or not a
    /// decision.
    pub fn next_action(&self, id: u32) -> (r: Option<Action>)
        requires
            self.wf(),
            (id as int) < self.nodes@.len(),
        ensures
            r is Some <==> can_expand(self.nodes@, id as int),
            r matches Some(a) ==> match self.nodes@[id as int].kind {
                Kind::Decision { actions, expanded, .. } => a == actions@[expanded as int],
                _ => false,
            },
    {
        proof {
            assert(node_wf(self.nodes@, id as int));
        }
        match &self.nodes[id as usize].kind {
            Kind::Decision { actions, expanded, children, .. } => {
                if *expanded < children.len() {
                    Some(actions[*expanded])
                } else {
                    None
                }
            },
            _ => None,
        }
    }

    /// Attach `node` as the child of decision node `id` for its next
    /// unexpanded action, and return the new node's id; `None`, with nothing
    /// changed, when `id` has nothing left to expand.
    pub fn expand_with(&mut self, id: u32, node: Node) -> (r: Option<u32>)
        requires
            old(self).wf(),
            (id as int) < old(self).nodes@.len(),
            fresh(node),
            old(self).nodes@.len() + 1 < NO_NODE,
        ensures
            final(self).wf(),
            final(self).simulations == old(self).simulations,
            final(self).rankings == old(self).rankings,
            final(self).me == old(self).me,
            final(self).objective == old(self).objective,
            !can_expand(old(self).nodes@, id as int) ==> r is None && final(self).nodes@ == old(
                self,
            ).nodes@,
            can_expand(old(self).nodes@, id as int) ==> {
                let len = old(self).nodes@.len();
                &&& r == Some(len as u32)
                &&& final(self).nodes@.len() == len + 1
                &&& final(self).nodes@[len as int] == node
                &&& final(self).nodes@[id as int].visits == old(self).nodes@[id as int].visits
                &&& forall|k: int| 0 <= k < len && k != id ==> final(self).nodes@[k] == old(
                    self,
                ).nodes@[k]
                &&& match (old(self).nodes@[id as int].kind, final(self).nodes@[id as int].kind) {
                    (
                        Kind::Decision { mover: m0, actions: a0, children: c0, expanded: e0 },
                        Kind::Decision { mover: m1, actions: a1, children: c1, expanded: e1 },
                    ) => m1 == m0 && a1@ == a0@ && e1 == e0 + 1 && c1@ == c0@.update(
                        e0 as int,
                        len as u32,
                    ),
                    _ => false,
                }
            },
    {
        let len = self.nodes.len();
        proof {
            assert(node_wf(self.nodes@, id as int));
        }
        let slot = match &self.nodes[id as usize].kind {
            Kind::Decision { children, expanded, .. } => {
                if *expanded < children.len() {
                    Some(*expanded)
                } else {
                    None
                }
            },
            _ => None,
        };
        match slot {
            None => None,
            Some(slot) => {
                let ghost old_nodes = self.nodes@;
                self.nodes.push(node);
                let ghost mid = self.nodes@;
                assert(mid == old_nodes.push(node));
                match &mut self.nodes[id as usize].kind {
                    Kind::Decision { children, expanded, .. } => {
                        children.set(slot, len as u32);
                        *expanded = slot + 1;
                    },
                    _ => {},
                }
                proof {
                    let nn = self.nodes@;
                    assert forall|k: int| 0 <= k < nn.len() && k != id implies nn[k] == mid[k] by {}
                    assert forall|i: int| 0 <= i < nn.len() implies node_wf(nn, i) by {
                        if i == len {
                            assert(nn[i] == node);
                        } else if i == id {
                            assert(node_wf(old_nodes, i));
                        } else {
                            assert(node_wf(old_nodes, i));
                            assert(nn[i] == old_nodes[i]);
                        }
                    }
                }
                Some(len as u32)
            },
        }
    }

}

/// How the search uses the strategy layer's move priors, without the
/// progressive-bias weight (a floating-point factor the driver keeps).
#[derive(Debug, Clone, Copy, PartialEq, Eq, Structural)]
pub enum PriorMode {
    /// Priors are never consulted.
    Off,
    /// A decision node's actions are ranked by prior once, before its first
    /// expansion, so the favoured moves are expanded first.
    ExpansionOrder,
    /// The ranking, plus a decaying prior term in selection, for which the
    /// node's prior slate is kept.
    ProgressiveBias,
}

impl PriorMode {
    /// Whether a node's prior slate is kept once its actions are ranked.
    pub fn keeps_priors(&self) -> (b: bool)
        ensures
            b == (*self is ProgressiveBias),
    {
        match self {
            PriorMode::ProgressiveBias => true,
            _ => false,
        }
    }
}

/// `order` lists every position of an `n`-long list exactly once.
pub open spec fn is_permutation(order: Seq<usize>, n: int) -> bool {
    &&& order.len() == n
    &&& forall|j: int| 0 <= j < n ==> #[trigger] order[j] < n
    &&& forall|j: int, k: int| 0 <= j < k < n ==> #[trigger] order[j] != #[trigger] order[k]
}

/// `s` rearranged by `order`: position `j` holds `s[order[j]]`.
pub open spec fn permuted<A>(s: Seq<A>, order: Seq<usize>) -> Seq<A> {
    Seq::new(order.len(), |j: int| s[order[j] as int])
}

/// Whether decision node `id` is due its one ranking by prior: priors are
/// in use, nothing has been expanded from it yet (so reordering its actions
/// invalidates no child), and it has more than one action to order.
pub open spec fn due_ranking(nodes: Seq<Node>, id: int, prior: PriorMode) -> bool {
    &&& prior != PriorMode::Off
    &&& match nodes[id].kind {
        Kind::Decision { actions, expanded, .. } => expanded == 0 && actions@.len() > 1,
        _ => false,
    }
}

/// A node is ranked at most once: as soon as a child has been expanded from
/// it (and expansion only ever raises the count) it is never due a ranking
/// again, whatever the prior mode. Together with [`Tree::expand`], which
/// ranks a node exactly when it is due, the strategy layer is consulted once
/// per node with a choice to order, at that node's first expansion.
pub proof fn lemma_ranked_at_most_once(nodes: Seq<Node>, id: int, prior: PriorMode)
    requires
        nodes[id].kind matches Kind::Decision { expanded, .. } && expanded > 0,
    ensures
        !due_ranking(nodes, id, prior),
{
}

/// Rearranging a list by a permutation keeps exactly its items: ranking a
/// node's actions adds, drops and duplicates none of them.
pub proof fn lemma_permuted_keeps_items<A>(s: Seq<A>, order: Seq<usize>)
    requires
        is_permutation(order, s.len() as int),
    ensures
        permuted(s, order).to_multiset() == s.to_multiset(),
    decreases s.len(),
{
    broadcast use vstd::multiset::group_multiset_axioms;
    broadcast use vstd::seq_lib::group_to_multiset_ensures;

    let n = s.len() as int;
    let t = permuted(s, order);
    if n == 0 {
        assert(t =~= s);
    } else {
        let k = order[n - 1] as int;
        let s2 = s.remove(k);
        let order2 = Seq::new(
            (n - 1) as nat,
            |j: int| if order[j] as int > k { (order[j] - 1) as usize } else { order[j] },
        );
        assert forall|j: int| 0 <= j < n - 1 implies #[trigger] order2[j] < n - 1 by {
            assert(order[j] != order[n - 1]);
        }
        assert forall|j: int, l: int| 0 <= j < l < n - 1 implies #[trigger] order2[j]
            != #[trigger] order2[l] by {
            assert(order[j] != order[l]);
            assert(order[j] != order[n - 1]);
            assert(order[l] != order[n - 1]);
        }
        assert(is_permutation(order2, n - 1));
        lemma_permuted_keeps_items(s2, order2);
        assert(permuted(s2, order2) =~= t.drop_last()) by {
            assert forall|j: int| 0 <= j < n - 1 implies permuted(s2, order2)[j] == t.drop_last()[j] by {
                assert(order[j] != order[n - 1]);
            }
        }
        assert(t =~= t.drop_last().push(s[k]));
        assert(s.to_multiset().count(s[k]) > 0);
        assert(s.to_multiset().remove(s[k]).insert(s[k]) =~= s.to_multiset());
    }
}

impl Tree {
    /// [`due_ranking`], computed.
    pub fn wants_ranking(&self, id: u32, prior: PriorMode) -> (b: bool)
        requires
            self.wf(),
            (id as int) < self.nodes@.len(),
        ensures
            b == due_ranking(self.nodes@, id as int, prior),
    {
        if prior == PriorMode::Off {
            return false;
        }
        match &self.nodes[id as usize].kind {
            Kind::Decision { actions, expanded, .. } => *expanded == 0 && actions.len() > 1,
            _ => false,
        }
    }

    /// Rank decision node `id`'s actions into `order` (positions in the
    /// current list, highest prior first), counting one more ranking, and
    /// report whether it was done. It is refused, with nothing changed,
    /// unless the node is due its ranking under `prior` and `order` names
    /// each position once.
    #[verifier::loop_isolation(false)]
    pub fn rank_actions(&mut self, id: u32, prior: PriorMode, order: &Vec<usize>) -> (applied: bool)
        requires
            old(self).wf(),
            (id as int) < old(self).nodes@.len(),
            old(self).rankings < u64::MAX,
        ensures
            final(self).wf(),
            final(self).simulations == old(self).simulations,
            final(self).me == old(self).me,
            final(self).objective == old(self).objective,
            applied == (due_ranking(old(self).nodes@, id as int, prior) && is_permutation(
                order@,
                action_count(old(self).nodes@, id as int),
            )),
            !applied ==> *final(self) == *old(self),
            applied ==> {
                &&& final(self).rankings == old(self).rankings + 1
                &&& final(self).nodes@.len() == old(self).nodes@.len()
                &&& final(self).nodes@[id as int].visits == old(self).nodes@[id as int].visits
                &&& forall|k: int|
                    0 <= k < old(self).nodes@.len() && k != id ==> final(self).nodes@[k] == old(
                        self,
                    ).nodes@[k]
                &&& match (old(self).nodes@[id as int].kind, final(self).nodes@[id as int].kind) {
                    (
                        Kind::Decision { mover: m0, actions: a0, children: c0, expanded: e0 },
                        Kind::Decision { mover: m1, actions: a1, children: c1, expanded: e1 },
                    ) => {
                        &&& m1 == m0
                        &&& c1@ == c0@
                        &&& e1 == e0
                        &&& a1@ == permuted(a0@, order@)
                        &&& a1@.to_multiset() == a0@.to_multiset()
                    },
                    _ => false,
                }
            },
    {
        proof {
            assert(node_wf(self.nodes@, id as int));
        }
        if !self.wants_ranking(id, prior) {
            return false;
        }
        let ranked = match &self.nodes[id as usize].kind {
            Kind::Decision { actions, .. } => {
                let n = actions.len();
                if order.len() != n {
                    return false;
                }
                let mut seen: Vec<bool> = Vec::new();
                while seen.len() < n
                    invariant
                        seen@.len() <= n,
                        forall|k: int| 0 <= k < seen@.len() ==> !seen@[k],
                    decreases n - seen@.len(),
                {
                    seen.push(false);
                }
                let mut j: usize = 0;
                while j < n
                    invariant
                        order@.len() == n,
                        seen@.len() == n,
                        j <= n,
                        forall|i: int| 0 <= i < j ==> #[trigger] order@[i] < n,
                        forall|i: int, l: int| 0 <= i < l < j ==> #[trigger] order@[i] != #[trigger] order@[l],
                        forall|k: int| 0 <= k < n ==> (seen@[k] <==> exists|i: int| 0 <= i < j && order@[i] == k),
                    decreases n - j,
                {
                    let p = order[j];
                    if p >= n || seen[p] {
                        proof {
                            if p < n {
                                let i = choose|i: int| 0 <= i < j && order@[i] == p;
                                assert(order@[i] == order@[j as int]);
                            }
                        }
                        return false;
                    }
                    seen.set(p, true);
                    j = j + 1;
                }
                let mut out: Vec<Action> = Vec::new();
                let mut j: usize = 0;
                while j < n
                    invariant
                        order@.len() == n,
                        actions@.len() == n,
                        is_permutation(order@, n as int),
                        j <= n,
                        out@.len() == j,
                        forall|i: int| 0 <= i < j ==> out@[i] == actions@[order@[i] as int],
                    decreases n - j,
                {
                    out.push(actions[order[j]]);
                    j = j + 1;
                }
                proof {
                    assert(out@ =~= permuted(actions@, order@));
                    lemma_permuted_keeps_items(actions@, order@);
                }
                out
            },
            _ => {
                return false;
            },
        };
        let ghost old_nodes = self.nodes@;
        match &mut self.nodes[id as usize].kind {
            Kind::Decision { actions, .. } => {
                *actions = ranked;
            },
            _ => {},
        }
        self.rankings = self.rankings + 1;
        proof {
            let nn = self.nodes@;
            assert forall|k: int| 0 <= k < nn.len() && k != id implies nn[k] == old_nodes[k] by {}
            assert forall|i: int| 0 <= i < nn.len() implies node_wf(nn, i) by {
                assert(node_wf(old_nodes, i));
                if i != id {
                    assert(nn[i] == old_nodes[i]);
                }
            }
        }
        true
    }

    /// Create the next unexpanded child of decision node `id`, attaching
    /// `node` for its next action, and return the new node's id; `None`, with
    /// nothing changed, when `id` has nothing left to expand. A node due its
    /// ranking under `prior` is first ranked into `order` — so the strategy
    /// layer is consulted exactly once per node, at its first expansion.
    pub fn expand(&mut self, id: u32, prior: PriorMode, order: &Vec<usize>, node: Node) -> (r: Option<u32>)
        requires
            old(self).wf(),
            (id as int) < old(self).nodes@.len(),
            fresh(node),
            old(self).nodes@.len() + 1 < NO_NODE,
            old(self).rankings < u64::MAX,
            due_ranking(old(self).nodes@, id as int, prior) ==> is_permutation(
                order@,
                action_count(old(self).nodes@, id as int),
            ),
        ensures
            final(self).wf(),
            final(self).simulations == old(self).simulations,
            final(self).me == old(self).me,
            final(self).objective == old(self).objective,
            final(self).rankings == old(self).rankings + if due_ranking(old(self).nodes@, id as int, prior) {
                1int
            } else {
                0int
            },
            !can_expand(old(self).nodes@, id as int) ==> r is None && final(self).nodes@ == old(
                self,
            ).nodes@,
            can_expand(old(self).nodes@, id as int) ==> {
                let len = old(self).nodes@.len();
                &&& r == Some(len as u32)
                &&& final(self).nodes@.len() == len + 1
                &&& final(self).nodes@[len as int] == node
                &&& final(self).nodes@[id as int].visits == old(self).nodes@[id as int].visits
                &&& forall|k: int| 0 <= k < len && k != id ==> final(self).nodes@[k] == old(
                    self,
                ).nodes@[k]
                &&& match (old(self).nodes@[id as int].kind, final(self).nodes@[id as int].kind) {
                    (
                        Kind::Decision { mover: m0, actions: a0, children: c0, expanded: e0 },
                        Kind::Decision { mover: m1, actions: a1, children: c1, expanded: e1 },
                    ) => {
                        &&& m1 == m0
                        &&& a1@ == if due_ranking(old(self).nodes@, id as int, prior) {
                            permuted(a0@, order@)
                        } else {
                            a0@
                        }
                        &&& e1 == e0 + 1
                        &&& c1@ == c0@.update(e0 as int, len as u32)
                    },
                    _ => false,
                }
            },
    {
        proof {
            assert(node_wf(self.nodes@, id as int));
        }
        let due = self.wants_ranking(id, prior);
        if due {
            let applied = self.rank_actions(id, prior, order);
            assert(applied);
        }
        self.expand_with(id, node)
    }
}

/// How many actions decision node `id` offers; zero for any other node.
pub open spec fn action_count(nodes: Seq<Node>, id: int) -> int {
    match nodes[id].kind {
        Kind::Decision { actions, .. } => actions@.len() as int,
        _ => 0,
    }
}

/// How many times node `i` occurs in `path`.
pub open spec fn occurrences(path: Seq<u32>, i: int) -> nat
    decreases path.len(),
{
    if path.len() == 0 {
        0
    } else {
        occurrences(path.drop_last(), i) + if path.last() == i {
            1nat
        } else {
            0nat
        }
    }
}

/// A prefix of a path holds a node no more often than the whole path.
proof fn lemma_occurrences_prefix(path: Seq<u32>, k: int, i: int)
    requires
        0 <= k <= path.len(),
    ensures
        occurrences(path.take(k), i) <= occurrences(path, i),
    decreases path.len(),
{
    if k == path.len() {
        assert(path.take(k) =~= path);
    } else {
        assert(path.drop_last().take(k) =~= path.take(k));
        lemma_occurrences_prefix(path.drop_last(), k, i);
    }
}

/// A simulation's path holds the root exactly once.
proof fn lemma_path_holds_root_once(path: Seq<u32>)
    requires
        path.len() >= 1,
        path[0] == 0,
        forall|a: int, b: int| 0 <= a < b < path.len() ==> path[a] < path[b],
    ensures
        occurrences(path, 0) == 1,
    decreases path.len(),
{
    let rest = path.drop_last();
    if path.len() == 1 {
        assert(occurrences(rest, 0) == 0);
    } else {
        assert(path.last() == path[path.len() - 1]);
        assert(path[0] < path[path.len() - 1]);
        assert(rest[0] == 0);
        assert forall|a: int, b: int| 0 <= a < b < rest.len() implies rest[a] < rest[b] by {
            assert(rest[a] == path[a] && rest[b] == path[b]);
        }
        lemma_path_holds_root_once(rest);
    }
}

impl Tree {
    /// Add one visit to every node on `path`, decision and chance alike, as
    /// many times as it occurs there. The values backed up alongside are the
    /// driver's; each occurrence receives the same one, never flipped.
    pub fn backpropagate(&mut self, path: &Vec<u32>)
        requires
            old(self).wf(),
            forall|k: int| 0 <= k < path@.len() ==> (#[trigger] path@[k] as int) < old(self).nodes@.len(),
            forall|i: int|
                0 <= i < old(self).nodes@.len() ==> old(self).nodes@[i].visits + occurrences(path@, i)
                    <= u32::MAX,
        ensures
            final(self).wf(),
            final(self).me == old(self).me,
            final(self).objective == old(self).objective,
            final(self).simulations == old(self).simulations,
            final(self).rankings == old(self).rankings,
            final(self).nodes@.len() == old(self).nodes@.len(),
            forall|i: int|
                0 <= i < old(self).nodes@.len() ==> (#[trigger] final(self).nodes@[i]).kind == old(
                    self,
                ).nodes@[i].kind && final(self).nodes@[i].visits == old(self).nodes@[i].visits
                    + occurrences(path@, i),
    {
        let ghost old_nodes = self.nodes@;
        let mut k: usize = 0;
        while k < path.len()
            invariant
                old(self).wf(),
                old_nodes == old(self).nodes@,
                forall|a: int| 0 <= a < path@.len() ==> (#[trigger] path@[a] as int) < old_nodes.len(),
                forall|i: int|
                    0 <= i < old_nodes.len() ==> old_nodes[i].visits + occurrences(path@, i) <= u32::MAX,
                k <= path@.len(),
                self.nodes@.len() == old_nodes.len(),
                self.simulations == old(self).simulations,
                self.rankings == old(self).rankings,
                self.me == old(self).me,
                self.objective == old(self).objective,
                forall|i: int|
                    0 <= i < old_nodes.len() ==> (#[trigger] self.nodes@[i]).kind == old_nodes[i].kind
                        && self.nodes@[i].visits == old_nodes[i].visits + occurrences(path@.take(k as int), i),
            decreases path@.len() - k,
        {
            let i = path[k] as usize;
            proof {
                assert(path@[k as int] < old_nodes.len());
                assert(path@.take(k + 1).drop_last() =~= path@.take(k as int));
                assert(path@.take(k + 1).last() == path@[k as int]);
                lemma_occurrences_prefix(path@, k + 1, i as int);
            }
            let v = self.nodes[i].visits;
            self.nodes[i].visits = v + 1;
            proof {
                assert forall|j: int| 0 <= j < old_nodes.len() implies (#[trigger] self.nodes@[j]).kind
                    == old_nodes[j].kind && self.nodes@[j].visits == old_nodes[j].visits + occurrences(
                    path@.take(k + 1),
                    j,
                ) by {
                    assert(path@.take(k + 1).drop_last() =~= path@.take(k as int));
                }
            }
            k = k + 1;
        }
        proof {
            assert(path@.take(k as int) =~= path@);
            assert forall|i: int| 0 <= i < self.nodes@.len() implies node_wf(self.nodes@, i) by {
                assert(node_wf(old_nodes, i));
                assert(self.nodes@[i].kind == old_nodes[i].kind);
            }
        }
    }

    /// Close one simulation: back its path up from the root and count it, so
    /// the root keeps exactly one visit per completed simulation.
    pub fn complete_simulation(&mut self, path: &Vec<u32>)
        requires
            old(self).wf(),
            is_path(old(self).nodes@, path@),
            forall|i: int|
                0 <= i < old(self).nodes@.len() ==> old(self).nodes@[i].visits + occurrences(path@, i)
                    <= u32::MAX,
            old(self).simulations < u64::MAX,
        ensures
            final(self).wf(),
            old(self).counts_agree() ==> final(self).counts_agree(),
            final(self).me == old(self).me,
            final(self).objective == old(self).objective,
            final(self).simulations == old(self).simulations + 1,
            final(self).rankings == old(self).rankings,
            final(self).nodes@.len() == old(self).nodes@.len(),
            forall|i: int|
                0 <= i < old(self).nodes@.len() ==> (#[trigger] final(self).nodes@[i]).kind == old(
                    self,
                ).nodes@[i].kind && final(self).nodes@[i].visits == old(self).nodes@[i].visits + (
                if on_path(path@, i) {
                    1int
                } else {
                    0int
                }),
    {
        proof {
            lemma_path_increasing(self.nodes@, path@);
            lemma_path_holds_root_once(path@);
            assert forall|i: int| 0 <= i < old(self).nodes@.len() implies occurrences(path@, i) == (
            if on_path(path@, i) {
                1nat
            } else {
                0nat
            }) by {
                lemma_occurrences_increasing(path@, i);
            }
        }
        self.backpropagate(path);
        self.simulations = self.simulations + 1;
    }
}

/// In a strictly increasing path a node occurs at most once: once when it
/// lies on it, and not at all otherwise.
proof fn lemma_occurrences_increasing(path: Seq<u32>, i: int)
    requires
        forall|a: int, b: int| 0 <= a < b < path.len() ==> path[a] < path[b],
    ensures
        occurrences(path, i) == if on_path(path, i) {
            1nat
        } else {
            0nat
        },
    decreases path.len(),
{
    if path.len() > 0 {
        let rest = path.drop_last();
        lemma_occurrences_increasing(rest, i);
        if path.last() == i {
            assert(!on_path(rest, i)) by {
                if on_path(rest, i) {
                    let k = choose|k: int| 0 <= k < rest.len() && rest[k] == i;
                    assert(path[k] < path[path.len() - 1]);
                }
            }
            assert(path[path.len() - 1] == i);
        } else {
            if on_path(path, i) {
                let k = choose|k: int| 0 <= k < path.len() && path[k] == i;
                assert(rest[k] == i);
            }
            if on_path(rest, i) {
                let k = choose|k: int| 0 <= k < rest.len() && rest[k] == i;
                assert(path[k] == i);
            }
        }
    }
}


/// The first position of `a` in `s`, if it occurs.
pub open spec fn position_of(s: Seq<Action>, a: Action) -> Option<int>
    decreases s.len(),
{
    if s.len() == 0 {
        None
    } else if s[0] == a {
        Some(0)
    } else {
        match position_of(s.drop_first(), a) {
            Some(i) => Some(i + 1),
            None => None,
        }
    }
}

/// `i` is the first position of `a` in `s`.
pub proof fn lemma_position_of_first(s: Seq<Action>, a: Action, i: int)
    requires
        0 <= i < s.len(),
        s[i] == a,
        forall|j: int| 0 <= j < i ==> s[j] != a,
    ensures
        position_of(s, a) == Some(i),
    decreases s.len(),
{
    if i > 0 {
        assert(s[0] != a);
        lemma_position_of_first(s.drop_first(), a, i - 1);
    }
}

/// `a` does not occur in `s`.
pub proof fn lemma_position_of_absent(s: Seq<Action>, a: Action)
    requires
        forall|j: int| 0 <= j < s.len() ==> s[j] != a,
    ensures
        position_of(s, a) is None,
    decreases s.len(),
{
    if s.len() > 0 {
        lemma_position_of_absent(s.drop_first(), a);
    }
}

/// The root's child for action `a` in arena `nodes`, if that action has been
/// expanded.
pub open spec fn root_child_in(nodes: Seq<Node>, a: Action) -> Option<int> {
    match nodes[0].kind {
        Kind::Decision { actions, children, .. } => match position_of(actions@, a) {
            Some(i) => if children@[i] == NO_NODE {
                None
            } else {
                Some(children@[i] as int)
            },
            None => None,
        },
        _ => None,
    }
}

impl Tree {
    /// The root's child for `action`, if that action has been expanded.
    #[verifier::loop_isolation(false)]
    pub fn root_child(&self, action: Action) -> (r: Option<u32>)
        requires
            self.wf(),
        ensures
            match r {
                Some(c) => root_child_in(self.nodes@, action) == Some(c as int) && 0 < c
                    < self.nodes@.len(),
                None => root_child_in(self.nodes@, action) is None,
            },
    {
        proof {
            assert(node_wf(self.nodes@, 0));
        }
        match &self.nodes[0].kind {
            Kind::Decision { actions, children, .. } => {
                let mut i: usize = 0;
                while i < actions.len()
                    invariant
                        i <= actions@.len(),
                        forall|j: int| 0 <= j < i ==> actions@[j] != action,
                    decreases actions@.len() - i,
                {
                    if actions[i] == action {
                        proof {
                            lemma_position_of_first(actions@, action, i as int);
                        }
                        let c = children[i];
                        proof {
                            assert(node_wf(self.nodes@, 0));
                        }
                        if c == NO_NODE {
                            return None;
                        } else {
                            return Some(c);
                        }
                    }
                    i = i + 1;
                }
                proof {
                    lemma_position_of_absent(actions@, action);
                }
                None
            },
            _ => None,
        }
    }

    /// The child chance node `id` already holds for `outcome`, if any.
    #[verifier::loop_isolation(false)]
    pub fn chance_child(&self, id: u32, outcome: u64) -> (r: Option<u32>)
        requires
            self.wf(),
            (id as int) < self.nodes@.len(),
        ensures
            match self.nodes@[id as int].kind {
                Kind::Chance { children, .. } => match r {
                    Some(c) => exists|j: int|
                        0 <= j < children@.len() && children@[j].outcome == outcome
                            && children@[j].node == c,
                    None => forall|j: int|
                        0 <= j < children@.len() ==> children@[j].outcome != outcome,
                },
                _ => r is None,
            },
    {
        match &self.nodes[id as usize].kind {
            Kind::Chance { children, .. } => {
                let mut j: usize = 0;
                while j < children.len()
                    invariant
                        j <= children@.len(),
                        forall|m: int| 0 <= m < j ==> children@[m].outcome != outcome,
                    decreases children@.len() - j,
                {
                    if children[j].outcome == outcome {
                        assert(children@[j as int].outcome == outcome);
                        return Some(children[j].node);
                    }
                    j = j + 1;
                }
                None
            },
            _ => None,
        }
    }

    /// Record a freshly drawn `outcome` of chance node `id`, leading to the
    /// new `node`, and return the new node's id.
    pub fn add_chance_child(&mut self, id: u32, outcome: u64, node: Node) -> (r: u32)
        requires
            old(self).wf(),
            (id as int) < old(self).nodes@.len(),
            fresh(node),
            old(self).nodes@.len() + 1 < NO_NODE,
            match old(self).nodes@[id as int].kind {
                Kind::Chance { children, .. } => forall|j: int|
                    0 <= j < children@.len() ==> children@[j].outcome != outcome,
                _ => false,
            },
        ensures
            final(self).wf(),
            final(self).simulations == old(self).simulations,
            final(self).rankings == old(self).rankings,
            final(self).me == old(self).me,
            final(self).objective == old(self).objective,
            r == old(self).nodes@.len(),
            final(self).nodes@.len() == old(self).nodes@.len() + 1,
            final(self).nodes@[r as int] == node,
            final(self).nodes@[id as int].visits == old(self).nodes@[id as int].visits,
            forall|k: int|
                0 <= k < old(self).nodes@.len() && k != id ==> final(self).nodes@[k] == old(
                    self,
                ).nodes@[k],
            match (old(self).nodes@[id as int].kind, final(self).nodes@[id as int].kind) {
                (
                    Kind::Chance { action: a0, children: c0 },
                    Kind::Chance { action: a1, children: c1 },
                ) => a1 == a0 && c1@ == c0@.push(ChanceChild { outcome, node: r }),
                _ => false,
            },
    {
        let len = self.nodes.len();
        let ghost old_nodes = self.nodes@;
        proof {
            assert(node_wf(old_nodes, id as int));
        }
        self.nodes.push(node);
        let ghost mid = self.nodes@;
        assert(mid == old_nodes.push(node));
        match &mut self.nodes[id as usize].kind {
            Kind::Chance { children, .. } => {
                children.push(ChanceChild { outcome, node: len as u32 });
            },
            _ => {},
        }
        proof {
            let nn = self.nodes@;
            assert forall|k: int| 0 <= k < nn.len() && k != id implies nn[k] == mid[k] by {}
            assert forall|i: int| 0 <= i < nn.len() implies node_wf(nn, i) by {
                if i == len {
                    assert(nn[i] == node);
                } else if i == id {
                    assert(node_wf(old_nodes, i));
                } else {
                    assert(node_wf(old_nodes, i));
                    assert(nn[i] == old_nodes[i]);
                }
            }
        }
        len as u32
    }
}

/// The visits of the root's child for `a` in arena `nodes`, zero when that
/// action was never expanded.
pub open spec fn child_visits(nodes: Seq<Node>, a: Action) -> int {
    match root_child_in(nodes, a) {
        Some(c) => nodes[c].visits as int,
        None => 0,
    }
}

/// The root visits that action `a` received, summed across `trees`.
pub open spec fn pooled_visits(trees: Seq<Tree>, a: Action) -> int
    decreases trees.len(),
{
    if trees.len() == 0 {
        0
    } else {
        pooled_visits(trees.drop_last(), a) + child_visits(trees.last().nodes@, a)
    }
}

/// Whether any of `trees` expanded action `a` at its root.
pub open spec fn pooled_expanded(trees: Seq<Tree>, a: Action) -> bool {
    exists|t: int| 0 <= t < trees.len() && (#[trigger] root_child_in(trees[t].nodes@, a)) is Some
}

/// The root's actions, in the tree's own shuffled order.
pub open spec fn root_actions(t: Tree) -> Seq<Action> {
    match t.nodes@[0].kind {
        Kind::Decision { actions, .. } => actions@,
        _ => Seq::empty(),
    }
}

/// The seat to move at the root.
pub open spec fn root_mover(t: Tree) -> Player {
    match t.nodes@[0].kind {
        Kind::Decision { mover, .. } => mover,
        _ => t.me,
    }
}

/// The total of the trees' root visits: one per simulation each.
pub open spec fn total_root_visits(trees: Seq<Tree>) -> int
    decreases trees.len(),
{
    if trees.len() == 0 {
        0
    } else {
        total_root_visits(trees.drop_last()) + trees.last().nodes@[0].visits as int
    }
}

/// One root action of an ensemble, with its visits pooled across the trees.
#[derive(Debug, Clone, Copy, PartialEq, Eq, Structural)]
pub struct PooledAction {
    pub action: Action,
    /// Whether any tree expanded it.
    pub expanded: bool,
    /// Root visits it received, summed across the trees.
    pub visits: u64,
}

/// A tree's child visits for one action are a `u32`.
proof fn lemma_child_visits_bounded(nodes: Seq<Node>, a: Action)
    ensures
        0 <= child_visits(nodes, a) <= 0xFFFF_FFFFu32,
{
}

/// Pool action `a` over `trees`: whether any tree expanded it, and the
/// summed visits of its root children.
fn pool_action(trees: &Vec<Tree>, a: Action) -> (r: (bool, u64))
    requires
        forall|t: int| 0 <= t < trees@.len() ==> (#[trigger] trees@[t]).wf(),
        trees@.len() <= 0xFFFF_FFFFu32,
    ensures
        r.0 == pooled_expanded(trees@, a),
        r.1 == pooled_visits(trees@, a),
{
    let mut expanded = false;
    let mut visits: u64 = 0;
    let mut k: usize = 0;
    while k < trees.len()
        invariant
            forall|t: int| 0 <= t < trees@.len() ==> (#[trigger] trees@[t]).wf(),
            trees@.len() <= 0xFFFF_FFFFu32,
            k <= trees@.len(),
            expanded == exists|t: int| 0 <= t < k && (#[trigger] root_child_in(trees@[t].nodes@, a)) is Some,
            visits == pooled_visits(trees@.take(k as int), a),
            visits <= k * 0xFFFF_FFFFu64,
        decreases trees@.len() - k,
    {
        let c = trees[k].root_child(a);
        proof {
            assert(trees@.take(k + 1).drop_last() =~= trees@.take(k as int));
            assert(trees@.take(k + 1).last() == trees@[k as int]);
            lemma_child_visits_bounded(trees@[k as int].nodes@, a);
        }
        match c {
            Some(child) => {
                expanded = true;
                visits = visits + trees[k].nodes[child as usize].visits as u64;
            },
            None => {},
        }
        k = k + 1;
    }
    proof {
        assert(trees@.take(k as int) =~= trees@);
    }
    (expanded, visits)
}

/// Every root action of the first tree, pooled across the ensemble, and the
/// seat to move; `None` when there are no trees.
///
/// Summing visits is the ensemble form of the rule one tree already uses:
/// the search spends visits where it thinks the value is, so pooled counts
/// ask which move the searches collectively spent their time on.
pub fn pooled_root(trees: &Vec<Tree>) -> (r: Option<(Player, Vec<PooledAction>)>)
    requires
        forall|t: int| 0 <= t < trees@.len() ==> (#[trigger] trees@[t]).wf(),
        trees@.len() <= 0xFFFF_FFFFu32,
    ensures
        r is None <==> trees@.len() == 0,
        r matches Some((m, v)) ==> {
            &&& m == root_mover(trees@[0])
            &&& v@.len() == root_actions(trees@[0]).len()
            &&& forall|i: int|
                0 <= i < v@.len() ==> {
                    &&& (#[trigger] v@[i]).action == root_actions(trees@[0])[i]
                    &&& v@[i].expanded == pooled_expanded(trees@, v@[i].action)
                    &&& v@[i].visits == pooled_visits(trees@, v@[i].action)
                }
        },
{
    if trees.len() == 0 {
        return None;
    }
    let first = &trees[0];
    proof {
        assert(trees@[0].wf());
    }
    match &first.nodes[0].kind {
        Kind::Decision { mover, actions, .. } => {
            let mut out: Vec<PooledAction> = Vec::new();
            let mut i: usize = 0;
            while i < actions.len()
                invariant
                    forall|t: int| 0 <= t < trees@.len() ==> (#[trigger] trees@[t]).wf(),
                    trees@.len() <= 0xFFFF_FFFFu32,
                    trees@.len() > 0,
                    actions@ == root_actions(trees@[0]),
                    i <= actions@.len(),
                    out@.len() == i,
                    forall|j: int|
                        0 <= j < i ==> {
                            &&& (#[trigger] out@[j]).action == actions@[j]
                            &&& out@[j].expanded == pooled_expanded(trees@, out@[j].action)
                            &&& out@[j].visits == pooled_visits(trees@, out@[j].action)
                        },
                decreases actions@.len() - i,
            {
                let a = actions[i];
                let (expanded, visits) = pool_action(trees, a);
                out.push(PooledAction { action: a, expanded, visits });
                i = i + 1;
            }
            Some((*mover, out))
        },
        _ => None,
    }
}

/// The positions of the expanded actions with the most pooled visits, in
/// order: the candidates among which the value tie-break chooses. Empty when
/// no action was expanded at all.
pub fn most_visited(pooled: &Vec<PooledAction>) -> (r: Vec<usize>)
    ensures
        forall|k: int| 0 <= k < r@.len() ==> (#[trigger] r@[k]) < pooled@.len() && pooled@[r@[k] as int].expanded,
        forall|k: int, l: int| 0 <= k < l < r@.len() ==> r@[k] < r@[l],
        forall|k: int, i: int|
            0 <= k < r@.len() && 0 <= i < pooled@.len() && pooled@[i].expanded
                ==> #[trigger] pooled@[i].visits <= pooled@[#[trigger] r@[k] as int].visits,
        forall|i: int|
            0 <= i < pooled@.len() && pooled@[i].expanded && (forall|j: int|
                0 <= j < pooled@.len() && pooled@[j].expanded ==> pooled@[j].visits
                    <= pooled@[i].visits) ==> exists|k: int| 0 <= k < r@.len() && r@[k] == i,
        (exists|i: int| 0 <= i < pooled@.len() && pooled@[i].expanded) ==> r@.len() > 0,
{
    let mut best: u64 = 0;
    let mut any = false;
    let mut i: usize = 0;
    while i < pooled.len()
        invariant
            i <= pooled@.len(),
            any == exists|j: int| 0 <= j < i && pooled@[j].expanded,
            forall|j: int| 0 <= j < i && pooled@[j].expanded ==> pooled@[j].visits <= best,
            any ==> exists|j: int| 0 <= j < i && pooled@[j].expanded && pooled@[j].visits == best,
        decreases pooled@.len() - i,
    {
        let p = pooled[i];
        if p.expanded && (!any || p.visits > best) {
            best = p.visits;
            any = true;
        }
        i = i + 1;
    }
    let mut out: Vec<usize> = Vec::new();
    let mut i: usize = 0;
    while i < pooled.len()
        invariant
            i <= pooled@.len(),
            forall|j: int| 0 <= j < pooled@.len() && pooled@[j].expanded ==> pooled@[j].visits <= best,
            any ==> exists|j: int| 0 <= j < pooled@.len() && pooled@[j].expanded && pooled@[j].visits == best,
            any == exists|j: int| 0 <= j < pooled@.len() && pooled@[j].expanded,
            forall|k: int| 0 <= k < out@.len() ==> (#[trigger] out@[k]) < i && pooled@[out@[k] as int].expanded
                && pooled@[out@[k] as int].visits == best,
            forall|k: int, l: int| 0 <= k < l < out@.len() ==> out@[k] < out@[l],
            forall|j: int|
                0 <= j < i && pooled@[j].expanded && pooled@[j].visits == best ==> exists|k: int|
                    0 <= k < out@.len() && out@[k] == j,
        decreases pooled@.len() - i,
    {
        let p = pooled[i];
        let ghost prev = out@;
        if p.expanded && p.visits == best {
            out.push(i);
        }
        proof {
            assert forall|j: int|
                0 <= j < i + 1 && pooled@[j].expanded && pooled@[j].visits == best implies exists|k: int|
                    0 <= k < out@.len() && out@[k] == j by {
                if j == i {
                    assert(out@[out@.len() - 1] == j);
                } else {
                    let k = choose|k: int| 0 <= k < prev.len() && prev[k] == j;
                    assert(out@[k] == j);
                }
            }
        }
        i = i + 1;
    }
    proof {
        if any {
            let j = choose|j: int| 0 <= j < pooled@.len() && pooled@[j].expanded && pooled@[j].visits == best;
            assert(exists|k: int| 0 <= k < out@.len() && out@[k] == j);
        }
        assert forall|i: int|
            0 <= i < pooled@.len() && pooled@[i].expanded && (forall|j: int|
                0 <= j < pooled@.len() && pooled@[j].expanded ==> pooled@[j].visits
                    <= pooled@[i].visits) implies exists|k: int| 0 <= k < out@.len() && out@[k] == i by {
            let j = choose|j: int| 0 <= j < pooled@.len() && pooled@[j].expanded && pooled@[j].visits == best;
            assert(pooled@[j].visits <= pooled@[i].visits);
        }
    }
    out
}

/// With a single tree, pooling is that tree's own root statistic: an
/// action's pooled visits are its child's visits and it counts as expanded
/// exactly when that tree expanded it.
pub proof fn lemma_single_tree_pooling(trees: Seq<Tree>, a: Action)
    requires
        trees.len() == 1,
    ensures
        pooled_visits(trees, a) == child_visits(trees[0].nodes@, a),
        pooled_expanded(trees, a) == (root_child_in(trees[0].nodes@, a) is Some),
{
    assert(trees.drop_last().len() == 0);
    assert(pooled_visits(trees.drop_last(), a) == 0);
    assert(trees.last() == trees[0]);
    if root_child_in(trees[0].nodes@, a) is Some {
        assert(0 <= 0 < trees.len());
    }
}

/// Adding a tree to an ensemble adds that tree's child visits to every
/// action's pooled count.
pub proof fn lemma_pooling_sums_across_trees(trees: Seq<Tree>, t: Tree, a: Action)
    ensures
        pooled_visits(trees.push(t), a) == pooled_visits(trees, a) + child_visits(t.nodes@, a),
{
    assert(trees.push(t).drop_last() =~= trees);
}

/// The total simulations run by an ensemble.
pub open spec fn total_simulations(trees: Seq<Tree>) -> int
    decreases trees.len(),
{
    if trees.len() == 0 {
        0
    } else {
        total_simulations(trees.drop_last()) + trees.last().simulations as int
    }
}

/// The ensemble's root visits are one per simulation it ran.
pub proof fn lemma_root_visits_are_simulations(trees: Seq<Tree>)
    requires
        forall|t: int| 0 <= t < trees.len() ==> (#[trigger] trees[t]).counts_agree(),
    ensures
        total_root_visits(trees) == total_simulations(trees),
    decreases trees.len(),
{
    if trees.len() > 0 {
        let rest = trees.drop_last();
        assert forall|t: int| 0 <= t < rest.len() implies (#[trigger] rest[t]).counts_agree() by {
            assert(rest[t] == trees[t]);
        }
        lemma_root_visits_are_simulations(rest);
        assert(trees[trees.len() - 1].counts_agree());
    }
}

/// What the search concluded about its root, in counts: the seat to move,
/// the root visits summed across the ensemble, and every root action with the
/// visits it received (an action no tree expanded is present with `0`). The
/// order is the first tree's own shuffled order.
pub struct RootStats {
    pub mover: Player,
    pub visits: u64,
    pub policy: Vec<(Action, u32)>,
}

/// Pool the root statistics of an ensemble of trees rooted at the same
/// position; `None` when there are no trees.
pub fn root_stats(trees: &Vec<Tree>) -> (r: Option<RootStats>)
    requires
        forall|t: int| 0 <= t < trees@.len() ==> (#[trigger] trees@[t]).wf(),
        trees@.len() <= 0xFFFF_FFFFu32,
        trees@.len() > 0 ==> forall|i: int|
            0 <= i < root_actions(trees@[0]).len() ==> pooled_visits(
                trees@,
                #[trigger] root_actions(trees@[0])[i],
            ) <= 0xFFFF_FFFFu32,
    ensures
        r is None <==> trees@.len() == 0,
        r matches Some(s) ==> {
            &&& s.mover == root_mover(trees@[0])
            &&& s.visits == total_root_visits(trees@)
            &&& s.policy@.len() == root_actions(trees@[0]).len()
            &&& forall|i: int|
                0 <= i < s.policy@.len() ==> (#[trigger] s.policy@[i]).0 == root_actions(trees@[0])[i]
                    && s.policy@[i].1 == pooled_visits(trees@, s.policy@[i].0)
        },
{
    let pooled = pooled_root(trees);
    match pooled {
        None => None,
        Some((mover, actions)) => {
            let mut visits: u64 = 0;
            let mut k: usize = 0;
            while k < trees.len()
                invariant
                    forall|t: int| 0 <= t < trees@.len() ==> (#[trigger] trees@[t]).wf(),
                    trees@.len() <= 0xFFFF_FFFFu32,
                    k <= trees@.len(),
                    visits == total_root_visits(trees@.take(k as int)),
                    visits <= k * 0xFFFF_FFFFu64,
                decreases trees@.len() - k,
            {
                proof {
                    assert(trees@.take(k + 1).drop_last() =~= trees@.take(k as int));
                    assert(trees@.take(k + 1).last() == trees@[k as int]);
                    assert(trees@[k as int].wf());
                }
                visits = visits + trees[k].nodes[0].visits as u64;
                k = k + 1;
            }
            proof {
                assert(trees@.take(k as int) =~= trees@);
            }
            let mut policy: Vec<(Action, u32)> = Vec::new();
            let mut i: usize = 0;
            while i < actions.len()
                invariant
                    trees@.len() > 0,
                    actions@.len() == root_actions(trees@[0]).len(),
                    forall|j: int|
                        0 <= j < actions@.len() ==> {
                            &&& (#[trigger] actions@[j]).action == root_actions(trees@[0])[j]
                            &&& actions@[j].visits == pooled_visits(trees@, actions@[j].action)
                        },
                    forall|j: int|
                        0 <= j < root_actions(trees@[0]).len() ==> pooled_visits(
                            trees@,
                            #[trigger] root_actions(trees@[0])[j],
                        ) <= 0xFFFF_FFFFu32,
                    i <= actions@.len(),
                    policy@.len() == i,
                    forall|j: int|
                        0 <= j < i ==> (#[trigger] policy@[j]).0 == root_actions(trees@[0])[j]
                            && policy@[j].1 == pooled_visits(trees@, policy@[j].0),
                decreases actions@.len() - i,
            {
                let p = actions[i];
                proof {
                    assert(p.visits <= 0xFFFF_FFFFu32) by {
                        assert(root_actions(trees@[0])[i as int] == p.action);
                    }
                }
                policy.push((p.action, p.visits as u32));
                i = i + 1;
            }
            Some(RootStats { mover, visits, policy })
        },
    }
}

} // verus!
