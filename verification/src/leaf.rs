//! What the search backs up from a leaf it has just added, as far as the
//! choice of fixtures is concerned: which variants need the hand-crafted
//! evaluation's root tables and which the learned value network. The blend
//! weights of the mixing variants are floating-point and stay with the
//! caller.

use vstd::prelude::*;

verus! {

/// The leaf-value variant, without its blend weight.
#[derive(Debug, Clone, Copy, PartialEq, Eq, Structural)]
pub enum LeafValue {
    /// Play the position out to a real result.
    Rollout,
    /// Score the leaf with the hand-crafted evaluation.
    Static,
    /// Play `plies` steps of the playout, then score statically.
    Truncated { plies: u32 },
    /// A weighted mix of the static score and a full playout.
    Blend,
    /// Score the leaf with the learned value network.
    Learned,
    /// A weighted mix of the learned value and a full playout.
    LearnedBlend,
    /// The learned value read from both seats' perspectives and averaged.
    LearnedSymmetric,
}

impl LeafValue {
    /// Whether this variant reads the hand-crafted evaluation, and so needs
    /// its root tables built for the tree.
    pub open spec fn spec_needs_eval_root(self) -> bool {
        self is Static || self is Truncated || self is Blend
    }

    /// Whether this variant reads the learned value network, and so needs it
    /// parsed for the tree.
    pub open spec fn spec_needs_learned_net(self) -> bool {
        self is Learned || self is LearnedBlend || self is LearnedSymmetric
    }

    /// [`LeafValue::spec_needs_eval_root`], computed.
    pub fn needs_eval_root(&self) -> (b: bool)
        ensures
            b == self.spec_needs_eval_root(),
    {
        match self {
            LeafValue::Static | LeafValue::Truncated { .. } | LeafValue::Blend => true,
            _ => false,
        }
    }

    /// [`LeafValue::spec_needs_learned_net`], computed.
    pub fn needs_learned_net(&self) -> (b: bool)
        ensures
            b == self.spec_needs_learned_net(),
    {
        match self {
            LeafValue::Learned | LeafValue::LearnedBlend | LeafValue::LearnedSymmetric => true,
            _ => false,
        }
    }

    /// How many playout plies a truncated leaf actually plays: its own
    /// window, capped by the playout's safety limit.
    pub fn truncation_plies(&self, max_rollout_plies: u32) -> (r: Option<u32>)
        ensures
            match *self {
                LeafValue::Truncated { plies } => r == Some(
                    if plies < max_rollout_plies {
                        plies
                    } else {
                        max_rollout_plies
                    },
                ),
                _ => r is None,
            },
    {
        match *self {
            LeafValue::Truncated { plies } => Some(
                if plies < max_rollout_plies {
                    plies
                } else {
                    max_rollout_plies
                },
            ),
            _ => None,
        }
    }
}

/// No leaf needs both fixtures, and the plain playout needs neither.
pub proof fn lemma_leaf_fixtures_disjoint(k: LeafValue)
    ensures
        !(k.spec_needs_eval_root() && k.spec_needs_learned_net()),
        k is Rollout ==> !k.spec_needs_eval_root() && !k.spec_needs_learned_net(),
{
}

} // verus!
