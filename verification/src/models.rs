//! The model switches of the one-ply evaluation, and which of its terms each
//! combination of switches brings in.

use vstd::prelude::*;

verus! {

/// How the evaluation prices the conflict pawn's position.
#[derive(Debug, Clone, Copy, PartialEq, Eq, Structural)]
pub enum MilitaryModel {
    /// A flat reward per step of pawn position.
    Legacy,
    /// The real end-of-game scoring table and the loot tokens, as step
    /// functions smoothed by how many shields are still in play.
    Band,
}

impl Default for MilitaryModel {
    fn default() -> (r: MilitaryModel)
        ensures
            r == MilitaryModel::Band,
    {
        MilitaryModel::Band
    }
}

/// How the evaluation prices a coin pile.
#[derive(Debug, Clone, Copy, PartialEq, Eq, Structural)]
pub enum CoinModel {
    /// Three separate terms: `floor(coins / 3)`, a capped race-liquidity
    /// bonus, and a penalty for falling below a safety floor.
    Legacy,
    /// One smooth function: a linear points channel plus a saturating
    /// liquidity channel.
    Smooth,
}

impl Default for CoinModel {
    fn default() -> (r: CoinModel)
        ensures
            r == CoinModel::Smooth,
    {
        CoinModel::Smooth
    }
}

/// How the evaluation prices a player's exposure to the resource market.
#[derive(Debug, Clone, Copy, PartialEq, Eq, Structural)]
pub enum EconomyModel {
    /// The average per-unit trade price the player faces.
    Legacy,
    /// The coins they still expect to pay, over the pool that is actually
    /// coming.
    Bill,
}

impl Default for EconomyModel {
    fn default() -> (r: EconomyModel)
        ensures
            r == EconomyModel::Bill,
    {
        EconomyModel::Bill
    }
}

/// Which terms one player's value is made of under a choice of models.
#[derive(Debug, Clone, Copy, PartialEq, Eq, Structural)]
pub struct TermPlan {
    /// `floor(coins / 3)` from the score breakdown, the capped race
    /// liquidity bonus and the safety-floor shortfall penalty.
    pub legacy_coins: bool,
    /// The smooth coin function: points channel plus liquidity channel.
    pub smooth_coins: bool,
    /// Whether the development term credits a trading post separately (under
    /// the bill, the post's value already arrives through the lower price).
    pub credit_trading_posts: bool,
    /// The average trade price penalty.
    pub market_average_price: bool,
    /// The resource bill penalty.
    pub market_bill: bool,
    /// A flat reward per step of pawn position.
    pub military_flat: bool,
    /// The smoothed scoring bands and loot.
    pub military_band: bool,
    /// The flat free-chain-gift penalty, which the opponent-menu term
    /// subsumes whenever that term is switched on.
    pub chain_gift: bool,
}

/// Which terms enter one player's value under the given models, with the
/// opponent-menu term switched on or off.
pub fn term_plan(military: MilitaryModel, coins: CoinModel, economy: EconomyModel, menu_on: bool) -> (p: TermPlan)
    ensures
        p.legacy_coins == (coins == CoinModel::Legacy),
        p.smooth_coins == (coins == CoinModel::Smooth),
        p.credit_trading_posts == (economy == EconomyModel::Legacy),
        p.market_average_price == (economy == EconomyModel::Legacy),
        p.market_bill == (economy == EconomyModel::Bill),
        p.military_flat == (military == MilitaryModel::Legacy),
        p.military_band == (military == MilitaryModel::Band),
        p.chain_gift == !menu_on,
{
    TermPlan {
        legacy_coins: coins == CoinModel::Legacy,
        smooth_coins: coins == CoinModel::Smooth,
        credit_trading_posts: economy == EconomyModel::Legacy,
        market_average_price: economy == EconomyModel::Legacy,
        market_bill: economy == EconomyModel::Bill,
        military_flat: military == MilitaryModel::Legacy,
        military_band: military == MilitaryModel::Band,
        chain_gift: !menu_on,
    }
}

/// Each model switch selects exactly one of its alternatives: no coin,
/// market or military term is ever counted twice or dropped.
pub proof fn lemma_term_plan_exclusive(p: TermPlan, military: MilitaryModel, coins: CoinModel, economy: EconomyModel, menu_on: bool)
    requires
        p.legacy_coins == (coins == CoinModel::Legacy),
        p.smooth_coins == (coins == CoinModel::Smooth),
        p.market_average_price == (economy == EconomyModel::Legacy),
        p.market_bill == (economy == EconomyModel::Bill),
        p.military_flat == (military == MilitaryModel::Legacy),
        p.military_band == (military == MilitaryModel::Band),
    ensures
        p.legacy_coins != p.smooth_coins,
        p.market_average_price != p.market_bill,
        p.military_flat != p.military_band,
{
}

} // verus!
