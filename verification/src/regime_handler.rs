//! Risk scaling by market regime.
use crate::context::{
    with_risk_profile, MarketRegime, MarketRegimeType, RiskAppetite, RiskProfiles, SymbolContext,
};
use vstd::prelude::*;

verus! {

/// How much a regime lowers the risk score: 3 when volatile, 2 when trending
/// down, nothing otherwise.
pub open spec fn risk_modifier(regime_type: MarketRegimeType) -> int {
    match regime_type {
        MarketRegimeType::Volatile => -3,
        MarketRegimeType::TrendingDown => -2,
        _ => 0,
    }
}

/// A score read as a signed byte (`score as i8`).
pub open spec fn signed_score(score: u8) -> int {
    if score < 128 {
        score as int
    } else {
        score - 256
    }
}

/// The lowered score, kept within 1..=9.
pub open spec fn scaled_score(score: u8, regime_type: MarketRegimeType) -> u8 {
    let s = signed_score(score) + risk_modifier(regime_type);
    if s < 1 {
        1
    } else if s > 9 {
        9
    } else {
        s as u8
    }
}

/// Whether the regime changes the risk profile of `context`.
pub open spec fn regime_rescales(context: SymbolContext, regime: MarketRegime) -> bool {
    context.config.risk_appetite_score is Some && risk_modifier(regime.regime_type) != 0
}

/// The context after risk scaling: when the regime rescales it, the profile of
/// the lowered score is applied; otherwise it is unchanged.
pub open spec fn scaled_context(context: SymbolContext, regime: MarketRegime, profiles: RiskProfiles) -> SymbolContext {
    if regime_rescales(context, regime) {
        let score = scaled_score(context.config.risk_appetite_score->0, regime.regime_type);
        SymbolContext {
            config: with_risk_profile(context.config, score, profiles.settings_for(score)),
            ..context
        }
    } else {
        context
    }
}

/// Lower the risk profile in volatile or falling markets: the risk score drops by
/// 3 (volatile) or 2 (trending down), within 1..=9, and the profile of the new
/// score (from `profiles`) is applied. Without a risk score, or in other regimes,
/// nothing changes.
pub fn apply_dynamic_risk_scaling(
    context: &mut SymbolContext,
    regime: &MarketRegime,
    symbol: &str,
    profiles: &RiskProfiles,
)
    requires
        regime_rescales(*old(context), *regime) ==> signed_score(
            old(context).config.risk_appetite_score->0,
        ) + risk_modifier(regime.regime_type) >= -128,
    ensures
        *final(context) == scaled_context(*old(context), *regime, *profiles),
{
    if let Some(base) = context.config.risk_appetite_score {
        let modifier: i8 = match regime.regime_type {
            MarketRegimeType::Volatile => -3,
            MarketRegimeType::TrendingDown => -2,
            _ => 0,
        };
        if modifier != 0 {
            let signed: i8 = if base < 128 {
                base as i8
            } else {
                ((base - 128) as i8) + i8::MIN
            };
            let sum: i8 = signed + modifier;
            let new_score: u8 = if sum < 1 {
                1
            } else if sum > 9 {
                9
            } else {
                sum as u8
            };
            match RiskAppetite::new(new_score, profiles) {
                Ok(appetite) => {
                    context.config.apply_risk_appetite(&appetite);
                },
                Err(_) => {},
            }
        }
    }
}

/// Risk scaling keeps the score a valid risk appetite: the scaled score is in
/// 1..=9 and never above the score it started from when that was valid.
pub proof fn lemma_scaled_score_valid(score: u8, regime_type: MarketRegimeType)
    requires
        risk_modifier(regime_type) != 0,
    ensures
        1 <= scaled_score(score, regime_type) <= 9,
        1 <= score <= 9 ==> scaled_score(score, regime_type) <= score,
{
}

/// Law: only volatile and falling markets change the context. In any other
/// regime (trending up, ranging or unknown) the context after risk scaling is the
/// context before, whatever its risk score and profiles.
pub proof fn lemma_other_regimes_change_nothing(
    context: SymbolContext,
    regime: MarketRegime,
    profiles: RiskProfiles,
)
    requires
        regime.regime_type != MarketRegimeType::Volatile,
        regime.regime_type != MarketRegimeType::TrendingDown,
    ensures
        scaled_context(context, regime, profiles) == context,
{
}

/// Law: a volatile market lowers a valid risk score by three and a falling market
/// by two, never below one; the profile of the lowered score is applied and the
/// rest of the context is kept.
pub proof fn lemma_falling_and_volatile_lower_the_score(
    context: SymbolContext,
    regime: MarketRegime,
    profiles: RiskProfiles,
)
    requires
        context.config.risk_appetite_score matches Some(s) && 1 <= s <= 9,
        regime.regime_type == MarketRegimeType::Volatile || regime.regime_type
            == MarketRegimeType::TrendingDown,
    ensures
        ({
            let s = context.config.risk_appetite_score->0;
            let lowered: u8 = if regime.regime_type == MarketRegimeType::Volatile {
                if s > 4 {
                    (s - 3) as u8
                } else {
                    1
                }
            } else if s > 3 {
                (s - 2) as u8
            } else {
                1
            };
            let after = scaled_context(context, regime, profiles);
            &&& after.config.risk_appetite_score == Some(lowered)
            &&& after.config == with_risk_profile(context.config, lowered, profiles.settings_for(lowered))
            &&& after == (SymbolContext { config: after.config, ..context })
        }),
{
}

} // verus!
