//! Per-symbol trading state: configuration, indicators, trailing stop and pending
//! orders.
use crate::decimal::{decimal_difference, decimal_product, iabs, max_units, one_units, units_of, Dec};
use crate::trading::OrderSide;
use vstd::prelude::*;

verus! {

/// Why a risk appetite score was refused.
#[derive(Clone, Copy, Debug, PartialEq, Eq, Structural)]
pub enum RiskAppetiteError {
    /// The score is outside 1..=9.
    OutOfRange(u8),
}

/// The strategy settings that a risk profile fixes.
#[derive(Clone, Copy, Debug)]
pub struct RiskSettings {
    pub risk_per_trade_percent: Dec,
    pub trailing_stop_atr_multiplier: Dec,
    pub rsi_threshold: Dec,
    pub max_position_size_pct: Dec,
    pub min_profit_ratio: Dec,
    pub profit_target_multiplier: Dec,
    pub take_profit_pct: Dec,
}

/// The settings of each risk score from 1 to 9.
pub struct RiskProfiles {
    by_score: Vec<RiskSettings>,
}

impl RiskProfiles {
    #[verifier::type_invariant]
    spec fn nine_scores(self) -> bool {
        self.by_score@.len() == 9
    }

    /// The settings of `score` (for a score in 1..=9).
    pub closed spec fn settings_for(self, score: u8) -> RiskSettings {
        self.by_score@[score - 1]
    }

    /// Profiles from the settings of scores 1 to 9, in order; none unless there
    /// are exactly nine.
    pub fn new(by_score: Vec<RiskSettings>) -> (r: Option<RiskProfiles>)
        ensures
            r is Some <==> by_score@.len() == 9,
            r matches Some(p) ==> forall|score: u8|
                1 <= score <= 9 ==> #[trigger] p.settings_for(score) == by_score@[score - 1],
    {
        if by_score.len() == 9 {
            Some(RiskProfiles { by_score })
        } else {
            None
        }
    }

    /// The settings of `score`, which must lie in 1..=9.
    pub fn get(&self, score: u8) -> (r: RiskSettings)
        requires
            1 <= score <= 9,
        ensures
            r == self.settings_for(score),
    {
        proof {
            use_type_invariant(self);
        }
        self.by_score[(score - 1) as usize]
    }
}

/// A risk profile score from 1 (safe) to 9 (aggressive) with its settings.
#[derive(Clone, Copy, Debug)]
pub struct RiskAppetite {
    score: u8,
    settings: RiskSettings,
}

impl RiskAppetite {
    pub closed spec fn spec_score(self) -> u8 {
        self.score
    }

    pub closed spec fn spec_settings(self) -> RiskSettings {
        self.settings
    }

    /// The risk appetite of `score`, which must lie in 1..=9, with that score's
    /// settings.
    pub fn new(score: u8, profiles: &RiskProfiles) -> (r: Result<RiskAppetite, RiskAppetiteError>)
        ensures
            (1 <= score <= 9) ==> (r matches Ok(a) && a.spec_score() == score && a.spec_settings()
                == profiles.settings_for(score)),
            !(1 <= score <= 9) ==> r == Err::<RiskAppetite, RiskAppetiteError>(
                RiskAppetiteError::OutOfRange(score),
            ),
    {
        if 1 <= score && score <= 9 {
            Ok(RiskAppetite { score, settings: profiles.get(score) })
        } else {
            Err(RiskAppetiteError::OutOfRange(score))
        }
    }

    pub fn score(&self) -> (r: u8)
        ensures
            r == self.spec_score(),
    {
        self.score
    }

    pub fn settings(&self) -> (r: RiskSettings)
        ensures
            r == self.spec_settings(),
    {
        self.settings
    }
}

#[derive(Clone, Copy, Debug, PartialEq, Eq, Structural)]
pub enum MarketRegimeType {
    TrendingUp,
    TrendingDown,
    Ranging,
    Volatile,
    Unknown,
}

/// A detected market regime.
#[derive(Clone, Copy, Debug)]
pub struct MarketRegime {
    pub regime_type: MarketRegimeType,
    pub confidence: Dec,
    pub volatility: Dec,
    pub trend_strength: Dec,
}

impl MarketRegime {
    pub fn new(
        regime_type: MarketRegimeType,
        confidence: Dec,
        volatility: Dec,
        trend_strength: Dec,
    ) -> (r: Self)
        ensures
            r == (MarketRegime { regime_type, confidence, volatility, trend_strength }),
    {
        MarketRegime { regime_type, confidence, volatility, trend_strength }
    }

    /// The regime used when detection fails.
    pub fn unknown() -> (r: Self)
        ensures
            r.regime_type == MarketRegimeType::Unknown,
    {
        MarketRegime {
            regime_type: MarketRegimeType::Unknown,
            confidence: Dec::zero(),
            volatility: Dec::zero(),
            trend_strength: Dec::zero(),
        }
    }
}

/// The ensemble voting threshold for a risk score (in hundredths).
pub open spec fn ensemble_threshold_hundredths(score: u8) -> int {
    if 1 <= score <= 2 {
        60
    } else if 3 <= score <= 4 {
        55
    } else if 5 <= score <= 6 {
        50
    } else if 7 <= score <= 8 {
        40
    } else if score == 9 {
        30
    } else {
        50
    }
}

/// The strategy parameters that the trading decisions read.
#[derive(Clone, Copy, Debug)]
pub struct AnalystConfig {
    /// Buy signals are blocked above this RSI.
    pub rsi_threshold: Dec,
    /// Trailing stop distance in ATRs.
    pub trailing_stop_atr_multiplier: Dec,
    /// Gain ratio that triggers a partial take-profit.
    pub take_profit_pct: Dec,
    /// Ensemble consensus threshold.
    pub ensemble_voting_threshold: Dec,
    /// Risk appetite score, when a risk profile is in use.
    pub risk_appetite_score: Option<u8>,
    /// Share of equity allocated to one trade (0 selects the static quantity).
    pub risk_per_trade_percent: Dec,
    /// Number of positions the equity is split across (0: no bucket cap).
    pub max_positions: u64,
    /// Largest share of equity in one position (0: no cap).
    pub max_position_size_pct: Dec,
    /// Quantity traded when no risk-based size applies.
    pub trade_quantity: Dec,
    /// Minimum time between two acted-on signals, in seconds.
    pub order_cooldown_seconds: u64,
    /// Expected profit must be at least this many times the costs.
    pub min_profit_ratio: Dec,
    /// Expected move per trade, in ATRs.
    pub profit_target_multiplier: Dec,
}

/// The configuration after applying the risk profile of `score` with settings
/// `settings`: every setting of the profile is taken, the ensemble consensus
/// threshold follows the score, and the score is recorded.
pub open spec fn with_risk_profile(config: AnalystConfig, score: u8, settings: RiskSettings) -> AnalystConfig {
    AnalystConfig {
        rsi_threshold: settings.rsi_threshold,
        trailing_stop_atr_multiplier: settings.trailing_stop_atr_multiplier,
        take_profit_pct: settings.take_profit_pct,
        ensemble_voting_threshold: Dec::from_view((ensemble_threshold_hundredths(score), 2nat)),
        risk_appetite_score: Some(score),
        risk_per_trade_percent: settings.risk_per_trade_percent,
        max_position_size_pct: settings.max_position_size_pct,
        min_profit_ratio: settings.min_profit_ratio,
        profit_target_multiplier: settings.profit_target_multiplier,
        ..config
    }
}

impl AnalystConfig {
    /// Apply a risk profile: the profile's settings replace the risk per trade,
    /// trailing-stop multiplier, RSI threshold, position-size cap, minimum profit
    /// ratio, profit-target multiplier and take-profit; the ensemble consensus
    /// threshold follows the score (0.60 for 1-2, 0.55 for 3-4, 0.50 for 5-6, 0.40
    /// for 7-8, 0.30 for 9) and the score is recorded.
    pub fn apply_risk_appetite(&mut self, appetite: &RiskAppetite)
        ensures
            *final(self) == with_risk_profile(
                *old(self),
                appetite.spec_score(),
                appetite.spec_settings(),
            ),
    {
        let score = appetite.score();
        let settings = appetite.settings();
        let hundredths: i64 = if 1 <= score && score <= 2 {
            60
        } else if 3 <= score && score <= 4 {
            55
        } else if 5 <= score && score <= 6 {
            50
        } else if 7 <= score && score <= 8 {
            40
        } else if score == 9 {
            30
        } else {
            50
        };
        let threshold = Dec::new(hundredths, 2);
        proof {
            Dec::lemma_from_view((ensemble_threshold_hundredths(score), 2nat));
            Dec::lemma_view_determines(
                threshold,
                Dec::from_view((ensemble_threshold_hundredths(score), 2nat)),
            );
        }
        self.risk_per_trade_percent = settings.risk_per_trade_percent;
        self.trailing_stop_atr_multiplier = settings.trailing_stop_atr_multiplier;
        self.rsi_threshold = settings.rsi_threshold;
        self.max_position_size_pct = settings.max_position_size_pct;
        self.min_profit_ratio = settings.min_profit_ratio;
        self.profit_target_multiplier = settings.profit_target_multiplier;
        self.take_profit_pct = settings.take_profit_pct;
        self.ensemble_voting_threshold = threshold;
        self.risk_appetite_score = Some(score);
    }
}

/// The latest indicator values.
#[derive(Clone, Copy, Debug)]
pub struct FeatureSet {
    pub rsi: Option<Dec>,
    pub atr: Option<Dec>,
    /// 50-period simple moving average of the close.
    pub sma_50: Option<Dec>,
}

/// Trailing stop state machine.
#[derive(Clone, Copy, Debug)]
pub enum StopState {
    NoPosition,
    ActiveStop { entry_price: Dec, stop_price: Dec },
}

/// The initial stop below an entry: `entry - atr * multiplier`.
pub open spec fn initial_stop(entry: (int, nat), atr: (int, nat), multiplier: (int, nat)) -> (
    int,
    nat,
) {
    decimal_difference(entry, decimal_product(atr, multiplier))
}

/// Values (in units) for which `entry - atr * multiplier` stays within the
/// decimal range.
pub open spec fn stop_units_in_range(entry: int, atr: int, multiplier: int) -> bool {
    iabs(entry) * one_units() + iabs(atr * multiplier) + one_units() * one_units() <= max_units()
        * one_units()
}

/// Inputs for which `entry - atr * multiplier` stays within the decimal range.
pub open spec fn stop_in_range(entry: Dec, atr: Dec, multiplier: Dec) -> bool {
    stop_units_in_range(entry.units(), atr.units(), multiplier.units())
}

proof fn lemma_stop_in_range_product(entry: Dec, atr: Dec, multiplier: Dec)
    requires
        stop_in_range(entry, atr, multiplier),
    ensures
        -max_units() * one_units() <= atr.units() * multiplier.units() <= max_units()
            * one_units(),
{
    assert(iabs(entry.units()) * one_units() >= 0) by (nonlinear_arith)
        requires
            one_units() > 0,
    ;
}

proof fn lemma_stop_in_range_difference(entry: Dec, atr: Dec, multiplier: Dec, d: Dec)
    requires
        stop_in_range(entry, atr, multiplier),
        atr.units() * multiplier.units() - one_units() * one_units() <= d.units() * one_units()
            <= atr.units() * multiplier.units() + one_units() * one_units(),
    ensures
        -max_units() <= entry.units() - d.units() <= max_units(),
{
    let o = one_units();
    let p = atr.units() * multiplier.units();
    let e = entry.units();
    let m = max_units();
    assert(iabs(d.units()) * o <= iabs(p) + o * o);
    assert((iabs(e) + iabs(d.units())) * o <= m * o) by (nonlinear_arith)
        requires
            iabs(d.units()) * o <= iabs(p) + o * o,
            iabs(e) * o + iabs(p) + o * o <= m * o,
    ;
    assert(iabs(e) + iabs(d.units()) <= m) by (nonlinear_arith)
        requires
            (iabs(e) + iabs(d.units())) * o <= m * o,
            o > 0,
    ;
}

/// A stop that was hit: the price that hit it, the stop and the entry price.
#[derive(Clone, Copy, Debug)]
pub struct StopTrigger {
    pub exit: Dec,
    pub stop: Dec,
    pub entry: Dec,
}

/// What a price does to a trailing stop.
pub enum StopMove {
    /// Nothing changes.
    Kept,
    /// The price is at or below the active stop.
    Triggered,
    /// The stop rises to this price.
    Raised((int, nat)),
}

/// The effect of `price` on a stop trailing at `atr * multiplier`: an active
/// stop at or above the price is triggered; otherwise it rises to
/// `price - atr * multiplier` when that is higher. Without a stop nothing
/// happens.
pub open spec fn stop_move(state: StopState, price: Dec, atr: (int, nat), multiplier: (int, nat)) -> StopMove {
    match state {
        StopState::NoPosition => StopMove::Kept,
        StopState::ActiveStop { stop_price, .. } => if price.units() <= stop_price.units() {
            StopMove::Triggered
        } else {
            let candidate = decimal_difference(price@, decimal_product(atr, multiplier));
            if units_of(candidate) > stop_price.units() {
                StopMove::Raised(candidate)
            } else {
                StopMove::Kept
            }
        },
    }
}

impl StopState {
    pub open spec fn spec_is_active(self) -> bool {
        self is ActiveStop
    }

    /// Start a trailing stop on a buy at `entry_price`, `atr * multiplier` below it.
    pub fn on_buy(entry_price: Dec, atr: Dec, multiplier: Dec) -> (r: StopState)
        requires
            stop_in_range(entry_price, atr, multiplier),
        ensures
            r matches StopState::ActiveStop { entry_price: e, stop_price: s } && e == entry_price
                && s@ == initial_stop(entry_price@, atr@, multiplier@),
    {
        proof {
            lemma_stop_in_range_product(entry_price, atr, multiplier);
        }
        let distance = atr.mul(&multiplier);
        proof {
            lemma_stop_in_range_difference(entry_price, atr, multiplier, distance);
        }
        let stop_price = entry_price.sub(&distance);
        StopState::ActiveStop { entry_price, stop_price }
    }

    pub fn is_active(&self) -> (r: bool)
        ensures
            r == self.spec_is_active(),
    {
        match self {
            StopState::ActiveStop { .. } => true,
            StopState::NoPosition => false,
        }
    }

    /// The current stop price, while a stop is active.
    pub fn get_stop_price(&self) -> (r: Option<Dec>)
        ensures
            r == (match self {
                StopState::ActiveStop { stop_price, .. } => Some(*stop_price),
                StopState::NoPosition => None,
            }),
    {
        match self {
            StopState::ActiveStop { stop_price, .. } => Some(*stop_price),
            StopState::NoPosition => None,
        }
    }

    /// Follow the price with an active stop: a price at or below the stop
    /// triggers it (reported with the price, the stop and the entry, the state
    /// kept); otherwise the stop rises to `price - atr * multiplier` when that is
    /// higher, and never falls.
    pub fn on_price_update(&mut self, price: Dec, atr: Dec, multiplier: Dec) -> (r: Option<
        StopTrigger,
    >)
        requires
            (*old(self)) matches StopState::ActiveStop { stop_price, .. } && price.units()
                > stop_price.units() ==> stop_in_range(price, atr, multiplier),
        ensures
            match stop_move(*old(self), price, atr@, multiplier@) {
                StopMove::Kept => r is None && *final(self) == *old(self),
                StopMove::Triggered => *final(self) == *old(self) && r == Some(
                    (StopTrigger {
                        exit: price,
                        stop: (*old(self))->stop_price,
                        entry: (*old(self))->entry_price,
                    }),
                ),
                StopMove::Raised(c) => r is None && (*final(self)) is ActiveStop
                    && (*final(self))->entry_price == (*old(self))->entry_price
                    && (*final(self))->stop_price@ == c,
            },
    {
        match *self {
            StopState::NoPosition => None,
            StopState::ActiveStop { entry_price, stop_price } => {
                if price.le(&stop_price) {
                    return Some(StopTrigger { exit: price, stop: stop_price, entry: entry_price });
                }
                proof {
                    lemma_stop_in_range_product(price, atr, multiplier);
                }
                let distance = atr.mul(&multiplier);
                proof {
                    lemma_stop_in_range_difference(price, atr, multiplier, distance);
                }
                let candidate = price.sub(&distance);
                if candidate.gt(&stop_price) {
                    *self = StopState::ActiveStop { entry_price, stop_price: candidate };
                }
                None
            },
        }
    }

    /// Clear the stop after the position was sold.
    pub fn on_sell(&mut self)
        ensures
            *final(self) is NoPosition,
    {
        *self = StopState::NoPosition;
    }
}

/// Order bookkeeping for one symbol.
#[derive(Clone, Copy, Debug)]
pub struct PositionManager {
    pub trailing_stop: StopState,
    /// Side of the order sent and not yet confirmed.
    pub pending_order: Option<OrderSide>,
    /// When the pending order was sent (milliseconds).
    pub pending_since: i64,
    /// When the last signal was acted on (milliseconds).
    pub last_signal_time: i64,
}

impl PositionManager {
    pub fn new() -> (r: Self)
        ensures
            r.trailing_stop is NoPosition,
            r.pending_order is None,
            r.pending_since == 0,
            r.last_signal_time == 0,
    {
        PositionManager {
            trailing_stop: StopState::NoPosition,
            pending_order: None,
            pending_since: 0,
            last_signal_time: 0,
        }
    }

    /// Acknowledge pending orders from the portfolio: a pending buy is confirmed once
    /// a position exists; a pending sell is confirmed once it is gone, which also
    /// ends the trailing stop. Anything else is left as it is.
    pub fn ack_pending_orders(&mut self, has_position: bool, symbol: &str)
        ensures
            *final(self) == acknowledged(*old(self), has_position),
            (old(self).pending_order == Some(OrderSide::Buy) && has_position) ==> (
            final(self).pending_order is None && final(self).trailing_stop
                == old(self).trailing_stop),
            (old(self).pending_order == Some(OrderSide::Sell) && !has_position) ==> (
            final(self).pending_order is None && final(self).trailing_stop is NoPosition),
            !((old(self).pending_order == Some(OrderSide::Buy) && has_position) || (
            old(self).pending_order == Some(OrderSide::Sell) && !has_position)) ==> *final(self)
                == *old(self),
            final(self).last_signal_time == old(self).last_signal_time,
            final(self).pending_since == old(self).pending_since,
    {
        match self.pending_order {
            Some(OrderSide::Buy) => {
                if has_position {
                    self.pending_order = None;
                }
            },
            Some(OrderSide::Sell) => {
                if !has_position {
                    self.pending_order = None;
                    self.trailing_stop.on_sell();
                }
            },
            None => {},
        }
    }

    /// Record an order sent for `side` at `timestamp`.
    pub fn set_pending_order(&mut self, side: OrderSide, timestamp: i64)
        ensures
            final(self).pending_order == Some(side),
            final(self).pending_since == timestamp,
            final(self).trailing_stop == old(self).trailing_stop,
            final(self).last_signal_time == old(self).last_signal_time,
    {
        self.pending_order = Some(side);
        self.pending_since = timestamp;
    }

    /// Forget the pending order.
    pub fn clear_pending(&mut self)
        ensures
            final(self).pending_order is None,
            final(self).trailing_stop == old(self).trailing_stop,
            final(self).last_signal_time == old(self).last_signal_time,
            final(self).pending_since == old(self).pending_since,
    {
        self.pending_order = None;
    }
}

/// The position manager after acknowledging pending orders: a pending buy is
/// cleared once a position exists; a pending sell is cleared once it is gone,
/// together with the trailing stop; anything else stays.
pub open spec fn acknowledged(manager: PositionManager, has_position: bool) -> PositionManager {
    if manager.pending_order == Some(OrderSide::Buy) && has_position {
        PositionManager { pending_order: None, ..manager }
    } else if manager.pending_order == Some(OrderSide::Sell) && !has_position {
        PositionManager { pending_order: None, trailing_stop: StopState::NoPosition, ..manager }
    } else {
        manager
    }
}

/// A trading signal from a strategy.
#[derive(Clone, Debug)]
pub struct Signal {
    pub side: OrderSide,
    pub reason: String,
    pub suggested_stop_loss: Option<Dec>,
    pub suggested_take_profit: Option<Dec>,
}

impl Signal {
    pub fn buy(reason: String) -> (r: Signal)
        ensures
            r.side == OrderSide::Buy,
            r.reason@ == reason@,
            r.suggested_stop_loss is None,
            r.suggested_take_profit is None,
    {
        Signal { side: OrderSide::Buy, reason, suggested_stop_loss: None, suggested_take_profit: None }
    }

    pub fn sell(reason: String) -> (r: Signal)
        ensures
            r.side == OrderSide::Sell,
            r.reason@ == reason@,
            r.suggested_stop_loss is None,
            r.suggested_take_profit is None,
    {
        Signal {
            side: OrderSide::Sell,
            reason,
            suggested_stop_loss: None,
            suggested_take_profit: None,
        }
    }
}

/// The state the analyst keeps for one symbol.
#[derive(Clone, Copy, Debug)]
pub struct SymbolContext {
    pub config: AnalystConfig,
    pub last_features: FeatureSet,
    pub position_manager: PositionManager,
    /// Whether the partial take-profit was taken for the current position.
    pub taken_profit: bool,
    /// When the current position was entered (milliseconds).
    pub last_entry_time: Option<i64>,
}

impl SymbolContext {
    pub fn new(config: AnalystConfig) -> (r: Self)
        ensures
            r.config == config,
            r.last_features.rsi is None,
            r.last_features.atr is None,
            r.position_manager.trailing_stop is NoPosition,
            r.position_manager.pending_order is None,
            !r.taken_profit,
            r.last_entry_time is None,
    {
        SymbolContext {
            config,
            last_features: FeatureSet { rsi: None, atr: None, sma_50: None },
            position_manager: PositionManager::new(),
            taken_profit: false,
            last_entry_time: None,
        }
    }
}

/// A configuration update: every symbol context takes the new configuration and
/// keeps the rest of its state.
pub fn propagate_config(contexts: &mut Vec<SymbolContext>, config: AnalystConfig)
    ensures
        final(contexts)@.len() == old(contexts)@.len(),
        forall|i: int|
            0 <= i < old(contexts)@.len() ==> #[trigger] final(contexts)@[i] == (SymbolContext {
                config,
                ..old(contexts)@[i]
            }),
{
    let n = contexts.len();
    let mut i: usize = 0;
    while i < n
        invariant
            n == old(contexts)@.len(),
            contexts@.len() == n,
            0 <= i <= n,
            forall|k: int|
                0 <= k < i ==> #[trigger] contexts@[k] == (SymbolContext {
                    config,
                    ..old(contexts)@[k]
                }),
            forall|k: int| i <= k < n ==> #[trigger] contexts@[k] == old(contexts)@[k],
        decreases n - i,
    {
        let mut c = contexts[i];
        c.config = config;
        contexts.set(i, c);
        i = i + 1;
    }
}

} // verus!
