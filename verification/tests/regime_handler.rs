use rustrade::context::{
    AnalystConfig, MarketRegime, MarketRegimeType, RiskAppetite, RiskProfiles, RiskSettings, SymbolContext,
};
use rustrade::decimal::Dec;
use rustrade::regime_handler::apply_dynamic_risk_scaling;

fn test_config() -> AnalystConfig {
    AnalystConfig {
        rsi_threshold: Dec::from_int(70),
        trailing_stop_atr_multiplier: Dec::from_int(3),
        take_profit_pct: Dec::new(5, 2),
        ensemble_voting_threshold: Dec::new(50, 2),
        risk_appetite_score: None,
        risk_per_trade_percent: Dec::new(1, 2),
        max_positions: 5,
        max_position_size_pct: Dec::new(10, 2),
        trade_quantity: Dec::from_int(1),
        order_cooldown_seconds: 60,
        min_profit_ratio: Dec::from_int(2),
        profit_target_multiplier: Dec::new(15, 1),
    }
}

/// Profiles whose settings grow with the score (score `n` gives RSI threshold `60 + n`).
fn profiles() -> RiskProfiles {
    let mut by_score = Vec::new();
    for n in 1..=9i64 {
        by_score.push(RiskSettings {
            risk_per_trade_percent: Dec::new(n, 3),
            trailing_stop_atr_multiplier: Dec::new(40 - n, 1),
            rsi_threshold: Dec::from_int(60 + n),
            max_position_size_pct: Dec::new(5 + n, 2),
            min_profit_ratio: Dec::new(30 - n, 1),
            profit_target_multiplier: Dec::new(10 + n, 1),
            take_profit_pct: Dec::new(2 + n, 2),
        });
    }
    RiskProfiles::new(by_score).unwrap()
}

fn create_test_context() -> SymbolContext {
    SymbolContext::new(test_config())
}

#[test]
fn test_dynamic_risk_scaling_volatile() {
    let mut context = create_test_context();
    context.config.risk_appetite_score = Some(7);
    let regime = MarketRegime::new(MarketRegimeType::Volatile, Dec::new(8, 1), Dec::new(30, 1), Dec::new(150, 1));
    apply_dynamic_risk_scaling(&mut context, &regime, "TEST", &profiles());
    assert_eq!(context.config.risk_appetite_score, Some(4));
}

#[test]
fn test_dynamic_risk_scaling_trending_down() {
    let mut context = create_test_context();
    context.config.risk_appetite_score = Some(5);
    let regime = MarketRegime::new(MarketRegimeType::TrendingDown, Dec::new(7, 1), Dec::new(15, 1), Dec::new(250, 1));
    apply_dynamic_risk_scaling(&mut context, &regime, "TEST", &profiles());
    assert_eq!(context.config.risk_appetite_score, Some(3));
}

#[test]
fn test_dynamic_risk_scaling_no_change_on_trending_up() {
    let mut context = create_test_context();
    context.config.risk_appetite_score = Some(5);
    let regime = MarketRegime::new(MarketRegimeType::TrendingUp, Dec::new(8, 1), Dec::new(10, 1), Dec::new(300, 1));
    apply_dynamic_risk_scaling(&mut context, &regime, "TEST", &profiles());
    assert_eq!(context.config.risk_appetite_score, Some(5));
}

#[test]
fn test_dynamic_risk_scaling_clamps_to_min() {
    let mut context = create_test_context();
    context.config.risk_appetite_score = Some(2);
    let regime = MarketRegime::new(MarketRegimeType::Volatile, Dec::new(9, 1), Dec::new(40, 1), Dec::new(100, 1));
    apply_dynamic_risk_scaling(&mut context, &regime, "TEST", &profiles());
    assert_eq!(context.config.risk_appetite_score, Some(1));
}

#[test]
fn scaling_applies_the_profile_of_the_new_score() {
    let mut context = create_test_context();
    context.config.risk_appetite_score = Some(5);
    let regime = MarketRegime::new(MarketRegimeType::TrendingDown, Dec::zero(), Dec::zero(), Dec::zero());
    apply_dynamic_risk_scaling(&mut context, &regime, "TEST", &profiles());
    assert_eq!(context.config.risk_appetite_score, Some(3));
    assert_eq!(context.config.ensemble_voting_threshold, Dec::new(55, 2));
    context.config.risk_appetite_score = None;
    apply_dynamic_risk_scaling(&mut context, &regime, "TEST", &profiles());
    assert_eq!(context.config.risk_appetite_score, None);
}

#[test]
fn scaling_sets_every_setting_from_the_new_score() {
    let mut a = create_test_context();
    let mut b = create_test_context();
    a.config.risk_appetite_score = Some(7);
    b.config.risk_appetite_score = Some(7);
    b.config.rsi_threshold = Dec::from_int(20);
    b.config.take_profit_pct = Dec::new(9, 1);
    let regime = MarketRegime::new(MarketRegimeType::Volatile, Dec::zero(), Dec::zero(), Dec::zero());
    let p = profiles();
    apply_dynamic_risk_scaling(&mut a, &regime, "TEST", &p);
    apply_dynamic_risk_scaling(&mut b, &regime, "TEST", &p);
    for c in [&a, &b] {
        assert_eq!(c.config.risk_appetite_score, Some(4));
        assert_eq!(c.config.rsi_threshold, Dec::from_int(64));
        assert_eq!(c.config.risk_per_trade_percent, Dec::new(4, 3));
        assert_eq!(c.config.trailing_stop_atr_multiplier, Dec::new(36, 1));
        assert_eq!(c.config.max_position_size_pct, Dec::new(9, 2));
        assert_eq!(c.config.min_profit_ratio, Dec::new(26, 1));
        assert_eq!(c.config.profit_target_multiplier, Dec::new(14, 1));
        assert_eq!(c.config.take_profit_pct, Dec::new(6, 2));
        assert_eq!(c.config.ensemble_voting_threshold, Dec::new(55, 2));
        // settings outside the profile are kept
        assert_eq!(c.config.max_positions, 5);
        assert_eq!(c.config.order_cooldown_seconds, 60);
    }
}

#[test]
fn risk_profiles_need_nine_scores_and_appetites_a_valid_score() {
    let p = profiles();
    assert!(RiskProfiles::new(Vec::new()).is_none());
    assert!(RiskAppetite::new(0, &p).is_err());
    assert!(RiskAppetite::new(10, &p).is_err());
    let a = RiskAppetite::new(9, &p).unwrap();
    assert_eq!(a.score(), 9);
    assert_eq!(a.settings().rsi_threshold, Dec::from_int(69));
    let mut config = test_config();
    config.apply_risk_appetite(&a);
    assert_eq!(config.risk_appetite_score, Some(9));
    assert_eq!(config.ensemble_voting_threshold, Dec::new(30, 2));
    assert_eq!(config.rsi_threshold, Dec::from_int(69));
}
