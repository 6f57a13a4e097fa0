use rustrade::cost_evaluator::{ConstantFeeModel, CostEvaluator};
use rustrade::decimal::Dec;
use rustrade::trading::{OrderSide, OrderType, TradeProposal};

fn create_test_proposal(price: Dec, quantity: Dec) -> TradeProposal {
    TradeProposal {
        symbol: "TEST".to_string(),
        side: OrderSide::Buy,
        price,
        quantity,
        order_type: OrderType::Limit,
        reason: "Test trade".to_string(),
        timestamp: 0,
        stop_loss: None,
        take_profit: None,
    }
}

fn evaluator() -> CostEvaluator {
    CostEvaluator::new(ConstantFeeModel::new(Dec::new(5, 3), Dec::new(1, 3)), Dec::from_int(5))
}

fn hundred_by_ten() -> TradeProposal {
    create_test_proposal(Dec::new(1000, 1), Dec::new(100, 1))
}

#[test]
fn test_cost_evaluation_components() {
    let costs = evaluator().evaluate(&hundred_by_ten());
    assert_eq!(costs.commission, Dec::new(5, 2));
    assert_eq!(costs.estimated_slippage, Dec::new(10, 1));
    assert_eq!(costs.spread_cost, Dec::new(25, 2));
    assert_eq!(costs.total_cost, Dec::new(130, 2));
}

#[test]
fn test_profitability_check_pass() {
    assert!(evaluator().is_profitable(&hundred_by_ten(), Dec::new(50, 1), Dec::new(20, 1)));
}

#[test]
fn test_profitability_check_fail() {
    assert!(!evaluator().is_profitable(&hundred_by_ten(), Dec::new(20, 1), Dec::new(20, 1)));
}

#[test]
fn test_profitability_exact_threshold() {
    assert!(evaluator().is_profitable(&hundred_by_ten(), Dec::new(310, 2), Dec::new(20, 1)));
}

#[test]
fn test_expected_profit_calculation() {
    let expected = evaluator().calculate_expected_profit(
        &hundred_by_ten(),
        Dec::new(20, 1),
        Dec::new(15, 1),
    );
    assert_eq!(expected, Dec::new(300, 1));
}

#[test]
fn test_profit_cost_ratio() {
    let ratio = evaluator().get_profit_cost_ratio(&hundred_by_ten(), Dec::new(650, 2));
    let value: f64 = ratio.to_string().parse().unwrap();
    assert!((value - 5.0).abs() < 0.01);
}

#[test]
fn test_default_constructor() {
    let evaluator = CostEvaluator::default();
    let costs = evaluator.evaluate(&hundred_by_ten());
    assert!(costs.total_cost.gt(&Dec::zero()));
    assert_eq!(costs.commission, Dec::new(5, 2));
}

#[test]
fn test_large_trade_costs() {
    let proposal = create_test_proposal(Dec::new(5000, 1), Dec::new(1000, 1));
    let costs = evaluator().evaluate(&proposal);
    assert_eq!(costs.commission, Dec::new(5, 1));
    assert_eq!(costs.estimated_slippage, Dec::new(500, 1));
    assert_eq!(costs.spread_cost, Dec::new(125, 1));
    assert_eq!(costs.total_cost, Dec::new(630, 1));
}

#[test]
fn test_zero_quantity_edge_case() {
    let proposal = create_test_proposal(Dec::new(1000, 1), Dec::new(0, 1));
    let costs = evaluator().evaluate(&proposal);
    assert_eq!(costs.total_cost, Dec::zero());
    assert_eq!(costs.commission, Dec::zero());
}

#[test]
fn test_high_profit_ratio_requirement() {
    let e = evaluator();
    assert!(e.is_profitable(&hundred_by_ten(), Dec::new(100, 1), Dec::new(50, 1)));
    assert!(!e.is_profitable(&hundred_by_ten(), Dec::new(50, 1), Dec::new(50, 1)));
}

#[test]
fn crypto_spread_is_capped_at_25_bps_and_stocks_at_15() {
    let e = CostEvaluator::new(ConstantFeeModel::new(Dec::zero(), Dec::zero()), Dec::from_int(100));
    let mut crypto = create_test_proposal(Dec::from_int(100), Dec::from_int(10));
    crypto.symbol = "BTC/USD".to_string();
    // 1000 * 25 / 2 / 10000 = 1.25
    assert_eq!(e.evaluate(&crypto).spread_cost, Dec::new(125, 2));
    let stock = create_test_proposal(Dec::from_int(100), Dec::from_int(10));
    // 1000 * 15 / 2 / 10000 = 0.75
    assert_eq!(e.evaluate(&stock).spread_cost, Dec::new(75, 2));
    // an observed spread below the cap is used as is: 1000 * 4 / 2 / 10000 = 0.2
    assert_eq!(
        e.evaluate_with_spread(&stock, Some(Dec::from_int(4))).spread_cost,
        Dec::new(2, 1)
    );
}

#[test]
fn zero_costs_give_zero_ratio() {
    let e = CostEvaluator::new(ConstantFeeModel::new(Dec::zero(), Dec::zero()), Dec::zero());
    assert_eq!(e.get_profit_cost_ratio(&hundred_by_ten(), Dec::from_int(5)), Dec::zero());
}

#[test]
fn checked_ratio_matches_the_ratio_and_refuses_overflow() {
    // total cost 1.30: 5 / 1.3
    let ratio = evaluator().profit_cost_ratio_checked(&hundred_by_ten(), Dec::from_int(5));
    assert_eq!(ratio, Some(evaluator().get_profit_cost_ratio(&hundred_by_ten(), Dec::from_int(5))));
    // no costs: ratio zero
    let free = CostEvaluator::new(ConstantFeeModel::new(Dec::zero(), Dec::zero()), Dec::zero());
    assert_eq!(free.profit_cost_ratio_checked(&hundred_by_ten(), Dec::from_int(5)), Some(Dec::zero()));
    // a cost of 1e-28 against a profit of 1e10: the ratio does not fit in a decimal
    let tiny = CostEvaluator::new(ConstantFeeModel::new(Dec::new(1, 28), Dec::zero()), Dec::zero());
    let one_share = create_test_proposal(Dec::from_int(100), Dec::from_int(1));
    assert_eq!(tiny.profit_cost_ratio_checked(&one_share, Dec::from_int(10_000_000_000)), None);
    // a cost of 0.5 against a profit of 2: the ratio is 4
    let half = CostEvaluator::new(ConstantFeeModel::new(Dec::new(5, 1), Dec::zero()), Dec::zero());
    assert_eq!(half.profit_cost_ratio_checked(&one_share, Dec::from_int(2)), Some(Dec::from_int(4)));
}
