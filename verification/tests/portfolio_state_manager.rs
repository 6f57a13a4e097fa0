use rustrade::decimal::Dec;
use rustrade::portfolio_state_manager::{PortfolioStateManager, ReservationError};
use rustrade::trading::Portfolio;

fn portfolio(cash: i64) -> Portfolio {
    Portfolio { cash: Dec::from_int(cash), positions: Vec::new() }
}

#[test]
fn test_version_increments_on_refresh() {
    let mut manager = PortfolioStateManager::new_at(5000, 0);
    assert_eq!(manager.get_version(), 0);
    manager.refresh(portfolio(10000), 1);
    assert_eq!(manager.get_version(), 1);
    manager.refresh(portfolio(10000), 2);
    assert_eq!(manager.get_version(), 2);
}

#[test]
fn portfolio_state_manager_test_stale_detection() {
    let manager = PortfolioStateManager::new_at(100, 1_000);
    let snapshot = manager.get_snapshot().clone();
    assert!(!manager.is_stale_at(&snapshot, 1_050));
    assert!(manager.is_stale_at(&snapshot, 1_150));
}

#[test]
fn test_reserve_exposure_succeeds() {
    let mut manager = PortfolioStateManager::new(5000);
    manager.refresh(portfolio(10000), 1);
    let version = manager.get_snapshot().version;
    let token = manager.reserve_exposure("AAPL", Dec::from_int(3000), version).unwrap();
    assert_eq!(token.amount, Dec::from_int(3000));
    assert_eq!(token.symbol, "AAPL");
    assert_eq!(token.id.len(), 36);
    assert_eq!(manager.get_total_reserved(), Dec::from_int(3000));
}

#[test]
fn test_reserve_exposure_version_mismatch() {
    let mut manager = PortfolioStateManager::new(5000);
    let version = manager.get_snapshot().version;
    manager.refresh(portfolio(10000), 1);
    let result = manager.reserve_exposure("AAPL", Dec::from_int(3000), version);
    match result {
        Err(e) => {
            assert!(e.message().contains("Version conflict"));
            assert_eq!(e.message(), "Version conflict: expected v0, actual v1 (portfolio changed)");
            match e {
                ReservationError::VersionConflict { expected, actual } => {
                    assert_eq!(expected, 0);
                    assert_eq!(actual, 1);
                }
                _ => panic!("expected a version conflict"),
            }
        }
        _ => panic!("expected a version conflict"),
    }
    assert_eq!(manager.get_total_reserved(), Dec::zero());
}

#[test]
fn test_reserve_exposure_insufficient_funds() {
    let mut manager = PortfolioStateManager::new(5000);
    manager.refresh(portfolio(5000), 1);
    let version = manager.get_version();
    let result = manager.reserve_exposure("AAPL", Dec::from_int(10000), version);
    match result {
        Err(ReservationError::InsufficientFunds { needed, available, reserved }) => {
            assert_eq!(needed, Dec::from_int(10000));
            assert_eq!(available, Dec::from_int(5000));
            assert_eq!(reserved, Dec::zero());
            let e = ReservationError::InsufficientFunds { needed, available, reserved };
            assert!(e.message().contains("Insufficient funds"));
            assert_eq!(e.message(), "Insufficient funds: need $10000, available $5000 (reserved: $0)");
        }
        _ => panic!("expected insufficient funds"),
    }
}

#[test]
fn test_release_reservation() {
    let mut manager = PortfolioStateManager::new(5000);
    manager.refresh(portfolio(10000), 1);
    let version = manager.get_version();
    let token = manager.reserve_exposure("AAPL", Dec::from_int(3000), version).unwrap();
    assert_eq!(manager.get_total_reserved(), Dec::from_int(3000));
    manager.release_reservation(token);
    assert_eq!(manager.get_total_reserved(), Dec::zero());
}

#[test]
fn test_concurrent_reservations() {
    let mut manager = PortfolioStateManager::new(5000);
    manager.refresh(portfolio(10000), 1);
    let v = manager.get_version();
    assert!(manager.reserve_exposure("AAPL", Dec::from_int(3000), v).is_ok());
    assert!(manager.reserve_exposure("MSFT", Dec::from_int(3000), v).is_ok());
    assert!(manager.reserve_exposure("TSLA", Dec::from_int(3000), v).is_ok());
    assert_eq!(manager.get_total_reserved(), Dec::from_int(9000));
    assert!(manager.reserve_exposure("NVDA", Dec::from_int(3000), v).is_err());
}

#[test]
fn test_available_cash_calculation() {
    let mut manager = PortfolioStateManager::new(5000);
    manager.refresh(portfolio(10000), 1);
    assert_eq!(manager.get_snapshot().available_cash(), Dec::from_int(10000));
    let v = manager.get_version();
    manager.reserve_exposure("AAPL", Dec::from_int(3000), v).unwrap();
    assert_eq!(manager.get_snapshot().available_cash(), Dec::from_int(7000));
}

#[test]
fn releasing_an_unknown_token_changes_nothing() {
    let mut manager = PortfolioStateManager::new(5000);
    manager.refresh(portfolio(10000), 1);
    let v = manager.get_version();
    let token = manager.reserve_exposure("AAPL", Dec::from_int(1000), v).unwrap();
    let mut stale = token.clone();
    stale.id = "unknown".to_string();
    manager.release_reservation(stale);
    assert_eq!(manager.get_total_reserved(), Dec::from_int(1000));
    manager.release_reservation(token);
    assert_eq!(manager.get_total_reserved(), Dec::zero());
}
