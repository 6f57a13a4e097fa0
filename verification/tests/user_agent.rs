use rustrade::decimal::Dec;
use rustrade::market::Candle;
use rustrade::trading::{OrderSide, OrderType};
use rustrade::text::{split_nth, split_words, trim_whitespace};
use rustrade::user_agent::{
    extract_symbol_from_log, parse_command, parse_log_for_activity, parse_signal_log,
    record_candle, trade_command_proposal, trim_chat_history,
    ActivityEvent, ActivityEventType, ActivityFeed, EventSeverity, FilterReason, LogActivity,
    UserCommand,
};

#[test]
fn commands_are_parsed_from_words() {
    assert!(parse_command("   ").is_none());
    assert!(matches!(parse_command(" stop "), Some(UserCommand::Shutdown)));
    assert!(matches!(parse_command("panic"), Some(UserCommand::Shutdown)));
    assert!(matches!(parse_command("status"), Some(UserCommand::Status)));
    match parse_command("buy  aapl 10") {
        Some(UserCommand::Trade { side, symbol, quantity }) => {
            assert_eq!(side, OrderSide::Buy);
            assert_eq!(symbol, "aapl");
            assert_eq!(quantity, "10");
        }
        _ => panic!("expected a trade"),
    }
    assert!(matches!(parse_command("sell BTC/USD 0.5"), Some(UserCommand::Trade { side: OrderSide::Sell, .. })));
    assert!(matches!(parse_command("buy aapl"), Some(UserCommand::Unknown)));
    assert!(matches!(parse_command("stop now"), Some(UserCommand::Unknown)));
}

#[test]
fn trade_commands_become_market_proposals() {
    let p = trade_command_proposal(OrderSide::Buy, "aapl", "10.5", "user".to_string(), 9).unwrap();
    assert_eq!(p.symbol, "AAPL");
    assert_eq!(p.quantity, Dec::new(105, 1));
    assert_eq!(p.order_type, OrderType::Market);
    assert_eq!(p.price, Dec::zero());
    assert_eq!(p.timestamp, 9);
    assert!(trade_command_proposal(OrderSide::Sell, "aapl", "ten", "user".to_string(), 9).is_none());
}

#[test]
fn symbols_are_found_in_log_lines() {
    assert_eq!(extract_symbol_from_log("Order filled for (BTC/USD), qty 2"), Some("BTC/USD".to_string()));
    assert_eq!(extract_symbol_from_log("signal for AAPL now"), Some("AAPL".to_string()));
    assert_eq!(extract_symbol_from_log("nothing here"), None);
    assert_eq!(extract_symbol_from_log("VERYLONGWORD and TSLA"), Some("TSLA".to_string()));
}

#[test]
fn log_lines_become_activity() {
    match parse_log_for_activity("Order executed: ETH/USD") {
        Some(LogActivity::TradeExecuted { symbol }) => assert_eq!(symbol, "ETH/USD"),
        _ => panic!("expected a trade"),
    }
    match parse_log_for_activity("SignalGenerator: ETH/USD -> SELL") {
        Some(LogActivity::Signal { buy, symbol }) => {
            assert!(!buy);
            assert_eq!(symbol, "ETH/USD");
        }
        _ => panic!("expected a signal"),
    }
    match parse_log_for_activity("Buy for NVDA blocked by RSI filter") {
        Some(LogActivity::FilterBlock { symbol, reason }) => {
            assert_eq!(symbol, "NVDA");
            assert_eq!(reason, FilterReason::Rsi);
        }
        _ => panic!("expected a block"),
    }
    assert!(matches!(parse_log_for_activity("Strategy changed to trend"), Some(LogActivity::StrategyChange)));
    match parse_log_for_activity("ERROR something failed") {
        Some(LogActivity::Alert { text, severity }) => {
            assert_eq!(text, "ERROR something failed");
            assert_eq!(severity, EventSeverity::Error);
        }
        _ => panic!("expected an alert"),
    }
    assert!(parse_log_for_activity("all quiet").is_none());
    assert!(parse_log_for_activity("Order filled, no symbol").is_none());
}

#[test]
fn activity_feed_keeps_the_twenty_newest() {
    let mut feed = ActivityFeed::new();
    for i in 0..25 {
        feed.add_activity(ActivityEvent {
            timestamp: i,
            event_type: ActivityEventType::System,
            message: format!("event {}", i),
            severity: EventSeverity::Info,
        });
    }
    assert_eq!(feed.events().len(), 20);
    assert_eq!(feed.events()[0].timestamp, 24);
    assert_eq!(feed.events()[19].timestamp, 5);
}

#[test]
fn signal_log_lines_give_symbol_and_reason() {
    let line = "INFO rustrade: SignalGenerator [DualSMA]: AAPL - Golden cross  ";
    assert_eq!(parse_signal_log(line), Some(("AAPL".to_string(), "Golden cross".to_string())));
    // the reason stops at the next separator
    let line = "SignalGenerator [RSI]: MSFT - oversold - strong";
    assert_eq!(parse_signal_log(line), Some(("MSFT".to_string(), "oversold".to_string())));
    // no reason piece
    assert_eq!(parse_signal_log("SignalGenerator [RSI]: MSFT"), None);
    // not a signal line
    assert_eq!(parse_signal_log("Executor: AAPL - filled"), None);
}

#[test]
fn split_and_trim_follow_std() {
    for (s, pat, n) in [("a - b - c", " - ", 1usize), ("a - b - c", " - ", 2), ("abc", "x", 0), ("abc", "x", 1), ("xx", "x", 2), ("", "x", 0)] {
        assert_eq!(split_nth(s, pat, n), s.split(pat).nth(n).map(|p| p.to_string()));
    }
    for s in ["  a b \t", "", "   ", "x"] {
        assert_eq!(trim_whitespace(s), s.trim());
    }
}

fn candle(ts: i64) -> Candle {
    Candle {
        symbol: "AAPL".to_string(),
        open: Dec::from_int(1),
        high: Dec::from_int(1),
        low: Dec::from_int(1),
        close: Dec::from_int(1),
        volume: Dec::from_int(1),
        timestamp: ts,
    }
}

#[test]
fn chart_history_keeps_the_latest_hundred_candles() {
    let mut history = Vec::new();
    for ts in 0..105 {
        record_candle(&mut history, candle(ts));
    }
    assert_eq!(history.len(), 100);
    assert_eq!(history[0].timestamp, 5);
    assert_eq!(history[99].timestamp, 104);
}

#[test]
fn chat_history_drops_the_oldest_hundred_beyond_a_thousand() {
    let mut history: Vec<(String, String)> = (0..1000).map(|i| ("user".to_string(), i.to_string())).collect();
    trim_chat_history(&mut history);
    assert_eq!(history.len(), 1000);
    history.push(("user".to_string(), "1000".to_string()));
    trim_chat_history(&mut history);
    assert_eq!(history.len(), 901);
    assert_eq!(history[0].1, "100");
}

#[test]
fn words_split_at_unicode_white_space() {
    let w = split_words("  buy\u{00A0}AAPL\u{3000}now\t\n");
    assert_eq!(w, vec!["buy".to_string(), "AAPL".to_string(), "now".to_string()]);
    assert_eq!(trim_whitespace("\u{2028} hold \u{205F}"), "hold");
}
