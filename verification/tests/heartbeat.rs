use rustrade::heartbeat::StreamHealthMonitor;
use std::time::Duration;

#[test]
fn test_heartbeat_healthy() {
    let mut monitor = StreamHealthMonitor::new("test", Duration::from_secs(1));
    assert!(monitor.is_healthy());
    monitor.record_event();
    assert!(monitor.is_healthy());
}

#[test]
fn heartbeat_silence_beyond_threshold_is_unhealthy() {
    let monitor = StreamHealthMonitor::new("test", Duration::from_millis(10));
    assert!(monitor.is_healthy_after(10_000_000));
    assert!(!monitor.is_healthy_after(20_000_000));
    assert_eq!(monitor.name(), "test");
}

#[test]
fn elapsed_time_since_the_last_event_is_small_right_after_it() {
    let mut monitor = StreamHealthMonitor::new("feed", Duration::from_secs(60));
    monitor.record_event();
    assert!(monitor.last_event_elapsed() < Duration::from_secs(60));
}

#[test]
fn recording_an_event_at_an_instant_restarts_the_silence_clock_there() {
    let now = std::time::Instant::now();
    let start = now.checked_sub(std::time::Duration::from_secs(5)).unwrap_or(now);
    let mut m = StreamHealthMonitor::new_at("test", std::time::Duration::from_secs(1), start);
    if start != now {
        assert!(!m.is_healthy());
    }
    m.record_event_at(std::time::Instant::now());
    assert!(m.is_healthy());
    assert!(m.last_event_elapsed() < std::time::Duration::from_secs(1));
    assert_eq!(m.name(), "test");
}
