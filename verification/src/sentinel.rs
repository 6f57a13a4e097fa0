//! Decisions of the market data sentinel: silence handling and subscription
//! updates.
use crate::health::ConnectionStatus;
use crate::text::str_eq;
use vstd::prelude::*;

verus! {

/// Silence after which the stream is forcibly re-subscribed: 30 s.
pub open spec fn resubscribe_after_nanos() -> int {
    30_000_000_000
}

/// Minimum time between two forced re-subscriptions: 60 s.
pub open spec fn heal_cooldown_nanos() -> int {
    60_000_000_000
}

/// What the periodic heartbeat check does.
#[derive(Clone, Copy, Debug, PartialEq, Eq, Structural)]
pub enum HeartbeatAction {
    /// Report market data offline, and re-subscribe when `resubscribe`.
    ReportSilence { resubscribe: bool },
    /// Data flows again while market data is reported offline: report it online.
    RestoreOnline,
    /// Nothing to do.
    Nothing,
}

/// The heartbeat check: a silent stream is reported offline and, once silent for
/// over 30 s, re-subscribed unless a re-subscription was tried in the last 60 s;
/// a healthy stream restores an offline status.
pub fn heartbeat_action(
    healthy: bool,
    silent_for_nanos: u128,
    since_last_heal_nanos: Option<u128>,
    market_data: ConnectionStatus,
) -> (r: HeartbeatAction)
    ensures
        !healthy ==> r == (HeartbeatAction::ReportSilence {
            resubscribe: silent_for_nanos > resubscribe_after_nanos() && match since_last_heal_nanos {
                Some(t) => t > heal_cooldown_nanos(),
                None => true,
            },
        }),
        healthy ==> r == (if market_data == ConnectionStatus::Offline {
            HeartbeatAction::RestoreOnline
        } else {
            HeartbeatAction::Nothing
        }),
{
    if !healthy {
        let can_heal = match since_last_heal_nanos {
            Some(t) => t > 60_000_000_000,
            None => true,
        };
        HeartbeatAction::ReportSilence { resubscribe: silent_for_nanos > 30_000_000_000 && can_heal }
    } else if market_data == ConnectionStatus::Offline {
        HeartbeatAction::RestoreOnline
    } else {
        HeartbeatAction::Nothing
    }
}

/// Whether two symbol lists are the same, element by element.
pub open spec fn same_symbols(a: Seq<String>, b: Seq<String>) -> bool {
    a.len() == b.len() && forall|i: int| 0 <= i < a.len() ==> (#[trigger] a[i])@ == b[i]@
}

/// A subscription update to the symbols already subscribed is skipped.
pub fn symbols_unchanged(new_symbols: &Vec<String>, current: &Vec<String>) -> (r: bool)
    ensures
        r == same_symbols(new_symbols@, current@),
{
    if new_symbols.len() != current.len() {
        return false;
    }
    let mut i: usize = 0;
    while i < new_symbols.len()
        invariant
            i <= new_symbols.len(),
            new_symbols.len() == current.len(),
            forall|j: int| 0 <= j < i ==> (#[trigger] new_symbols@[j])@ == current@[j]@,
        decreases new_symbols.len() - i,
    {
        if !str_eq(new_symbols[i].as_str(), current[i].as_str()) {
            return false;
        }
        i = i + 1;
    }
    true
}

} // verus!
