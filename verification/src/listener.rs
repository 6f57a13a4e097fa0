//! Decisions of the news listener: reconnection back-off and health.
use crate::health::HealthStatus;
use crate::news_handler::{NewsSentiment, NewsSignal};
use vstd::string::StringExecFns;
use vstd::prelude::*;

verus! {

/// `2^n`.
pub open spec fn pow2(n: nat) -> int
    decreases n,
{
    if n == 0 {
        1
    } else {
        2 * pow2((n - 1) as nat)
    }
}

/// The wait before reconnection attempt `attempt` (counted from 1): one second,
/// doubling with every attempt up to the sixth, and never above a minute.
pub open spec fn backoff_spec(attempt: u32) -> int {
    let exponent = if attempt < 6 {
        attempt - 1
    } else {
        5
    };
    let wait = 1000 * pow2(exponent as nat);
    if wait < 60000 {
        wait
    } else {
        60000
    }
}

/// The wait in milliseconds before reconnection attempt `attempt` (from 1).
pub fn backoff_ms(attempt: u32) -> (r: u64)
    requires
        attempt >= 1,
    ensures
        r == backoff_spec(attempt),
{
    let capped: u32 = if attempt < 6 {
        attempt
    } else {
        6
    };
    let mut wait: u64 = 1000;
    let mut k: u32 = 1;
    while k < capped
        invariant
            1 <= k <= capped <= 6,
            wait == 1000 * pow2((k - 1) as nat),
        decreases capped - k,
    {
        proof {
            reveal_with_fuel(pow2, 7);
        }
        wait = wait * 2;
        k = k + 1;
    }
    if wait < 60000 {
        wait
    } else {
        60000
    }
}

/// The listener's heartbeat: degraded while reconnecting, healthy otherwise.
pub fn listener_health(reconnect_attempts: u32) -> (r: HealthStatus)
    ensures
        r == (if reconnect_attempts > 0 {
            HealthStatus::Degraded
        } else {
            HealthStatus::Healthy
        }),
{
    if reconnect_attempts > 0 {
        HealthStatus::Degraded
    } else {
        HealthStatus::Healthy
    }
}

proof fn lemma_pow2_monotone(a: nat, b: nat)
    requires
        a <= b,
    ensures
        1 <= pow2(a) <= pow2(b),
    decreases b,
{
    if b > 0 {
        if a < b {
            lemma_pow2_monotone(a, (b - 1) as nat);
        } else {
            lemma_pow2_monotone((a - 1) as nat, (b - 1) as nat);
        }
    }
}

/// The reconnection back-off never decreases from one attempt to the next and
/// never exceeds a minute.
pub proof fn lemma_backoff_monotone(a: u32, b: u32)
    requires
        1 <= a <= b,
    ensures
        backoff_spec(a) <= backoff_spec(b) <= 60000,
        backoff_spec(a) >= 1000,
{
    let ea: nat = if a < 6 { (a - 1) as nat } else { 5 };
    let eb: nat = if b < 6 { (b - 1) as nat } else { 5 };
    lemma_pow2_monotone(ea, eb);
    lemma_pow2_monotone(0, ea);
}

/// What a matched listener rule does.
#[derive(Clone, Copy, Debug, PartialEq, Eq, Structural)]
pub enum ListenerAction {
    /// Tell the analyst about news of the given sentiment.
    NotifyAnalyst(NewsSentiment),
    /// Legacy: treated as bullish news.
    BuyImmediate,
    /// Legacy: treated as bearish news.
    SellImmediate,
}

/// The sentiment a rule's action reports.
pub open spec fn action_sentiment(action: ListenerAction) -> NewsSentiment {
    match action {
        ListenerAction::NotifyAnalyst(s) => s,
        ListenerAction::BuyImmediate => NewsSentiment::Bullish,
        ListenerAction::SellImmediate => NewsSentiment::Bearish,
    }
}

/// The news signal sent to the analyst when a rule for `target_symbol` matches
/// a news item: the action's sentiment with the item's title, source and link.
pub fn trigger_action(
    action: ListenerAction,
    target_symbol: &str,
    title: &str,
    source: &str,
    url: &Option<String>,
) -> (r: NewsSignal)
    ensures
        r.symbol@ == target_symbol@,
        r.sentiment == action_sentiment(action),
        r.headline@ == title@,
        r.source@ == source@,
        match *url {
            Some(u) => r.url matches Some(v) && v@ == u@,
            None => r.url is None,
        },
{
    let sentiment = match action {
        ListenerAction::NotifyAnalyst(s) => s,
        ListenerAction::BuyImmediate => NewsSentiment::Bullish,
        ListenerAction::SellImmediate => NewsSentiment::Bearish,
    };
    let link = match url {
        Some(u) => Some(u.clone()),
        None => None,
    };
    NewsSignal {
        symbol: String::from_str(target_symbol),
        sentiment,
        headline: String::from_str(title),
        source: String::from_str(source),
        url: link,
    }
}

} // verus!
