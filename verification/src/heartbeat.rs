//! Silence detection for data streams.
use std::time::{Duration, Instant};
use vstd::prelude::*;

verus! {

#[verifier::external_type_specification]
#[verifier::external_body]
pub struct ExInstant(Instant);

/// `Instant::now`: the current instant (nothing is promised of it).
#[verifier::external_body]
fn instant_now() -> (r: Instant) {
    Instant::now()
}

/// `Instant::elapsed`: the time since `i` (it depends on the clock; nothing is promised).
#[verifier::external_body]
fn instant_elapsed(i: &Instant) -> (r: Duration) {
    i.elapsed()
}

/// The whole number of nanoseconds a `Duration` spans (`Duration::as_nanos`).
pub uninterp spec fn duration_nanos(d: Duration) -> nat;

/// `Duration::as_nanos`: the whole nanoseconds of `d`.
#[verifier::external_body]
fn duration_as_nanos(d: &Duration) -> (r: u128)
    ensures
        r as nat == duration_nanos(*d),
{
    d.as_nanos()
}

/// Monitor for detecting silent (zombie) data streams.
pub struct StreamHealthMonitor {
    last_event_received_at: Instant,
    silence_threshold_nanos: u128,
    name: String,
}

impl StreamHealthMonitor {
    /// The silence threshold in nanoseconds.
    pub closed spec fn threshold_nanos(self) -> nat {
        self.silence_threshold_nanos as nat
    }

    /// The instant of the last event (or of the monitor's creation).
    pub closed spec fn last_event(self) -> Instant {
        self.last_event_received_at
    }

    /// The monitor's name.
    pub closed spec fn spec_name(self) -> Seq<char> {
        self.name@
    }

    /// A monitor named `name` whose silence clock starts at `now`.
    pub fn new_at(name: &str, silence_threshold: Duration, now: Instant) -> (r: Self)
        ensures
            r.spec_name() == name@,
            r.threshold_nanos() == duration_nanos(silence_threshold),
            r.last_event() == now,
    {
        StreamHealthMonitor {
            last_event_received_at: now,
            silence_threshold_nanos: duration_as_nanos(&silence_threshold),
            name: name.to_string(),
        }
    }

    /// A monitor named `name` whose silence clock starts now.
    pub fn new(name: &str, silence_threshold: Duration) -> (r: Self)
        ensures
            r.spec_name() == name@,
            r.threshold_nanos() == duration_nanos(silence_threshold),
    {
        Self::new_at(name, silence_threshold, instant_now())
    }

    pub fn name(&self) -> (r: &str)
        ensures
            r@ == self.spec_name(),
    {
        self.name.as_str()
    }

    /// Record that an event was received at `now`: the silence clock restarts there.
    pub fn record_event_at(&mut self, now: Instant)
        ensures
            final(self).last_event() == now,
            final(self).threshold_nanos() == old(self).threshold_nanos(),
            final(self).spec_name() == old(self).spec_name(),
    {
        self.last_event_received_at = now;
    }

    /// Record that an event has been received: the silence clock restarts at the
    /// instant read now, which is returned.
    pub fn record_event(&mut self) -> (r: Instant)
        ensures
            final(self).last_event() == r,
            final(self).threshold_nanos() == old(self).threshold_nanos(),
            final(self).spec_name() == old(self).spec_name(),
    {
        let now = instant_now();
        self.record_event_at(now);
        now
    }

    /// Whether a stream that has been silent for `elapsed_nanos` is still healthy:
    /// healthy unless the silence exceeds the threshold.
    pub fn is_healthy_after(&self, elapsed_nanos: u128) -> (r: bool)
        ensures
            r == (elapsed_nanos <= self.threshold_nanos()),
    {
        elapsed_nanos <= self.silence_threshold_nanos
    }

    /// Check if the stream is still healthy: false once the time since the last event
    /// exceeds the silence threshold. The elapsed time comes from the clock, so only
    /// what holds for every reading is stated.
    pub fn is_healthy(&self) -> (r: bool)
        ensures
            self.threshold_nanos() == u128::MAX ==> r,
    {
        let elapsed = duration_as_nanos(&instant_elapsed(&self.last_event_received_at));
        self.is_healthy_after(elapsed)
    }

    /// The time since the last event.
    pub fn last_event_elapsed(&self) -> (r: Duration) {
        instant_elapsed(&self.last_event_received_at)
    }
}

} // verus!
