//! Monitoring configuration and the integer side of metrics collection.

use vstd::prelude::*;

verus! {

/// The sum of the values, stopping at `u64::MAX` instead of overflowing.
pub open spec fn saturating_total(v: Seq<u64>) -> nat
    decreases v.len(),
{
    if v.len() == 0 {
        0
    } else {
        let t: int = saturating_total(v.drop_last()) + v.last();
        if t > u64::MAX {
            u64::MAX as nat
        } else {
            t as nat
        }
    }
}

/// Received and transmitted byte totals over all interfaces, each summed
/// with saturation at `u64::MAX`.
pub fn network_io(counters: &Vec<(u64, u64)>) -> (r: (u64, u64))
    ensures
        r.0 == saturating_total(counters@.map_values(|c: (u64, u64)| c.0)),
        r.1 == saturating_total(counters@.map_values(|c: (u64, u64)| c.1)),
{
    let ghost rxs = counters@.map_values(|c: (u64, u64)| c.0);
    let ghost txs = counters@.map_values(|c: (u64, u64)| c.1);
    let mut rx: u64 = 0;
    let mut tx: u64 = 0;
    let mut i: usize = 0;
    while i < counters.len()
        invariant
            i <= counters@.len(),
            rxs == counters@.map_values(|c: (u64, u64)| c.0),
            txs == counters@.map_values(|c: (u64, u64)| c.1),
            rx == saturating_total(rxs.subrange(0, i as int)),
            tx == saturating_total(txs.subrange(0, i as int)),
        decreases counters@.len() - i,
    {
        let ghost a = rxs.subrange(0, i + 1);
        let ghost b = txs.subrange(0, i + 1);
        assert(a.drop_last() =~= rxs.subrange(0, i as int));
        assert(b.drop_last() =~= txs.subrange(0, i as int));
        rx = rx.saturating_add(counters[i].0);
        tx = tx.saturating_add(counters[i].1);
        i = i + 1;
    }
    assert(rxs.subrange(0, counters@.len() as int) =~= rxs);
    assert(txs.subrange(0, counters@.len() as int) =~= txs);
    (rx, tx)
}

/// Polling configuration of the monitoring engine. Collecting the metrics
/// themselves reads the operating system and the container runtime and is
/// done by the application around this library.
pub struct MonitoringEngine {
    poll_interval_secs: u64,
}

impl MonitoringEngine {
    /// An engine polling every five seconds.
    pub fn new() -> (r: Self)
        ensures
            r.poll_interval() == 5,
    {
        MonitoringEngine { poll_interval_secs: 5 }
    }

    /// The same engine polling every `seconds` seconds.
    pub fn with_poll_interval(self, seconds: u64) -> (r: Self)
        ensures
            r.poll_interval() == seconds,
    {
        MonitoringEngine { poll_interval_secs: seconds }
    }

    /// The polling interval, in seconds.
    #[verifier::when_used_as_spec(poll_interval_spec)]
    pub fn poll_interval(&self) -> (s: u64)
        ensures
            s == self.poll_interval_spec(),
    {
        self.poll_interval_secs
    }

    /// The polling interval, in seconds.
    pub closed spec fn poll_interval_spec(&self) -> u64 {
        self.poll_interval_secs
    }
}

impl Default for MonitoringEngine {
    /// An engine polling every five seconds.
    fn default() -> (r: Self)
        ensures
            r.poll_interval() == 5,
    {
        MonitoringEngine::new()
    }
}

/// Checks the health of discovered services. Only construction exists; the
/// check itself has no implementation yet.
pub struct HealthChecker;

impl HealthChecker {
    /// A checker.
    pub fn new() -> Self {
        HealthChecker
    }
}

/// Follows container lifecycle events. Only construction exists; tracking
/// has no implementation yet.
pub struct LifecycleTracker;

impl LifecycleTracker {
    /// A tracker.
    pub fn new() -> Self {
        LifecycleTracker
    }
}

} // verus!
