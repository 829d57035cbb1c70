//! Request counting for the health report.
use vstd::prelude::*;
use crate::text::{lemma_filter_all, lemma_filter_keeps, lemma_filter_push};

verus! {

/// Connection pool figures reported by the health check.
pub struct PoolStats {
    pub active_connections: u64,
    pub idle_connections: u64,
}

/// The span over which recent requests are counted: one minute, in nanoseconds.
pub const WINDOW_NANOS: u64 = 60_000_000_000;

/// A request made at `t` still counts at `now`: it is no older than a minute.
pub open spec fn within_window(t: u64, now: u64) -> bool {
    t + WINDOW_NANOS >= now
}

/// The times within a minute of `now`, in their order.
pub open spec fn recent_times(times: Seq<u64>, now: u64) -> Seq<u64> {
    times.filter(|t: u64| within_window(t, now))
}

/// The times of recent requests, in nanoseconds from a fixed origin.
pub struct RequestWindow {
    times: Vec<u64>,
}

impl View for RequestWindow {
    type V = Seq<u64>;

    closed spec fn view(&self) -> Seq<u64> {
        self.times@
    }
}

fn is_within_window(t: u64, now: u64) -> (r: bool)
    ensures
        r == within_window(t, now),
{
    now <= t || now - t <= WINDOW_NANOS
}

impl RequestWindow {
    /// A window with no requests.
    pub fn new() -> (w: RequestWindow)
        ensures
            w@ == Seq::<u64>::empty(),
    {
        RequestWindow { times: Vec::new() }
    }

    /// Records a request made at `now`, and forgets the requests made more
    /// than a minute before it.
    pub fn record_request(&mut self, now: u64)
        ensures
            final(self)@ == recent_times(old(self)@.push(now), now),
    {
        let ghost all = self.times@.push(now);
        let ghost keep = |t: u64| within_window(t, now);
        self.times.push(now);
        let mut kept: Vec<u64> = Vec::new();
        let n = self.times.len();
        let mut i: usize = 0;
        while i < n
            invariant
                n == self.times@.len(),
                all == self.times@,
                keep == (|t: u64| within_window(t, now)),
                i <= n,
                kept@ == all.take(i as int).filter(keep),
            decreases n - i,
        {
            let t = self.times[i];
            proof {
                assert(all.take(i + 1) =~= all.take(i as int).push(t));
                lemma_filter_push(all.take(i as int), t, keep);
            }
            if is_within_window(t, now) {
                kept.push(t);
            }
            i = i + 1;
        }
        proof {
            assert(all.take(n as int) =~= all);
        }
        self.times = kept;
    }

    /// The number of recorded requests made within a minute of `now`.
    pub fn requests_last_minute(&self, now: u64) -> (count: u64)
        ensures
            count == recent_times(self@, now).len(),
    {
        let ghost keep = |t: u64| within_window(t, now);
        let n = self.times.len();
        let mut count: u64 = 0;
        let mut i: usize = 0;
        while i < n
            invariant
                n == self.times@.len(),
                keep == (|t: u64| within_window(t, now)),
                i <= n,
                count == self.times@.take(i as int).filter(keep).len(),
            decreases n - i,
        {
            let t = self.times[i];
            proof {
                assert(self.times@.take(i + 1) =~= self.times@.take(i as int).push(t));
                lemma_filter_push(self.times@.take(i as int), t, keep);
                self.times@.take(i as int).lemma_filter_len(keep);
            }
            if is_within_window(t, now) {
                count = count + 1;
            }
            i = i + 1;
        }
        proof {
            assert(self.times@.take(n as int) =~= self.times@);
        }
        count
    }
}

/// A request recorded at `now` is counted at `now`, and forgetting old
/// requests while recording changes no count taken at that moment: the count
/// right after recording is the count before it plus one.
pub proof fn law_recorded_request_counted(times: Seq<u64>, now: u64)
    ensures
        recent_times(recent_times(times.push(now), now), now).len() == recent_times(times, now).len()
            + 1,
{
    let keep = |t: u64| within_window(t, now);
    lemma_filter_push(times, now, keep);
    let kept = recent_times(times.push(now), now);
    lemma_filter_keeps(times.push(now), keep, |t: u64| true);
    lemma_filter_all(kept, keep);
}

} // verus!
