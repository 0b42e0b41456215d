//! Best-effort "is the user on a call" check, used to hold breaks back when
//! `Settings::cancel_on_call` is on. It is a mic-in-use heuristic: any use
//! of the microphone counts.
use vstd::prelude::*;

verus! {

/// Something that can tell whether a call is in progress.
pub trait CallDetector {
    fn is_active(&self) -> bool;
}

/// The detector used where no microphone probe is available: it always
/// reports that no call is in progress.
#[derive(Debug, Default)]
pub struct LinuxCallDetector;

impl CallDetector for LinuxCallDetector {
    fn is_active(&self) -> (r: bool)
        ensures
            !r,
    {
        false
    }
}

/// How long a probe result of the microphone is reused, in milliseconds.
pub const POLL_INTERVAL_MS: u64 = 5000u64;

/// The caching part of the CoreAudio microphone detector: the last probe
/// result and when it was taken, on a monotonic millisecond clock. The probe
/// itself is made by the caller whenever `poll_due` says so.
#[derive(Debug)]
pub struct MacCallDetector {
    pub cached: bool,
    pub last_poll_ms: Option<u64>,
}

/// A new probe is needed at `now_ms`: there has been none, or the last one
/// is at least a poll interval old (time running backwards counts as no time
/// elapsed).
pub open spec fn spec_poll_due(last_poll_ms: Option<u64>, now_ms: u64) -> bool {
    match last_poll_ms {
        None => true,
        Some(last) => now_ms >= last && now_ms - last >= POLL_INTERVAL_MS,
    }
}

/// Once a probe is due it stays due as time goes on, and a probe taken at
/// `t` is next due exactly when the poll interval has passed.
pub proof fn lemma_poll_due_after_interval(last: u64, t1: u64, t2: u64, d: u64)
    ensures
        spec_poll_due(None, t1),
        spec_poll_due(Some(last), t1) && t1 <= t2 ==> spec_poll_due(Some(last), t2),
        last <= t1 && t1 - last >= POLL_INTERVAL_MS ==> spec_poll_due(Some(last), t1),
        last + d <= u64::MAX ==> (spec_poll_due(Some(last), (last + d) as u64) <==> d
            >= POLL_INTERVAL_MS),
{
}

impl MacCallDetector {
    /// A detector that reports no call and probes on its first use.
    pub fn new() -> (d: MacCallDetector)
        ensures
            !d.cached,
            d.last_poll_ms is None,
    {
        MacCallDetector { cached: false, last_poll_ms: None }
    }

    /// Whether the microphone must be probed again at `now_ms`.
    pub fn poll_due(&self, now_ms: u64) -> (r: bool)
        ensures
            r == spec_poll_due(self.last_poll_ms, now_ms),
    {
        match self.last_poll_ms {
            None => true,
            Some(last) => now_ms >= last && now_ms - last >= POLL_INTERVAL_MS,
        }
    }

    /// Records the result of a probe taken at `now_ms`.
    pub fn record_poll(&mut self, in_use: bool, now_ms: u64)
        ensures
            final(self).cached == in_use,
            final(self).last_poll_ms == Some(now_ms),
    {
        self.cached = in_use;
        self.last_poll_ms = Some(now_ms);
    }

    /// The answer at `now_ms`: when a probe is due, `probe` is called once
    /// and its answer is recorded with the time and returned; otherwise the
    /// cached answer is returned and `probe` is not called.
    pub fn is_active_at<F: Fn() -> bool>(&mut self, now_ms: u64, probe: F) -> (r: bool)
        requires
            probe.requires(()),
        ensures
            spec_poll_due(old(self).last_poll_ms, now_ms) ==> probe.ensures((), r)
                && final(self).cached == r && final(self).last_poll_ms == Some(now_ms),
            !spec_poll_due(old(self).last_poll_ms, now_ms) ==> r == old(self).cached
                && *final(self) == *old(self),
    {
        if self.poll_due(now_ms) {
            let result = probe();
            self.record_poll(result, now_ms);
        }
        self.cached
    }
}

impl Default for MacCallDetector {
    fn default() -> (d: MacCallDetector)
        ensures
            !d.cached,
            d.last_poll_ms is None,
    {
        MacCallDetector::new()
    }
}

} // verus!
