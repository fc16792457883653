use vstd::prelude::*;

verus! {

/// Refresh interval of the text display, in milliseconds.
pub const TERMINAL_INTERVAL_MS: u64 = 1000;

/// Refresh interval of the bar displays (terminal bars and OLED), in milliseconds.
pub const UPDATE_INTERVAL_MS: u64 = 100;

/// A display refreshes once the interval has passed since its last refresh,
/// provided at least one frame arrived in between.
pub open spec fn spec_refresh_due(elapsed_ms: int, interval_ms: u64, count: int) -> bool {
    elapsed_ms >= interval_ms && count > 0
}

/// Whether a display with the given refresh interval is due to refresh.
pub fn refresh_due(elapsed_ms: u64, interval_ms: u64, count: usize) -> (due: bool)
    ensures
        due == spec_refresh_due(elapsed_ms as int, interval_ms, count as int),
        due == (elapsed_ms >= interval_ms && count >= 1),
{
    elapsed_ms >= interval_ms && count > 0
}

/// Whether a bar display (refreshing every `UPDATE_INTERVAL_MS`) is due to
/// refresh, `elapsed_ms` after its last refresh with `count` frames pending.
pub fn is_time_to_update(elapsed_ms: u64, count: usize) -> (due: bool)
    ensures
        due == spec_refresh_due(elapsed_ms as int, UPDATE_INTERVAL_MS, count as int),
        due == (elapsed_ms >= 100 && count >= 1),
{
    refresh_due(elapsed_ms, UPDATE_INTERVAL_MS, count)
}

/// One frame arriving at a display with `count` frames pending: the pending
/// count after it, and the number of frames that a refresh averages, if the
/// display refreshes now.
pub open spec fn gate_step(count: nat, interval_ms: u64, elapsed_ms: int) -> (nat, Option<nat>) {
    let c = count + 1;
    if spec_refresh_due(elapsed_ms, interval_ms, c as int) {
        (0, Some(c))
    } else {
        (c, None)
    }
}

/// Frames arriving one after another, each `elapsed[i]` milliseconds after
/// the last refresh: the total number of frames the refreshes averaged, and
/// the count pending at the end.
pub open spec fn gate_run(count: nat, interval_ms: u64, elapsed: Seq<u64>) -> (nat, nat)
    decreases elapsed.len(),
{
    if elapsed.len() == 0 {
        (0, count)
    } else {
        let (next, refreshed) = gate_step(count, interval_ms, elapsed[0] as int);
        let (total, last) = gate_run(next, interval_ms, elapsed.drop_first());
        match refreshed {
            Some(n) => (n + total, last),
            None => (total, last),
        }
    }
}

/// Decides when a display refreshes, and over how many frames it averages.
pub struct RefreshGate {
    interval_ms: u64,
    count: usize,
}

impl RefreshGate {
    /// The refresh interval, in milliseconds.
    pub closed spec fn interval(&self) -> u64 {
        self.interval_ms
    }

    /// Frames that arrived since the last refresh.
    pub closed spec fn pending(&self) -> nat {
        self.count as nat
    }

    /// A gate with no pending frame.
    pub fn new(interval_ms: u64) -> (g: RefreshGate)
        ensures
            g.interval() == interval_ms,
            g.pending() == 0,
    {
        RefreshGate { interval_ms, count: 0 }
    }

    /// Frames that arrived since the last refresh.
    pub fn count(&self) -> (n: usize)
        ensures
            n == self.pending(),
    {
        self.count
    }

    /// Records a frame that arrived `elapsed_ms` after the last refresh.
    /// Returns the number of frames to average when the display refreshes
    /// now, which also clears the pending count.
    pub fn on_frame(&mut self, elapsed_ms: u64) -> (refresh: Option<usize>)
        requires
            old(self).pending() < usize::MAX,
        ensures
            final(self).interval() == old(self).interval(),
            (final(self).pending(), match refresh {
                Some(n) => Some(n as nat),
                None => None,
            }) == gate_step(old(self).pending(), old(self).interval(), elapsed_ms as int),
    {
        self.count = self.count + 1;
        if refresh_due(elapsed_ms, self.interval_ms, self.count) {
            let n = self.count;
            self.count = 0;
            Some(n)
        } else {
            None
        }
    }
}

/// Every frame is averaged by exactly one refresh or is still pending: over
/// any run of frames, the frames the refreshes averaged plus those pending at
/// the end are the frames pending at the start plus those that arrived.
pub proof fn lemma_frames_conserved(count: nat, interval_ms: u64, elapsed: Seq<u64>)
    ensures
        gate_run(count, interval_ms, elapsed).0 + gate_run(count, interval_ms, elapsed).1 == count
            + elapsed.len(),
    decreases elapsed.len(),
{
    if elapsed.len() > 0 {
        let (next, _) = gate_step(count, interval_ms, elapsed[0] as int);
        lemma_frames_conserved(next, interval_ms, elapsed.drop_first());
    }
}

/// A display never refreshes before its interval has passed, and every
/// refresh averages at least one frame.
pub proof fn lemma_refresh_needs_interval(count: nat, interval_ms: u64, elapsed_ms: int)
    ensures
        gate_step(count, interval_ms, elapsed_ms).1 matches Some(n) ==> n >= 1 && elapsed_ms
            >= interval_ms,
        elapsed_ms < interval_ms ==> gate_step(count, interval_ms, elapsed_ms) == (count + 1, None::<nat>),
{
}

/// A refresh is due exactly when the interval has passed and at least one
/// frame is pending: a single pending frame suffices, no frame never does,
/// and an interval not yet passed never does.
pub proof fn lemma_refresh_due_exactly(elapsed_ms: int, interval_ms: u64, count: int)
    ensures
        elapsed_ms >= interval_ms && count >= 1 ==> spec_refresh_due(elapsed_ms, interval_ms, count),
        count <= 0 ==> !spec_refresh_due(elapsed_ms, interval_ms, count),
        elapsed_ms < interval_ms ==> !spec_refresh_due(elapsed_ms, interval_ms, count),
        elapsed_ms >= interval_ms ==> gate_step(0, interval_ms, elapsed_ms) == (0nat, Some(1nat)),
{
}

/// The clock times at which a display refreshes when frames arrive at the
/// clock times `times` (in milliseconds), the last refresh (or the start) was
/// at `last`, and `count` frames are pending: each frame counts with the time
/// since the last refresh, and a refresh restarts that time at the frame
/// that caused it.
pub open spec fn refresh_times(count: nat, interval_ms: u64, last: int, times: Seq<int>) -> Seq<int>
    decreases times.len(),
{
    if times.len() == 0 {
        Seq::empty()
    } else {
        let t = times[0];
        match gate_step(count, interval_ms, t - last) {
            (_, Some(_)) => seq![t] + refresh_times(0, interval_ms, t, times.drop_first()),
            (next, None) => refresh_times(next, interval_ms, last, times.drop_first()),
        }
    }
}

/// Refreshes are spaced by at least the interval: for frames arriving in
/// time order, no earlier than the start, the first refresh comes at least
/// the interval after the start, each later refresh at least the interval
/// after the one before, and every refresh happens at the arrival of a frame.
pub proof fn lemma_refresh_spacing(count: nat, interval_ms: u64, last: int, times: Seq<int>)
    requires
        forall|i: int, j: int| 0 <= i <= j < times.len() ==> times[i] <= times[j],
        forall|i: int| 0 <= i < times.len() ==> last <= times[i],
    ensures
        ({
            let r = refresh_times(count, interval_ms, last, times);
            &&& r.len() <= times.len()
            &&& r.len() > 0 ==> r[0] - last >= interval_ms
            &&& forall|k: int| 0 < k < r.len() ==> #[trigger] r[k] - r[k - 1] >= interval_ms
            &&& forall|k: int| 0 <= k < r.len() ==> times.contains(#[trigger] r[k])
            &&& forall|k: int| 0 <= k < r.len() ==> last <= #[trigger] r[k]
        }),
    decreases times.len(),
{
    if times.len() > 0 {
        let t = times[0];
        let rest = times.drop_first();
        assert forall|i: int, j: int| 0 <= i <= j < rest.len() implies rest[i] <= rest[j] by {
            assert(times[i + 1] <= times[j + 1]);
        }
        let r = refresh_times(count, interval_ms, last, times);
        match gate_step(count, interval_ms, t - last) {
            (_, Some(_)) => {
                assert forall|i: int| 0 <= i < rest.len() implies t <= rest[i] by {
                    assert(times[0] <= times[i + 1]);
                }
                lemma_refresh_spacing(0, interval_ms, t, rest);
                let tail = refresh_times(0, interval_ms, t, rest);
                assert(r == seq![t] + tail);
                assert forall|k: int| 0 < k < r.len() implies #[trigger] r[k] - r[k - 1] >= interval_ms by {
                    if k == 1 {
                        assert(r[1] == tail[0]);
                    } else {
                        assert(r[k] == tail[k - 1] && r[k - 1] == tail[k - 2]);
                    }
                }
                assert forall|k: int| 0 <= k < r.len() implies times.contains(r[k]) by {
                    if k == 0 {
                        assert(times[0] == r[0]);
                    } else {
                        assert(r[k] == tail[k - 1]);
                        let j = choose|j: int| 0 <= j < rest.len() && rest[j] == tail[k - 1];
                        assert(times[j + 1] == r[k]);
                    }
                }
                assert forall|k: int| 0 <= k < r.len() implies last <= r[k] by {
                    if k > 0 {
                        assert(r[k] == tail[k - 1]);
                    }
                }
            },
            (next, None) => {
                assert forall|i: int| 0 <= i < rest.len() implies last <= rest[i] by {
                    assert(last <= times[i + 1]);
                }
                lemma_refresh_spacing(next, interval_ms, last, rest);
                let tail = refresh_times(next, interval_ms, last, rest);
                assert forall|k: int| 0 <= k < r.len() implies times.contains(r[k]) by {
                    let j = choose|j: int| 0 <= j < rest.len() && rest[j] == tail[k];
                    assert(times[j + 1] == r[k]);
                }
            },
        }
    }
}

} // verus!
