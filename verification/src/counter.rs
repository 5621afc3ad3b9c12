//! Windowed rate limit counter with epoch-based rollover.
//!
//! The counter packs the window epoch and the hit count into a single `u64`
//! cell, `[32-bit epoch | 32-bit count]`.  The epoch is derived from the time
//! elapsed since the counter's birth divided by the window duration, so a
//! stored cell whose epoch differs from the current one stands for a count of
//! zero in the current window: rollover needs no separate reset step.
//!
//! The maximum count per window is `u32::MAX`; additions saturate there.

use vstd::prelude::*;

verus! {

/// Time window over which hits are counted before the counter resets.
#[derive(Debug, Clone, Copy, PartialEq, Eq, Structural)]
pub enum TimeWindow {
    /// Per-second rate limiting
    Second,
    /// Per-minute rate limiting
    Minute,
    /// Per-hour rate limiting
    Hour,
    /// Per-day rate limiting
    Day,
}

impl TimeWindow {
    /// Duration of this window in whole seconds.
    pub open spec fn spec_duration_secs(&self) -> u64 {
        match self {
            TimeWindow::Second => 1,
            TimeWindow::Minute => 60,
            TimeWindow::Hour => 3600,
            TimeWindow::Day => 86400,
        }
    }

    /// Duration of this window in whole seconds.
    pub fn duration_secs(&self) -> (r: u64)
        ensures
            r == self.spec_duration_secs(),
    {
        match self {
            TimeWindow::Second => 1,
            TimeWindow::Minute => 60,
            TimeWindow::Hour => 3600,
            TimeWindow::Day => 86400,
        }
    }

    /// Duration of this window in whole nanoseconds.
    pub open spec fn spec_duration_nanos(&self) -> u64 {
        match self {
            TimeWindow::Second => 1_000_000_000,
            TimeWindow::Minute => 60_000_000_000,
            TimeWindow::Hour => 3_600_000_000_000,
            TimeWindow::Day => 86_400_000_000_000,
        }
    }

    /// Duration of this window in whole nanoseconds.
    pub fn duration_nanos(&self) -> (r: u64)
        ensures
            r == self.spec_duration_nanos(),
    {
        match self {
            TimeWindow::Second => 1_000_000_000,
            TimeWindow::Minute => 60_000_000_000,
            TimeWindow::Hour => 3_600_000_000_000,
            TimeWindow::Day => 86_400_000_000_000,
        }
    }

    /// Wire code produced by this window: 1 = second, 2 = minute, 3 = hour,
    /// 4 = day.
    pub open spec fn spec_to_proto(&self) -> i32 {
        match self {
            TimeWindow::Second => 1,
            TimeWindow::Minute => 2,
            TimeWindow::Hour => 3,
            TimeWindow::Day => 4,
        }
    }

    /// The window a wire code denotes; every code outside 1..=4 is unknown.
    pub open spec fn spec_from_proto(unit: i32) -> Option<TimeWindow> {
        if unit == 1 {
            Some(TimeWindow::Second)
        } else if unit == 2 {
            Some(TimeWindow::Minute)
        } else if unit == 3 {
            Some(TimeWindow::Hour)
        } else if unit == 4 {
            Some(TimeWindow::Day)
        } else {
            None
        }
    }

    /// Convert from the wire enum value.
    pub fn from_proto(unit: i32) -> (r: Option<TimeWindow>)
        ensures
            r == TimeWindow::spec_from_proto(unit),
    {
        match unit {
            1 => Some(TimeWindow::Second),
            2 => Some(TimeWindow::Minute),
            3 => Some(TimeWindow::Hour),
            4 => Some(TimeWindow::Day),
            _ => None,
        }
    }

    /// Convert to the wire enum value.
    pub fn to_proto(&self) -> (r: i32)
        ensures
            r == self.spec_to_proto(),
    {
        match self {
            TimeWindow::Second => 1,
            TimeWindow::Minute => 2,
            TimeWindow::Hour => 3,
            TimeWindow::Day => 4,
        }
    }
}

/// The epoch stored in the upper half of a packed cell.
pub open spec fn spec_epoch_of(state: u64) -> u32 {
    (state >> 32) as u32
}

/// The count stored in the lower half of a packed cell.
pub open spec fn spec_count_of(state: u64) -> u32 {
    (state & 0xFFFF_FFFF) as u32
}

/// A cell packed from an epoch and a count.
pub open spec fn spec_pack(epoch: u32, count: u32) -> u64 {
    ((epoch as u64) << 32) | (count as u64)
}

/// Unpacking a packed cell recovers the epoch and the count.
pub proof fn lemma_pack_inverse(epoch: u32, count: u32)
    ensures
        spec_epoch_of(spec_pack(epoch, count)) == epoch,
        spec_count_of(spec_pack(epoch, count)) == count,
{
    assert((((((epoch as u64) << 32) | (count as u64)) >> 32) as u32) == epoch)
        by (bit_vector);
    assert(((((epoch as u64) << 32) | (count as u64)) & 0xFFFF_FFFF) as u32 == count)
        by (bit_vector);
}

/// A zeroed cell holds epoch zero and count zero.
pub proof fn lemma_zero_state()
    ensures
        spec_epoch_of(0) == 0,
        spec_count_of(0) == 0,
{
    assert((0u64 >> 32) as u32 == 0) by (bit_vector);
    assert((0u64 & 0xFFFF_FFFF) as u32 == 0) by (bit_vector);
}

/// The window epoch that a moment `now_nanos` past the counter's birth
/// falls into.
pub open spec fn spec_epoch_at(window: TimeWindow, now_nanos: u64) -> u32 {
    (((now_nanos / window.spec_duration_nanos()) % 0x1_0000_0000) as u32)
}

/// The cell that one increment installs: if the stored epoch is current the
/// count grows by `hits`, saturating; otherwise the window has rolled over
/// and the new count is `hits` alone.
pub open spec fn spec_step(state: u64, epoch: u32, hits: u32) -> u64 {
    if spec_epoch_of(state) == epoch {
        spec_pack(epoch, spec_count_of(state).saturating_add(hits))
    } else {
        spec_pack(epoch, hits)
    }
}

/// The count a reader observes: the stored count while the stored epoch is
/// current, and zero once the window has rolled over.
pub open spec fn spec_effective_count(state: u64, epoch: u32) -> u32 {
    if spec_epoch_of(state) == epoch {
        spec_count_of(state)
    } else {
        0
    }
}

/// Relies on `std::time::Instant::now`: an opaque reading of the monotonic
/// clock, used as the counter's fixed birth instant.
#[verifier::external_type_specification]
#[verifier::external_body]
pub struct ExInstant(std::time::Instant);

/// Relies on `std::time::Instant::now` for the counter's birth instant.
#[verifier::external_body]
fn instant_now() -> std::time::Instant {
    std::time::Instant::now()
}

/// Relies on `std::time::Instant::elapsed`: the time since `start`, converted
/// to whole nanoseconds.  Nothing is assumed of the value; every caller's
/// contract holds for each possible reading.
#[verifier::external_body]
fn elapsed_nanos(start: &std::time::Instant) -> u64 {
    start.elapsed().as_nanos() as u64
}

/// A rate limit counter that tracks requests within a time window.
///
/// State transitions and decisions are exact functions of the packed cell,
/// the limit and a clock reading; the `*_at_nanos` methods take the reading
/// as an argument, and the clock-reading methods state what holds of every
/// possible reading.
pub struct RateLimitCounter {
    /// Packed cell: upper 32 bits = window epoch, lower 32 bits = count.
    pub state: u64,
    /// The limit for this counter.
    pub limit: u64,
    /// Time window for this counter.
    pub window: TimeWindow,
    /// Fixed birth instant from which window epochs are computed.
    pub epoch_start: std::time::Instant,
}

impl RateLimitCounter {
    /// Create a new counter with a zeroed cell, born now.
    pub fn new(limit: u64, window: TimeWindow) -> (r: RateLimitCounter)
        ensures
            r.state == 0,
            r.limit == limit,
            r.window == window,
    {
        RateLimitCounter { state: 0, limit, window, epoch_start: instant_now() }
    }

    /// Nanoseconds elapsed since this counter's birth.  The reading is
    /// opaque; callers learn only what holds of every possible value.
    fn now_nanos(&self) -> u64 {
        elapsed_nanos(&self.epoch_start)
    }

    /// The window epoch that `now_nanos` past the birth instant falls into.
    pub fn epoch_at(window: TimeWindow, now_nanos: u64) -> (r: u32)
        ensures
            r == spec_epoch_at(window, now_nanos),
    {
        let wn = window.duration_nanos();
        ((now_nanos / wn) % 0x1_0000_0000) as u32
    }

    /// Pack an epoch and a count into one cell.
    pub fn pack(epoch: u32, count: u32) -> (r: u64)
        ensures
            r == spec_pack(epoch, count),
    {
        ((epoch as u64) << 32) | (count as u64)
    }

    /// Unpack a cell into its epoch and count.
    pub fn unpack(state: u64) -> (r: (u32, u32))
        ensures
            r.0 == spec_epoch_of(state),
            r.1 == spec_count_of(state),
    {
        assert(state >> 32 <= 0xFFFF_FFFFu64) by (bit_vector);
        assert(state & 0xFFFF_FFFF <= 0xFFFF_FFFFu64) by (bit_vector);
        let epoch = (state >> 32) as u32;
        let count = (state & 0xFFFF_FFFF) as u32;
        (epoch, count)
    }

    /// Increment the counter as of the clock reading `now_nanos` and report
    /// whether the request is within the limit.
    pub fn increment_at_nanos(&mut self, now_nanos: u64, hits: u32) -> (r: bool)
        ensures
            final(self).state == spec_step(
                old(self).state,
                spec_epoch_at(old(self).window, now_nanos),
                hits,
            ),
            final(self).limit == old(self).limit,
            final(self).window == old(self).window,
            final(self).epoch_start == old(self).epoch_start,
            r == (spec_count_of(final(self).state) as u64 <= old(self).limit),
    {
        let current_epoch = Self::epoch_at(self.window, now_nanos);
        let (stored_epoch, count) = Self::unpack(self.state);
        let new_count = if stored_epoch == current_epoch {
            count.saturating_add(hits)
        } else {
            hits
        };
        self.state = Self::pack(current_epoch, new_count);
        proof {
            lemma_pack_inverse(current_epoch, new_count);
        }
        (new_count as u64) <= self.limit
    }

    /// Increment the counter and report whether the request is within the
    /// limit.  The clock reading is opaque, so the new count is pinned only
    /// up to the rollover alternative: it grew by `hits` within the stored
    /// window, or the window rolled over and it is `hits` alone.
    pub fn increment(&mut self, hits: u32) -> (r: bool)
        ensures
            final(self).limit == old(self).limit,
            final(self).window == old(self).window,
            final(self).epoch_start == old(self).epoch_start,
            spec_count_of(final(self).state) == spec_count_of(old(self).state).saturating_add(hits)
                || spec_count_of(final(self).state) == hits,
            r == (spec_count_of(final(self).state) as u64 <= old(self).limit),
    {
        let now = self.now_nanos();
        let r = self.increment_at_nanos(now, hits);
        proof {
            let e = spec_epoch_at(old(self).window, now);
            if spec_epoch_of(old(self).state) == e {
                lemma_pack_inverse(e, spec_count_of(old(self).state).saturating_add(hits));
            } else {
                lemma_pack_inverse(e, hits);
            }
        }
        r
    }

    /// Increment the counter and snapshot the remaining quota and the time
    /// until reset, all against one clock reading: the returned remaining
    /// quota is the limit less the count just installed, and the decision,
    /// the new count and the remainder agree with each other exactly.
    pub fn increment_snapshot(&mut self, hits: u32) -> (r: (bool, u64, u64))
        ensures
            final(self).limit == old(self).limit,
            final(self).window == old(self).window,
            final(self).epoch_start == old(self).epoch_start,
            spec_count_of(final(self).state) == spec_count_of(old(self).state).saturating_add(hits)
                || spec_count_of(final(self).state) == hits,
            r.0 == (spec_count_of(final(self).state) as u64 <= old(self).limit),
            r.1 == old(self).limit.saturating_sub(spec_count_of(final(self).state) as u64),
            1 <= r.2 <= old(self).window.spec_duration_nanos(),
    {
        let now = self.now_nanos();
        let ghost e = spec_epoch_at(self.window, now);
        let within = self.increment_at_nanos(now, hits);
        proof {
            if spec_epoch_of(old(self).state) == e {
                lemma_pack_inverse(e, spec_count_of(old(self).state).saturating_add(hits));
            } else {
                lemma_pack_inverse(e, hits);
            }
        }
        let (_, count) = Self::unpack(self.state);
        let remaining = self.limit.saturating_sub(count as u64);
        let dur = self.duration_until_reset_at_nanos(now);
        (within, remaining, dur)
    }

    /// Whether adding `hits` as of the reading `now_nanos` would exceed the
    /// limit, without incrementing.
    pub fn would_exceed_at_nanos(&self, now_nanos: u64, hits: u32) -> (r: bool)
        ensures
            r == (spec_effective_count(self.state, spec_epoch_at(self.window, now_nanos)) as u64
                + hits as u64 > self.limit),
    {
        let current_epoch = Self::epoch_at(self.window, now_nanos);
        let (stored_epoch, count) = Self::unpack(self.state);
        let effective_count: u64 = if stored_epoch == current_epoch { count as u64 } else { 0 };
        effective_count + hits as u64 > self.limit
    }

    /// Whether adding `hits` would exceed the limit, without incrementing.
    /// The clock reading is opaque: the count it is judged against is the
    /// stored count or, after a rollover, zero.
    pub fn would_exceed(&self, hits: u32) -> (r: bool)
        ensures
            r == (spec_count_of(self.state) as u64 + hits as u64 > self.limit)
                || r == (hits as u64 > self.limit),
    {
        let now = self.now_nanos();
        self.would_exceed_at_nanos(now, hits)
    }

    /// The count as of the reading `now_nanos`: zero if the window has
    /// rolled over since the last update.
    pub fn current_count_at_nanos(&self, now_nanos: u64) -> (r: u64)
        ensures
            r == spec_effective_count(self.state, spec_epoch_at(self.window, now_nanos)) as u64,
    {
        let current_epoch = Self::epoch_at(self.window, now_nanos);
        let (stored_epoch, count) = Self::unpack(self.state);
        if stored_epoch == current_epoch {
            count as u64
        } else {
            0
        }
    }

    /// The current count: the stored count or, after a rollover, zero.
    pub fn current_count(&self) -> (r: u64)
        ensures
            r == spec_count_of(self.state) as u64 || r == 0,
    {
        let now = self.now_nanos();
        self.current_count_at_nanos(now)
    }

    /// The remaining quota as of the reading `now_nanos`.
    pub fn remaining_at_nanos(&self, now_nanos: u64) -> (r: u64)
        ensures
            r == self.limit.saturating_sub(
                spec_effective_count(self.state, spec_epoch_at(self.window, now_nanos)) as u64,
            ),
    {
        let count = self.current_count_at_nanos(now_nanos);
        self.limit.saturating_sub(count)
    }

    /// The remaining quota against the stored count or, after a rollover,
    /// against a count of zero.
    pub fn remaining(&self) -> (r: u64)
        ensures
            r == self.limit.saturating_sub(spec_count_of(self.state) as u64) || r == self.limit,
    {
        let now = self.now_nanos();
        self.remaining_at_nanos(now)
    }

    /// The limit for this counter.
    pub fn limit(&self) -> (r: u64)
        ensures
            r == self.limit,
    {
        self.limit
    }

    /// The time window for this counter.
    pub fn window(&self) -> (r: TimeWindow)
        ensures
            r == self.window,
    {
        self.window
    }

    /// Nanoseconds from the reading `now_nanos` until the current window
    /// resets: the window duration less the time already spent in it.
    pub fn duration_until_reset_at_nanos(&self, now_nanos: u64) -> (r: u64)
        ensures
            r == self.window.spec_duration_nanos() - now_nanos % self.window.spec_duration_nanos(),
            1 <= r <= self.window.spec_duration_nanos(),
    {
        let wn = self.window.duration_nanos();
        wn - now_nanos % wn
    }

    /// Nanoseconds until the current window resets; at most one full window.
    pub fn duration_until_reset(&self) -> (r: u64)
        ensures
            1 <= r <= self.window.spec_duration_nanos(),
    {
        let now = self.now_nanos();
        self.duration_until_reset_at_nanos(now)
    }
}

/// The cell after a sequence of increments, all made within the window
/// epoch `epoch`.
pub open spec fn spec_apply_hits(state: u64, epoch: u32, hits: Seq<u32>) -> u64
    decreases hits.len(),
{
    if hits.len() == 0 {
        state
    } else {
        spec_apply_hits(spec_step(state, epoch, hits[0]), epoch, hits.drop_first())
    }
}

/// The exact sum of a sequence of hit amounts.
pub open spec fn spec_sum_hits(hits: Seq<u32>) -> int
    decreases hits.len(),
{
    if hits.len() == 0 {
        0
    } else {
        hits[0] + spec_sum_hits(hits.drop_first())
    }
}

/// How many of `n` one-hit increments, all within the epoch `epoch` and
/// judged against `limit`, are answered as within the limit.
pub open spec fn spec_num_accepted(state: u64, epoch: u32, n: nat, limit: u64) -> nat
    decreases n,
{
    if n == 0 {
        0
    } else {
        let next = spec_step(state, epoch, 1);
        (if spec_count_of(next) as u64 <= limit {
            1nat
        } else {
            0nat
        }) + spec_num_accepted(next, epoch, (n - 1) as nat, limit)
    }
}

proof fn lemma_accepted_bound(state: u64, epoch: u32, n: nat, limit: u64)
    requires
        spec_epoch_of(state) == epoch,
        limit < u32::MAX as u64,
    ensures
        spec_num_accepted(state, epoch, n, limit) <= if spec_count_of(state) as u64 <= limit {
            limit - spec_count_of(state) as u64
        } else {
            0
        },
    decreases n,
{
    if n > 0 {
        let c = spec_count_of(state);
        let next = spec_step(state, epoch, 1);
        lemma_pack_inverse(epoch, c.saturating_add(1));
        lemma_accepted_bound(next, epoch, (n - 1) as nat, limit);
    }
}

/// Within one window, at most `limit` one-hit increments are answered as
/// within the limit, whatever cell the counter starts from.  The bound asks
/// `limit < u32::MAX`: at the saturation ceiling the count can no longer
/// tell further hits apart.
pub proof fn lemma_window_accepts_at_most_limit(state: u64, epoch: u32, n: nat, limit: u64)
    requires
        limit < u32::MAX as u64,
    ensures
        spec_num_accepted(state, epoch, n, limit) <= limit,
    decreases n,
{
    if n > 0 {
        let next = spec_step(state, epoch, 1);
        if spec_epoch_of(state) == epoch {
            lemma_accepted_bound(state, epoch, n, limit);
        } else {
            lemma_pack_inverse(epoch, 1);
            lemma_accepted_bound(next, epoch, (n - 1) as nat, limit);
        }
    }
}

/// Starting from a count of zero within the epoch `epoch`, a sequence of
/// increments leaves the count at the sum of the hits, saturating at
/// `u32::MAX`; the stored epoch stays `epoch`.
pub proof fn lemma_count_is_saturated_sum(state: u64, epoch: u32, hits: Seq<u32>)
    requires
        spec_epoch_of(state) == epoch,
    ensures
        spec_epoch_of(spec_apply_hits(state, epoch, hits)) == epoch,
        spec_count_of(spec_apply_hits(state, epoch, hits)) as int == if spec_count_of(state)
            + spec_sum_hits(hits) > u32::MAX {
            u32::MAX as int
        } else {
            spec_count_of(state) + spec_sum_hits(hits)
        },
    decreases hits.len(),
{
    lemma_sum_hits_nonneg(hits);
    if hits.len() > 0 {
        let next = spec_step(state, epoch, hits[0]);
        lemma_pack_inverse(epoch, spec_count_of(state).saturating_add(hits[0]));
        lemma_sum_hits_nonneg(hits.drop_first());
        lemma_count_is_saturated_sum(next, epoch, hits.drop_first());
    }
}

proof fn lemma_sum_hits_nonneg(hits: Seq<u32>)
    ensures
        spec_sum_hits(hits) >= 0,
    decreases hits.len(),
{
    if hits.len() > 0 {
        lemma_sum_hits_nonneg(hits.drop_first());
    }
}

/// One increment counts at least its own hits: with a limit of zero every
/// increment of one or more hits is answered as over the limit.
pub proof fn lemma_zero_limit_rejects(state: u64, epoch: u32, hits: u32)
    requires
        hits >= 1,
    ensures
        spec_count_of(spec_step(state, epoch, hits)) >= hits,
        !(spec_count_of(spec_step(state, epoch, hits)) as u64 <= 0),
{
    if spec_epoch_of(state) == epoch {
        lemma_pack_inverse(epoch, spec_count_of(state).saturating_add(hits));
    } else {
        lemma_pack_inverse(epoch, hits);
    }
}

/// Once a full window has passed since the counter's birth, a cell still
/// carrying the birth epoch stands for a count of zero.  The reading must
/// stay below `2^32` windows, where the 32-bit epoch wraps around.
pub proof fn lemma_window_rollover_resets(state: u64, window: TimeWindow, now_nanos: u64)
    requires
        spec_epoch_of(state) == 0,
        now_nanos >= window.spec_duration_nanos(),
        (now_nanos as int) < (window.spec_duration_nanos() as int) * 0x1_0000_0000,
    ensures
        spec_effective_count(state, spec_epoch_at(window, now_nanos)) == 0,
{
    let wn = window.spec_duration_nanos();
    assert(now_nanos / wn >= 1) by (nonlinear_arith)
        requires
            now_nanos >= wn,
            wn >= 1,
    ;
    assert(now_nanos / wn < 0x1_0000_0000) by (nonlinear_arith)
        requires
            (now_nanos as int) < (wn as int) * 0x1_0000_0000,
            wn >= 1,
    ;
}

} // verus!
