//! Plain representations of the rate limit service's wire messages.

use vstd::prelude::*;

use crate::descriptor::RateLimitDescriptor;

verus! {

/// Decision code of a rate limit check.
#[derive(Debug, Clone, Copy, PartialEq, Eq, Structural)]
pub enum Code {
    /// No decision was made.
    Unknown,
    /// The request is within the limit.
    Okay,
    /// The request is over the limit.
    OverLimit,
}

impl Code {
    /// The integer this code is sent as: 0 = unknown, 1 = OK,
    /// 2 = over limit.
    pub open spec fn spec_to_wire(&self) -> i32 {
        match self {
            Code::Unknown => 0,
            Code::Okay => 1,
            Code::OverLimit => 2,
        }
    }

    /// The integer this code is sent as.
    pub fn to_wire(&self) -> (r: i32)
        ensures
            r == self.spec_to_wire(),
    {
        match self {
            Code::Unknown => 0,
            Code::Okay => 1,
            Code::OverLimit => 2,
        }
    }
}

/// The limit a decision was made against, as reported to the caller.
#[derive(Debug)]
pub struct RateLimit {
    /// Name of the configured limit, empty when it has none.
    pub name: String,
    /// Requests allowed per unit.
    pub requests_per_unit: u32,
    /// Wire code of the time unit: 1 = second, 2 = minute, 3 = hour,
    /// 4 = day.
    pub unit: i32,
}

/// A span of time as sent on the wire: whole seconds and the nanoseconds
/// below one second.
#[derive(Debug, Clone, Copy, PartialEq, Eq, Structural)]
pub struct DurationRep {
    /// Whole seconds.
    pub seconds: i64,
    /// Nanoseconds below one second.
    pub nanos: i32,
}

impl DurationRep {
    /// Split whole nanoseconds into seconds and the remainder.
    pub fn from_nanos(total_nanos: u64) -> (r: DurationRep)
        ensures
            r.seconds == total_nanos / 1_000_000_000,
            r.nanos == total_nanos % 1_000_000_000,
    {
        DurationRep {
            seconds: (total_nanos / 1_000_000_000) as i64,
            nanos: (total_nanos % 1_000_000_000) as i32,
        }
    }
}

/// The outcome of one descriptor's rate limit check.
#[derive(Debug)]
pub struct DescriptorStatus {
    /// The decision for this descriptor.
    pub code: Code,
    /// The limit the decision was made against.
    pub current_limit: Option<RateLimit>,
    /// Requests left in the current window, clamped to 32 bits.
    pub limit_remaining: u32,
    /// Time until the current window resets.
    pub duration_until_reset: Option<DurationRep>,
}

/// A rate limit request: a domain, at least one descriptor, and how many
/// hits each descriptor counts for.
#[derive(Debug)]
pub struct RateLimitRequest {
    /// The rate limit domain.
    pub domain: String,
    /// The descriptors to check.
    pub descriptors: Vec<RateLimitDescriptor>,
    /// Hits each descriptor counts for; zero is treated as one.
    pub hits_addend: u32,
}

/// The response to a rate limit request.
#[derive(Debug)]
pub struct RateLimitResponse {
    /// Over limit as soon as any descriptor is over its limit.
    pub overall_code: Code,
    /// One status per descriptor, in request order.
    pub statuses: Vec<DescriptorStatus>,
}

/// A 64-bit count clamped into the 32-bit wire field.
pub open spec fn spec_clamp_u32(v: u64) -> u32 {
    if v > u32::MAX as u64 {
        u32::MAX
    } else {
        v as u32
    }
}

/// Clamp a 64-bit count into the 32-bit wire field.
pub fn clamp_u32(v: u64) -> (r: u32)
    ensures
        r == spec_clamp_u32(v),
{
    if v > u32::MAX as u64 {
        u32::MAX
    } else {
        v as u32
    }
}

} // verus!
