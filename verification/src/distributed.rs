//! The distributed decision path.
//!
//! A distributed check resolves the effective limit, aligns the window to
//! the wall clock so that all peers agree on it without coordination, forms
//! the cluster-wide counter key, and judges the total returned by the
//! cluster against the limit.  The gossip transport performs the increment
//! and the sum outside the library; everything around that call is decided
//! here.

use vstd::prelude::*;

use crate::cluster::CounterKey;
use crate::counter::TimeWindow;
use crate::descriptor::{
    spec_descriptor_entry_views, spec_string_key, DescriptorKey, RateLimitDescriptor,
};
use crate::limiter::{resolve_limit_config, spec_effective_limit, LimitConfig};
use crate::rules::{spec_opt_str_view, RateLimitConfig};
use crate::wire::{clamp_u32, spec_clamp_u32, Code, DescriptorStatus, DurationRep, RateLimit};

verus! {

/// The start of the window that the moment `now_secs` falls into: the
/// floor of the wall-clock seconds to the window duration, on which all
/// peers agree without coordination.
pub fn window_start(now_secs: u64, window: TimeWindow) -> (r: u64)
    ensures
        r == (now_secs / window.spec_duration_secs()) * window.spec_duration_secs(),
        r <= now_secs,
        now_secs - r < window.spec_duration_secs(),
{
    let ws = window.duration_secs();
    proof {
        assert((now_secs / ws) * ws <= now_secs && now_secs - (now_secs / ws) * ws < ws)
            by (nonlinear_arith)
            requires
                ws >= 1,
        ;
    }
    (now_secs / ws) * ws
}

/// Resolve everything a distributed check needs before the cluster call:
/// the effective limit and the cluster-wide counter key, whose window is
/// aligned to the wall clock.
pub fn plan_check(
    config: &RateLimitConfig,
    domain: &str,
    descriptor: &RateLimitDescriptor,
    now_secs: u64,
) -> (r: (CounterKey, LimitConfig))
    ensures
        (r.1.limit, r.1.window, spec_opt_str_view(r.1.name)) == spec_effective_limit(
            config.domains@,
            domain@,
            *descriptor,
        ),
        r.0.domain@ == domain@,
        r.0.descriptor@ == spec_string_key(
            domain@,
            spec_descriptor_entry_views(descriptor.entries@),
        ),
        r.0.window == (now_secs / r.1.window.spec_duration_secs())
            * r.1.window.spec_duration_secs(),
        r.0.window <= now_secs,
        now_secs - r.0.window < r.1.window.spec_duration_secs(),
{
    let descriptor_key = DescriptorKey::new(domain, descriptor);
    let limit_config = resolve_limit_config(config, domain, descriptor);
    let start = window_start(now_secs, limit_config.window);
    let serialized = descriptor_key.to_string_key();
    let counter_key = CounterKey::new(domain, serialized.as_str(), start);
    (counter_key, limit_config)
}

/// Judge a cluster-wide total against the effective limit: within the limit
/// exactly when the total does not exceed it, with the remaining quota and
/// the seconds until the aligned window resets.
pub fn decide_status(
    limit_config: &LimitConfig,
    window_start_secs: u64,
    now_secs: u64,
    total: u64,
) -> (r: DescriptorStatus)
    requires
        window_start_secs <= now_secs,
        now_secs - window_start_secs < limit_config.window.spec_duration_secs(),
    ensures
        r.code == (if total <= limit_config.limit {
            Code::Okay
        } else {
            Code::OverLimit
        }),
        match r.current_limit {
            Some(cl) => {
                &&& spec_opt_str_view(limit_config.name) matches Some(n) ==> cl.name@ == n
                &&& limit_config.name is None ==> cl.name@ == Seq::<char>::empty()
                &&& cl.requests_per_unit == spec_clamp_u32(limit_config.limit)
                &&& cl.unit == limit_config.window.spec_to_proto()
            },
            None => false,
        },
        r.limit_remaining == spec_clamp_u32(limit_config.limit.saturating_sub(total)),
        r.duration_until_reset == Some(
            DurationRep {
                seconds: (limit_config.window.spec_duration_secs() - (now_secs
                    - window_start_secs)) as i64,
                nanos: 0,
            },
        ),
{
    let within_limit = total <= limit_config.limit;
    let remaining = limit_config.limit.saturating_sub(total);
    let elapsed_in_window = now_secs - window_start_secs;
    let duration_until_reset = limit_config.window.duration_secs() - elapsed_in_window;
    let code = if within_limit {
        Code::Okay
    } else {
        Code::OverLimit
    };
    let name = match &limit_config.name {
        Some(n) => n.clone(),
        None => String::new(),
    };
    DescriptorStatus {
        code,
        current_limit: Some(
            RateLimit {
                name,
                requests_per_unit: clamp_u32(limit_config.limit),
                unit: limit_config.window.to_proto(),
            },
        ),
        limit_remaining: clamp_u32(remaining),
        duration_until_reset: Some(
            DurationRep { seconds: duration_until_reset as i64, nanos: 0 },
        ),
    }
}

} // verus!
