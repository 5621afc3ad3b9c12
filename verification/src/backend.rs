//! The rate limiter capability: one shape of answer for the local and the
//! distributed limiter, so the request facade works with either.

use vstd::prelude::*;

use crate::descriptor::RateLimitDescriptor;
use crate::limiter::RateLimiter;
use crate::wire::{Code, DescriptorStatus};

verus! {

/// A rate limiter backend answers one descriptor's check with a decided
/// status.  The distributed limiter implements this outside the library,
/// over the gossip transport; the facade's own guarantees hold for every
/// implementation.
pub trait RateLimiterBackend: Sized {
    /// The backend's own well-formedness, preserved across checks.
    spec fn backend_wf(&self) -> bool;

    /// Check the rate limit for a domain and descriptor, counting `hits`
    /// against it.  The answer is always a decision: OK or over limit.
    fn check_rate_limit(
        &mut self,
        domain: &str,
        descriptor: &RateLimitDescriptor,
        hits: u32,
    ) -> (r: DescriptorStatus)
        requires
            old(self).backend_wf(),
        ensures
            final(self).backend_wf(),
            r.code == Code::Okay || r.code == Code::OverLimit,
    ;
}

impl RateLimiterBackend for RateLimiter {
    open spec fn backend_wf(&self) -> bool {
        self.wf()
    }

    fn check_rate_limit(
        &mut self,
        domain: &str,
        descriptor: &RateLimitDescriptor,
        hits: u32,
    ) -> (r: DescriptorStatus) {
        RateLimiter::check_rate_limit(self, domain, descriptor, hits)
    }
}

} // verus!
