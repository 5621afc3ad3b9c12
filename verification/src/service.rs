//! The rate limit service facade: validates a request, checks each
//! descriptor against the active limiter, and aggregates the statuses into
//! one decision.

use vstd::prelude::*;

use crate::backend::RateLimiterBackend;
use crate::wire::{Code, DescriptorStatus, RateLimitRequest, RateLimitResponse};

verus! {

/// A request the service refuses.
#[derive(Debug)]
pub enum ServiceError {
    /// The request is malformed: an empty domain or no descriptors.
    InvalidArgument(String),
}

/// The rate limit service over a limiter backend.
pub struct RateLimitServiceImpl<R: RateLimiterBackend> {
    /// The rate limiter answering each descriptor's check.
    pub rate_limiter: R,
}

impl<R: RateLimiterBackend> RateLimitServiceImpl<R> {
    /// Create a service over the given rate limiter.
    pub fn new(rate_limiter: R) -> (r: Self)
        ensures
            r.rate_limiter == rate_limiter,
    {
        RateLimitServiceImpl { rate_limiter }
    }

    /// Decide whether rate limiting should take place.
    ///
    /// A request with an empty domain or no descriptors is refused as
    /// invalid, and only such a request is.  Otherwise every descriptor is
    /// checked in order, counting the request's hits (zero counts as one),
    /// and the overall code is over limit exactly when some descriptor's
    /// status is.
    pub fn should_rate_limit(&mut self, request: &RateLimitRequest) -> (r: Result<
        RateLimitResponse,
        ServiceError,
    >)
        requires
            old(self).rate_limiter.backend_wf(),
        ensures
            final(self).rate_limiter.backend_wf(),
            r is Err <==> (request.domain@.len() == 0 || request.descriptors@.len() == 0),
            match r {
                Result::Ok(resp) => {
                    &&& resp.statuses@.len() == request.descriptors@.len()
                    &&& forall|i: int|
                        0 <= i < resp.statuses@.len() ==> (#[trigger] resp.statuses@[i]).code
                            == Code::Okay || resp.statuses@[i].code == Code::OverLimit
                    &&& (resp.overall_code == Code::OverLimit <==> exists|i: int|
                        0 <= i < resp.statuses@.len() && (#[trigger] resp.statuses@[i]).code
                            == Code::OverLimit)
                    &&& (resp.overall_code == Code::Okay || resp.overall_code == Code::OverLimit)
                },
                Result::Err(e) => e is InvalidArgument,
            },
    {
        if request.domain.as_str().is_empty() {
            return Err(ServiceError::InvalidArgument("domain is required".to_owned()));
        }
        if request.descriptors.len() == 0 {
            return Err(
                ServiceError::InvalidArgument("at least one descriptor is required".to_owned()),
            );
        }
        let hits: u32 = if request.hits_addend == 0 {
            1
        } else {
            request.hits_addend
        };
        let mut statuses: Vec<DescriptorStatus> = Vec::new();
        let mut over = false;
        let mut i: usize = 0;
        while i < request.descriptors.len()
            invariant
                0 <= i <= request.descriptors@.len(),
                statuses@.len() == i,
                self.rate_limiter.backend_wf(),
                forall|j: int|
                    0 <= j < i ==> (#[trigger] statuses@[j]).code == Code::Okay
                        || statuses@[j].code == Code::OverLimit,
                over <==> exists|j: int|
                    0 <= j < i && (#[trigger] statuses@[j]).code == Code::OverLimit,
            decreases request.descriptors@.len() - i,
        {
            let status = self.rate_limiter.check_rate_limit(
                request.domain.as_str(),
                &request.descriptors[i],
                hits,
            );
            let ghost old_statuses = statuses@;
            if status.code == Code::OverLimit {
                over = true;
            }
            statuses.push(status);
            proof {
                assert(statuses@.last().code == status.code);
                assert forall|j: int| 0 <= j < old_statuses.len() implies statuses@[j]
                    == old_statuses[j] by {}
                if over && !(exists|j: int|
                    0 <= j < old_statuses.len() && (#[trigger] old_statuses[j]).code
                        == Code::OverLimit) {
                    assert(statuses@[statuses@.len() - 1].code == Code::OverLimit);
                }
            }
            i = i + 1;
        }
        let overall_code = if over {
            Code::OverLimit
        } else {
            Code::Okay
        };
        Ok(RateLimitResponse { overall_code, statuses })
    }
}

} // verus!
