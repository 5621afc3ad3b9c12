//! The local rate limiter: counters per descriptor key, limits resolved
//! from the configured rules, the descriptor's inline override, or the
//! default of 1000 requests per second.

use vstd::prelude::*;

use crate::counter::{spec_count_of, RateLimitCounter, TimeWindow};
use crate::descriptor::{spec_descriptor_entry_views, DescriptorKey, RateLimitDescriptor};
use crate::rules::{
    spec_config_find_limit, spec_opt_str_view, spec_window_of_unit, RateLimitConfig,
};
use crate::wire::{clamp_u32, spec_clamp_u32, Code, DescriptorStatus, DurationRep, RateLimit};

verus! {

/// Limit applied when no rule matches and no override is carried.
pub const DEFAULT_LIMIT: u64 = 1000;

/// The effective limit of one rate limit decision.
#[derive(Debug)]
pub struct LimitConfig {
    /// Maximum requests allowed in the time window.
    pub limit: u64,
    /// Time window for the limit.
    pub window: TimeWindow,
    /// Name of this limit, if the rule carries one.
    pub name: Option<String>,
}

impl Default for LimitConfig {
    /// The default limit: 1000 requests per second, unnamed.
    fn default() -> (r: Self)
        ensures
            r.limit == DEFAULT_LIMIT,
            r.window == TimeWindow::Second,
            r.name is None,
    {
        LimitConfig { limit: DEFAULT_LIMIT, window: TimeWindow::Second, name: None }
    }
}

/// The window an override's wire code denotes; unknown codes fall back to
/// the second window.
pub open spec fn spec_window_or_second(unit: i32) -> TimeWindow {
    match TimeWindow::spec_from_proto(unit) {
        Some(w) => w,
        None => TimeWindow::Second,
    }
}

/// The effective limit for a domain and descriptor, as (limit, window,
/// name): the descriptor's inline override when it carries one, else the
/// configured rule the tree selects, else the default.
pub open spec fn spec_effective_limit(
    domains: Seq<(String, crate::rules::DomainConfig)>,
    domain: Seq<char>,
    descriptor: RateLimitDescriptor,
) -> (u64, TimeWindow, Option<Seq<char>>) {
    match descriptor.limit {
        Some(ov) => (ov.requests_per_unit as u64, spec_window_or_second(ov.unit), None),
        None => match spec_config_find_limit(domains, domain, descriptor.entries@) {
            Some(rule) => (
                rule.requests_per_unit,
                spec_window_of_unit(rule.unit),
                spec_opt_str_view(rule.name),
            ),
            None => (DEFAULT_LIMIT, TimeWindow::Second, None),
        },
    }
}

/// Resolve the effective limit for a domain and descriptor: the inline
/// override wins over the configured rules, which win over the default.
pub fn resolve_limit_config(
    config: &RateLimitConfig,
    domain: &str,
    descriptor: &RateLimitDescriptor,
) -> (r: LimitConfig)
    ensures
        (r.limit, r.window, spec_opt_str_view(r.name)) == spec_effective_limit(
            config.domains@,
            domain@,
            *descriptor,
        ),
{
    if let Some(ov) = &descriptor.limit {
        let window = match TimeWindow::from_proto(ov.unit) {
            Some(w) => w,
            None => TimeWindow::Second,
        };
        return LimitConfig { limit: ov.requests_per_unit as u64, window, name: None };
    }
    match config.find_limit(domain, descriptor) {
        Some(rule) => {
            let name = match &rule.name {
                Some(n) => Some(n.clone()),
                None => None,
            };
            LimitConfig {
                limit: rule.requests_per_unit,
                window: TimeWindow::from(rule.unit),
                name,
            }
        },
        None => LimitConfig::default(),
    }
}

/// The identity a counter is looked up under.
pub open spec fn spec_key_id(domain: Seq<char>, descriptor: RateLimitDescriptor) -> (
    Seq<char>,
    Seq<(Seq<char>, Seq<char>)>,
) {
    (domain, spec_descriptor_entry_views(descriptor.entries@))
}

/// The index of the first counter stored under an identity.
pub open spec fn spec_find_counter(
    counters: Seq<(DescriptorKey, RateLimitCounter)>,
    id: (Seq<char>, Seq<(Seq<char>, Seq<char>)>),
) -> Option<int>
    decreases counters.len(),
{
    if counters.len() == 0 {
        None
    } else if counters[0].0.spec_identity() == id {
        Some(0)
    } else {
        match spec_find_counter(counters.drop_first(), id) {
            Some(i) => Some(i + 1),
            None => None,
        }
    }
}

/// What the found index means: the counter there carries the identity and
/// no earlier one does; absence means no counter carries it.
pub proof fn lemma_find_counter_properties(
    counters: Seq<(DescriptorKey, RateLimitCounter)>,
    id: (Seq<char>, Seq<(Seq<char>, Seq<char>)>),
)
    ensures
        match spec_find_counter(counters, id) {
            Some(i) => 0 <= i < counters.len() && counters[i].0.spec_identity() == id && forall|
                j: int,
            | 0 <= j < i ==> (#[trigger] counters[j]).0.spec_identity() != id,
            None => forall|j: int|
                0 <= j < counters.len() ==> (#[trigger] counters[j]).0.spec_identity() != id,
        },
    decreases counters.len(),
{
    if counters.len() > 0 && counters[0].0.spec_identity() != id {
        let t = counters.drop_first();
        lemma_find_counter_properties(t, id);
        match spec_find_counter(t, id) {
            Some(i) => {
                assert(counters[i + 1] == t[i]);
                assert forall|j: int| 0 <= j < i + 1 implies (
                #[trigger] counters[j]).0.spec_identity() != id by {
                    if j >= 1 {
                        assert(t[j - 1] == counters[j]);
                    }
                }
            },
            None => {
                assert forall|j: int| 0 <= j < counters.len() implies (
                #[trigger] counters[j]).0.spec_identity() != id by {
                    if j >= 1 {
                        assert(t[j - 1] == counters[j]);
                    }
                }
            },
        }
    }
}

/// The found index is determined by those properties.
pub proof fn lemma_find_counter_unique(
    counters: Seq<(DescriptorKey, RateLimitCounter)>,
    id: (Seq<char>, Seq<(Seq<char>, Seq<char>)>),
    i: int,
)
    requires
        0 <= i < counters.len(),
        counters[i].0.spec_identity() == id,
        forall|j: int| 0 <= j < i ==> (#[trigger] counters[j]).0.spec_identity() != id,
    ensures
        spec_find_counter(counters, id) == Some(i),
    decreases counters.len(),
{
    if counters[0].0.spec_identity() != id {
        let t = counters.drop_first();
        assert(t[i - 1] == counters[i]);
        assert forall|j: int| 0 <= j < i - 1 implies (#[trigger] t[j]).0.spec_identity() != id by {
            assert(t[j] == counters[j + 1]);
        }
        lemma_find_counter_unique(t, id, i - 1);
    }
}

/// Whether a status reports a decision correctly for a count of `count`
/// against `limit` over `window`: OK exactly when the count stays within
/// the limit, the limit echoed unnamed, the remainder clamped to 32 bits,
/// and a reset delay within one window.
pub open spec fn spec_status_matches(
    r: DescriptorStatus,
    limit: u64,
    window: TimeWindow,
    count: u32,
) -> bool {
    &&& r.code == (if count as u64 <= limit {
        Code::Okay
    } else {
        Code::OverLimit
    })
    &&& match r.current_limit {
        Some(cl) => cl.name@ == Seq::<char>::empty() && cl.requests_per_unit == spec_clamp_u32(
            limit,
        ) && cl.unit == window.spec_to_proto(),
        None => false,
    }
    &&& r.limit_remaining == spec_clamp_u32(limit.saturating_sub(count as u64))
    &&& match r.duration_until_reset {
        Some(d) => 0 <= d.seconds <= window.spec_duration_secs() && 0 <= d.nanos < 1_000_000_000,
        None => false,
    }
}

/// The local rate limiter: one windowed counter per descriptor key, plus
/// the configured rules.
pub struct RateLimiter {
    /// Rate limit counters, each under its descriptor key; no identity is
    /// stored twice.
    pub counters: Vec<(DescriptorKey, RateLimitCounter)>,
    /// Configured rate limits.
    pub config: RateLimitConfig,
}

impl RateLimiter {
    /// No two counters are stored under one identity.
    pub open spec fn wf(&self) -> bool {
        forall|p: int, q: int|
            0 <= p < q < self.counters@.len() ==> (#[trigger] self.counters@[p]).0.spec_identity()
                != (#[trigger] self.counters@[q]).0.spec_identity()
    }

    /// Create a rate limiter with no counters and an empty configuration.
    pub fn new() -> (r: RateLimiter)
        ensures
            r.wf(),
            r.counters@.len() == 0,
            r.config.domains@.len() == 0,
            r.config.wf(),
    {
        RateLimiter { counters: Vec::new(), config: RateLimitConfig::new() }
    }

    /// Create a rate limiter with the given configuration.
    pub fn with_config(config: RateLimitConfig) -> (r: RateLimiter)
        ensures
            r.wf(),
            r.counters@.len() == 0,
            r.config == config,
    {
        RateLimiter { counters: Vec::new(), config }
    }

    /// Replace the configuration.  Existing counters keep their state and
    /// their old limits; new descriptors use the new configuration.
    pub fn set_config(&mut self, config: RateLimitConfig)
        ensures
            final(self).config == config,
            final(self).counters == old(self).counters,
    {
        self.config = config;
    }

    /// The current configuration.
    pub fn config(&self) -> (r: &RateLimitConfig)
        ensures
            r == &self.config,
    {
        &self.config
    }

    /// The index of the counter stored under a key's identity.
    fn find_index(&self, key: &DescriptorKey) -> (r: Option<usize>)
        ensures
            match r {
                Some(i) => spec_find_counter(self.counters@, key.spec_identity()) == Some(
                    i as int,
                ),
                None => spec_find_counter(self.counters@, key.spec_identity()) is None,
            },
    {
        let mut j: usize = 0;
        while j < self.counters.len()
            invariant
                0 <= j <= self.counters@.len(),
                forall|p: int|
                    0 <= p < j ==> (#[trigger] self.counters@[p]).0.spec_identity()
                        != key.spec_identity(),
            decreases self.counters@.len() - j,
        {
            if self.counters[j].0 == *key {
                proof {
                    lemma_find_counter_unique(self.counters@, key.spec_identity(), j as int);
                }
                return Some(j);
            }
            j = j + 1;
        }
        proof {
            lemma_find_counter_properties(self.counters@, key.spec_identity());
            if spec_find_counter(self.counters@, key.spec_identity()) is Some {
                let k = spec_find_counter(self.counters@, key.spec_identity())->Some_0;
                assert(self.counters@[k].0.spec_identity() != key.spec_identity());
            }
        }
        None
    }

    /// Check the rate limit for a domain and descriptor, counting `hits`
    /// against it (zero hits count as one).  The counter under the key is
    /// created on first sight with the effective limit; it is incremented,
    /// and the status reports the decision against that counter's limit
    /// exactly: OK if and only if the count after the increment stays
    /// within it.
    pub fn check_rate_limit(
        &mut self,
        domain: &str,
        descriptor: &RateLimitDescriptor,
        hits: u32,
    ) -> (r: DescriptorStatus)
        requires
            old(self).wf(),
        ensures
            final(self).wf(),
            final(self).config == old(self).config,
            ({
                let id = spec_key_id(domain@, *descriptor);
                let h: u32 = if hits == 0 {
                    1
                } else {
                    hits
                };
                match spec_find_counter(old(self).counters@, id) {
                    Some(i) => {
                        let cnew = final(self).counters@[i].1;
                        let cold = old(self).counters@[i].1;
                        &&& final(self).counters@.len() == old(self).counters@.len()
                        &&& forall|j: int|
                            0 <= j < old(self).counters@.len() && j != i
                                ==> final(self).counters@[j] == old(self).counters@[j]
                        &&& final(self).counters@[i].0 == old(self).counters@[i].0
                        &&& cnew.limit == cold.limit
                        &&& cnew.window == cold.window
                        &&& (spec_count_of(cnew.state) == spec_count_of(cold.state).saturating_add(
                            h,
                        ) || spec_count_of(cnew.state) == h)
                        &&& spec_status_matches(r, cold.limit, cold.window, spec_count_of(
                            cnew.state,
                        ))
                    },
                    None => {
                        let eff = spec_effective_limit(
                            old(self).config.domains@,
                            domain@,
                            *descriptor,
                        );
                        let added = final(self).counters@.last();
                        &&& final(self).counters@.len() == old(self).counters@.len() + 1
                        &&& forall|j: int|
                            0 <= j < old(self).counters@.len()
                                ==> final(self).counters@[j] == old(self).counters@[j]
                        &&& added.0.spec_identity() == id
                        &&& added.1.limit == eff.0
                        &&& added.1.window == eff.1
                        &&& spec_count_of(added.1.state) == h
                        &&& spec_status_matches(r, eff.0, eff.1, h)
                    },
                }
            }),
    {
        let key = DescriptorKey::new(domain, descriptor);
        let h: u32 = if hits == 0 {
            1
        } else {
            hits
        };
        let ghost id = spec_key_id(domain@, *descriptor);
        assert(key.spec_identity() == id);
        let idx: usize;
        match self.find_index(&key) {
            Some(i) => {
                proof {
                    lemma_find_counter_properties(self.counters@, id);
                }
                idx = i;
            },
            None => {
                proof {
                    lemma_find_counter_properties(self.counters@, id);
                }
                let lc = resolve_limit_config(&self.config, domain, descriptor);
                let counter = RateLimitCounter::new(lc.limit, lc.window);
                proof {
                    crate::counter::lemma_zero_state();
                }
                idx = self.counters.len();
                self.counters.push((key, counter));
                assert forall|p: int, q: int|
                    0 <= p < q < self.counters@.len() implies (
                #[trigger] self.counters@[p]).0.spec_identity() != (
                #[trigger] self.counters@[q]).0.spec_identity() by {
                    if q < self.counters@.len() - 1 {
                        assert(self.counters@[p] == old(self).counters@[p]);
                        assert(self.counters@[q] == old(self).counters@[q]);
                        assert((old(self).counters@[p]).0.spec_identity() != (old(
                            self,
                        ).counters@[q]).0.spec_identity());
                    } else {
                        assert(self.counters@[p] == old(self).counters@[p]);
                        assert(old(self).counters@[p].0.spec_identity() != id);
                        assert(self.counters@[q].0.spec_identity() == id);
                    }
                }
            },
        }
        let ghost mid = self.counters@;
        assert(forall|p: int, q: int|
            0 <= p < q < mid.len() ==> (#[trigger] mid[p]).0.spec_identity() != (
            #[trigger] mid[q]).0.spec_identity());
        let pair = &mut self.counters[idx];
        let (within, remaining, dur_nanos) = pair.1.increment_snapshot(h);
        let limit = pair.1.limit();
        let window = pair.1.window();
        let unit = window.to_proto();
        let code = if within {
            Code::Okay
        } else {
            Code::OverLimit
        };
        let status = DescriptorStatus {
            code,
            current_limit: Some(
                RateLimit { name: String::new(), requests_per_unit: clamp_u32(limit), unit },
            ),
            limit_remaining: clamp_u32(remaining),
            duration_until_reset: Some(DurationRep::from_nanos(dur_nanos)),
        };
        proof {
            let wn = self.counters@[idx as int].1.window.spec_duration_nanos();
            assert(wn / 1_000_000_000 == self.counters@[idx as int].1.window.spec_duration_secs());
            assert(dur_nanos / 1_000_000_000 <= wn / 1_000_000_000) by (nonlinear_arith)
                requires
                    dur_nanos <= wn,
            ;
            assert forall|p: int, q: int|
                0 <= p < q < self.counters@.len() implies (
            #[trigger] self.counters@[p]).0.spec_identity() != (
            #[trigger] self.counters@[q]).0.spec_identity() by {
                assert(self.counters@[p].0 == mid[p].0);
                assert(self.counters@[q].0 == mid[q].0);
                assert(mid[p].0.spec_identity() != mid[q].0.spec_identity());
            }
        }
        status
    }

    /// The count the counter under a key currently reports: the stored
    /// count or, after a window rollover, zero; `None` when no counter
    /// exists for the key.
    pub fn get_counter_value(&self, domain: &str, descriptor: &RateLimitDescriptor) -> (r: Option<
        u64,
    >)
        ensures
            match spec_find_counter(self.counters@, spec_key_id(domain@, *descriptor)) {
                Some(i) => r == Some(spec_count_of(self.counters@[i].1.state) as u64) || r == Some(
                    0u64,
                ),
                None => r is None,
            },
    {
        let key = DescriptorKey::new(domain, descriptor);
        match self.find_index(&key) {
            Some(i) => {
                proof {
                    lemma_find_counter_properties(self.counters@, key.spec_identity());
                }
                Some(self.counters[i].1.current_count())
            },
            None => None,
        }
    }

    /// Drop all counters.
    pub fn clear(&mut self)
        ensures
            final(self).wf(),
            final(self).counters@.len() == 0,
            final(self).config == old(self).config,
    {
        self.counters = Vec::new();
    }

    /// The number of active counters.
    pub fn counter_count(&self) -> (r: usize)
        ensures
            r == self.counters@.len(),
    {
        self.counters.len()
    }
}

impl Default for RateLimiter {
    /// A rate limiter with no counters and an empty configuration.
    fn default() -> (r: Self)
        ensures
            r.wf(),
            r.counters@.len() == 0,
            r.config.domains@.len() == 0,
    {
        RateLimiter::new()
    }
}

} // verus!
