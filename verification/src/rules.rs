//! Rate limit rules and hierarchical descriptor matching.
//!
//! Rules form a tree per domain.  A descriptor's entries are walked against
//! the tree index by index: a node matches an entry when its key equals the
//! entry key and its value, if set, equals the entry value.  Deeper matches
//! take precedence; among candidates at one level the last declared wins.

use vstd::prelude::*;

use crate::counter::TimeWindow;
use crate::descriptor::{Entry, RateLimitDescriptor};

verus! {

/// Time unit of a configured rule.
#[derive(Debug, Clone, Copy, PartialEq, Eq, Structural)]
pub enum TimeUnit {
    /// One second
    Second,
    /// One minute
    Minute,
    /// One hour
    Hour,
    /// One day
    Day,
}

/// The window a time unit denotes.
pub open spec fn spec_window_of_unit(unit: TimeUnit) -> TimeWindow {
    match unit {
        TimeUnit::Second => TimeWindow::Second,
        TimeUnit::Minute => TimeWindow::Minute,
        TimeUnit::Hour => TimeWindow::Hour,
        TimeUnit::Day => TimeWindow::Day,
    }
}

impl From<TimeUnit> for TimeWindow {
    /// Each unit maps to the window of the same duration.
    fn from(unit: TimeUnit) -> (r: TimeWindow) {
        match unit {
            TimeUnit::Second => TimeWindow::Second,
            TimeUnit::Minute => TimeWindow::Minute,
            TimeUnit::Hour => TimeWindow::Hour,
            TimeUnit::Day => TimeWindow::Day,
        }
    }
}

impl vstd::std_specs::convert::FromSpecImpl<TimeUnit> for TimeWindow {
    open spec fn obeys_from_spec() -> bool {
        true
    }

    open spec fn from_spec(unit: TimeUnit) -> TimeWindow {
        spec_window_of_unit(unit)
    }
}

/// A configured rate limit: so many requests per time unit, optionally
/// named.
#[derive(Debug)]
pub struct RateLimitRule {
    /// Number of requests allowed per unit of time.
    pub requests_per_unit: u64,
    /// The time unit.
    pub unit: TimeUnit,
    /// Optional name for this limit.
    pub name: Option<String>,
}

/// The view of an optional string.
pub open spec fn spec_opt_str_view(o: Option<String>) -> Option<Seq<char>> {
    match o {
        Some(s) => Some(s@),
        None => None,
    }
}

impl Clone for RateLimitRule {
    /// A clone carries the same limit, unit and name.
    fn clone(&self) -> (r: Self)
        ensures
            r.requests_per_unit == self.requests_per_unit,
            r.unit == self.unit,
            spec_opt_str_view(r.name) == spec_opt_str_view(self.name),
    {
        let name = match &self.name {
            Some(n) => Some(n.clone()),
            None => None,
        };
        RateLimitRule { requests_per_unit: self.requests_per_unit, unit: self.unit, name }
    }
}

/// One node of a domain's rule tree.  A node with no value matches any
/// value for its key; a node may carry a rule and child nodes for more
/// specific matching.
#[derive(Debug)]
pub struct DescriptorConfig {
    /// The key to match.
    pub key: String,
    /// Optional value to match; absent means any value matches.
    pub value: Option<String>,
    /// Rate limit applied at this level.
    pub rate_limit: Option<RateLimitRule>,
    /// Child nodes for more specific matching.
    pub descriptors: Vec<DescriptorConfig>,
}

/// Configuration of a single rate limit domain.
#[derive(Debug)]
pub struct DomainConfig {
    /// The domain name.
    pub domain: String,
    /// The roots of the domain's rule tree.
    pub descriptors: Vec<DescriptorConfig>,
}

/// Whether a tree node matches a descriptor entry.
pub open spec fn spec_entry_matches(config: DescriptorConfig, entry: Entry) -> bool {
    config.key@ == entry.key@ && match config.value {
        Some(v) => v@ == entry.value@,
        None => true,
    }
}

/// The rule selected by scanning `configs` against the entry at index `i`,
/// carrying the best candidate seen so far.  A matching node first tries its
/// children on the next entry and returns any rule found there; otherwise
/// its own rule, if any, replaces the candidate, so among candidates at one
/// level the last declared wins.
pub open spec fn spec_find_scan(
    configs: Seq<DescriptorConfig>,
    entries: Seq<Entry>,
    i: int,
    best: Option<RateLimitRule>,
) -> Option<RateLimitRule>
    decreases entries.len() - i, configs.len(),
        when 0 <= i < entries.len()
{
    if configs.len() == 0 {
        best
    } else {
        let c = configs[0];
        if spec_entry_matches(c, entries[i]) {
            let child = if i + 1 < entries.len() {
                spec_find_scan(c.descriptors@, entries, i + 1, None)
            } else {
                None
            };
            match child {
                Some(r) => Some(r),
                None => spec_find_scan(
                    configs.drop_first(),
                    entries,
                    i,
                    if c.rate_limit is Some {
                        c.rate_limit
                    } else {
                        best
                    },
                ),
            }
        } else {
            spec_find_scan(configs.drop_first(), entries, i, best)
        }
    }
}

/// The rule a domain's tree selects for a descriptor's entries: none when
/// the entries are exhausted at entry.
pub open spec fn spec_find_limit(
    configs: Seq<DescriptorConfig>,
    entries: Seq<Entry>,
    i: int,
) -> Option<RateLimitRule> {
    if 0 <= i < entries.len() {
        spec_find_scan(configs, entries, i, None)
    } else {
        None
    }
}

/// The value an optional rule reference denotes.
pub open spec fn spec_opt_rule(o: Option<&RateLimitRule>) -> Option<RateLimitRule> {
    match o {
        Some(r) => Some(*r),
        None => None,
    }
}

impl DomainConfig {
    /// Find the matching rate limit rule for a descriptor.
    pub fn find_limit<'a>(&'a self, descriptor: &RateLimitDescriptor) -> (r: Option<
        &'a RateLimitRule,
    >)
        ensures
            spec_opt_rule(r) == spec_find_limit(self.descriptors@, descriptor.entries@, 0),
    {
        Self::find_limit_in_descriptors(&self.descriptors, &descriptor.entries, 0)
    }

    /// Recursively find a matching rule in the tree, starting at the entry
    /// with index `entry_index`.
    pub fn find_limit_in_descriptors<'a>(
        configs: &'a Vec<DescriptorConfig>,
        entries: &Vec<Entry>,
        entry_index: usize,
    ) -> (r: Option<&'a RateLimitRule>)
        ensures
            spec_opt_rule(r) == spec_find_limit(configs@, entries@, entry_index as int),
        decreases entries@.len() - entry_index,
    {
        if entry_index >= entries.len() {
            return None;
        }
        let ghost i = entry_index as int;
        let entry = &entries[entry_index];
        let mut best: Option<&'a RateLimitRule> = None;
        let mut j: usize = 0;
        proof {
            assert(configs@.skip(0) =~= configs@);
        }
        while j < configs.len()
            invariant
                0 <= j <= configs@.len(),
                0 <= i < entries@.len(),
                i == entry_index as int,
                entry == &entries@[i],
                entries@.len() <= usize::MAX,
                spec_find_scan(configs@, entries@, i, None) == spec_find_scan(
                    configs@.skip(j as int),
                    entries@,
                    i,
                    spec_opt_rule(best),
                ),
            decreases configs@.len() - j,
        {
            let config = &configs[j];
            proof {
                assert(configs@.skip(j as int)[0] == configs@[j as int]);
                assert(configs@.skip(j as int).drop_first() =~= configs@.skip(j as int + 1));
            }
            let key_matches = config.key == entry.key;
            let value_matches = match &config.value {
                Some(v) => *v == entry.value,
                None => true,
            };
            if key_matches && value_matches {
                assert(spec_entry_matches(configs@[j as int], entries@[i]));
                if entry_index + 1 < entries.len() && config.descriptors.len() > 0 {
                    let child = Self::find_limit_in_descriptors(
                        &config.descriptors,
                        entries,
                        entry_index + 1,
                    );
                    match child {
                        Some(rule) => {
                            return Some(rule);
                        },
                        None => {},
                    }
                }
                proof {
                    if i + 1 < entries@.len() && configs@[j as int].descriptors@.len() == 0 {
                        assert(spec_find_scan(
                            configs@[j as int].descriptors@,
                            entries@,
                            i + 1,
                            None,
                        ) is None);
                    }
                }
                match &config.rate_limit {
                    Some(rule) => {
                        best = Some(rule);
                    },
                    None => {},
                }
            } else {
                assert(!spec_entry_matches(configs@[j as int], entries@[i]));
            }
            j = j + 1;
        }
        proof {
            assert(configs@.skip(configs@.len() as int) =~= Seq::<DescriptorConfig>::empty());
        }
        best
    }
}

/// When a descriptor's entries match both a node and a descendant of a
/// matching node, the selected rule comes from a matching node's subtree,
/// never from the node's own rule: deeper matches take precedence.  The
/// witness `k` is the first matching node whose subtree yields a rule.
pub proof fn lemma_descendant_rule_wins(
    configs: Seq<DescriptorConfig>,
    entries: Seq<Entry>,
    i: int,
    best: Option<RateLimitRule>,
    j: int,
)
    requires
        0 <= i,
        i + 1 < entries.len(),
        0 <= j < configs.len(),
        spec_entry_matches(configs[j], entries[i]),
        spec_find_scan(configs[j].descriptors@, entries, i + 1, None) is Some,
    ensures
        exists|k: int|
            0 <= k < configs.len() && spec_entry_matches(#[trigger] configs[k], entries[i])
                && spec_find_scan(configs[k].descriptors@, entries, i + 1, None) is Some
                && spec_find_scan(configs, entries, i, best) == spec_find_scan(
                configs[k].descriptors@,
                entries,
                i + 1,
                None,
            ),
    decreases configs.len(),
{
    let c = configs[0];
    if spec_entry_matches(c, entries[i]) && spec_find_scan(c.descriptors@, entries, i + 1, None)
        is Some {
        assert(spec_find_scan(configs, entries, i, best) == spec_find_scan(
            c.descriptors@,
            entries,
            i + 1,
            None,
        ));
        assert(0 <= 0 < configs.len() && spec_entry_matches(configs[0], entries[i])
            && spec_find_scan(configs[0].descriptors@, entries, i + 1, None) is Some
            && spec_find_scan(configs, entries, i, best) == spec_find_scan(
            configs[0].descriptors@,
            entries,
            i + 1,
            None,
        ));
    } else {
        let rest = configs.drop_first();
        assert(rest[j - 1] == configs[j]);
        let next_best = if spec_entry_matches(c, entries[i]) && c.rate_limit is Some {
            c.rate_limit
        } else {
            best
        };
        lemma_descendant_rule_wins(rest, entries, i, next_best, j - 1);
        let k0 = choose|k: int|
            0 <= k < rest.len() && spec_entry_matches(#[trigger] rest[k], entries[i])
                && spec_find_scan(rest[k].descriptors@, entries, i + 1, None) is Some
                && spec_find_scan(rest, entries, i, next_best) == spec_find_scan(
                rest[k].descriptors@,
                entries,
                i + 1,
                None,
            );
        assert(rest[k0] == configs[k0 + 1]);
        assert(spec_find_scan(configs, entries, i, best) == spec_find_scan(
            rest,
            entries,
            i,
            next_best,
        ));
        assert(0 <= k0 + 1 < configs.len() && spec_entry_matches(configs[k0 + 1], entries[i])
            && spec_find_scan(configs[k0 + 1].descriptors@, entries, i + 1, None) is Some
            && spec_find_scan(configs, entries, i, best) == spec_find_scan(
            configs[k0 + 1].descriptors@,
            entries,
            i + 1,
            None,
        ));
    }
}

/// Whether a rule stands at the end of a tree path that matches the
/// descriptor's entries node by node from index `i` on: some node at this
/// level matches the current entry and either carries the rule itself or
/// selects it deeper along the following entries.
pub open spec fn spec_tree_selects(
    configs: Seq<DescriptorConfig>,
    entries: Seq<Entry>,
    i: int,
    rule: RateLimitRule,
) -> bool
    decreases entries.len() - i,
        when 0 <= i < entries.len()
{
    exists|j: int|
        0 <= j < configs.len() && spec_entry_matches(#[trigger] configs[j], entries[i]) && (
        configs[j].rate_limit == Some(rule) || (i + 1 < entries.len() && spec_tree_selects(
            configs[j].descriptors@,
            entries,
            i + 1,
            rule,
        )))
}

proof fn lemma_scan_result_is_selected(
    configs: Seq<DescriptorConfig>,
    entries: Seq<Entry>,
    i: int,
    best: Option<RateLimitRule>,
    rule: RateLimitRule,
)
    requires
        0 <= i < entries.len(),
        spec_find_scan(configs, entries, i, best) == Some(rule),
    ensures
        best == Some(rule) || spec_tree_selects(configs, entries, i, rule),
    decreases entries.len() - i, configs.len(),
{
    if configs.len() == 0 {
    } else {
        let c = configs[0];
        let rest = configs.drop_first();
        if spec_entry_matches(c, entries[i]) {
            let child = if i + 1 < entries.len() {
                spec_find_scan(c.descriptors@, entries, i + 1, None)
            } else {
                None
            };
            match child {
                Some(r) => {
                    lemma_scan_result_is_selected(c.descriptors@, entries, i + 1, None, r);
                    assert(spec_tree_selects(configs, entries, i, rule)) by {
                        assert(spec_entry_matches(configs[0], entries[i]));
                    }
                },
                None => {
                    let next_best = if c.rate_limit is Some {
                        c.rate_limit
                    } else {
                        best
                    };
                    lemma_scan_result_is_selected(rest, entries, i, next_best, rule);
                    if spec_tree_selects(rest, entries, i, rule) {
                        lemma_selects_shift(configs, entries, i, rule);
                    } else if c.rate_limit == Some(rule) {
                        assert(spec_entry_matches(configs[0], entries[i]));
                        assert(spec_tree_selects(configs, entries, i, rule));
                    }
                },
            }
        } else {
            lemma_scan_result_is_selected(rest, entries, i, best, rule);
            if spec_tree_selects(rest, entries, i, rule) {
                lemma_selects_shift(configs, entries, i, rule);
            }
        }
    }
}

proof fn lemma_selects_shift(
    configs: Seq<DescriptorConfig>,
    entries: Seq<Entry>,
    i: int,
    rule: RateLimitRule,
)
    requires
        0 <= i < entries.len(),
        configs.len() >= 1,
        spec_tree_selects(configs.drop_first(), entries, i, rule),
    ensures
        spec_tree_selects(configs, entries, i, rule),
{
    let rest = configs.drop_first();
    let k = choose|k: int|
        0 <= k < rest.len() && spec_entry_matches(#[trigger] rest[k], entries[i]) && (
        rest[k].rate_limit == Some(rule) || (i + 1 < entries.len() && spec_tree_selects(
            rest[k].descriptors@,
            entries,
            i + 1,
            rule,
        )));
    assert(configs[k + 1] == rest[k]);
    assert(spec_entry_matches(configs[k + 1], entries[i]));
}

/// The resolver never selects a rule off the descriptor's path: a rule it
/// returns stands on a tree path that prefix-matches the entry sequence,
/// entry by entry from the first.
pub proof fn lemma_selected_rule_lies_on_matching_path(
    configs: Seq<DescriptorConfig>,
    entries: Seq<Entry>,
    rule: RateLimitRule,
)
    requires
        spec_find_limit(configs, entries, 0) == Some(rule),
    ensures
        entries.len() > 0,
        spec_tree_selects(configs, entries, 0, rule),
{
    lemma_scan_result_is_selected(configs, entries, 0, None, rule);
}

/// A complete rate limit configuration: one rule tree per domain, each
/// domain named once.
#[derive(Debug)]
pub struct RateLimitConfig {
    /// The configured domains, each name paired with its tree.
    pub domains: Vec<(String, DomainConfig)>,
}

/// The configuration a domain name selects: the first pairing with that
/// name.
pub open spec fn spec_get_domain(
    domains: Seq<(String, DomainConfig)>,
    name: Seq<char>,
) -> Option<DomainConfig>
    decreases domains.len(),
{
    if domains.len() == 0 {
        None
    } else if domains[0].0@ == name {
        Some(domains[0].1)
    } else {
        spec_get_domain(domains.drop_first(), name)
    }
}

/// The rule a whole configuration selects for a domain and descriptor.
pub open spec fn spec_config_find_limit(
    domains: Seq<(String, DomainConfig)>,
    name: Seq<char>,
    entries: Seq<Entry>,
) -> Option<RateLimitRule> {
    match spec_get_domain(domains, name) {
        None => None,
        Some(dc) => spec_find_limit(dc.descriptors@, entries, 0),
    }
}

impl RateLimitConfig {
    /// Every domain is configured at most once.
    pub open spec fn wf(&self) -> bool {
        forall|p: int, q: int|
            0 <= p < q < self.domains@.len() ==> (#[trigger] self.domains@[p]).0@ != (
            #[trigger] self.domains@[q]).0@
    }

    /// Create an empty configuration.
    pub fn new() -> (r: RateLimitConfig)
        ensures
            r.domains@.len() == 0,
            r.wf(),
    {
        RateLimitConfig { domains: Vec::new() }
    }

    /// Get the configuration for a specific domain.
    pub fn get_domain<'a>(&'a self, domain: &str) -> (r: Option<&'a DomainConfig>)
        ensures
            match r {
                Some(dc) => spec_get_domain(self.domains@, domain@) == Some(*dc),
                None => spec_get_domain(self.domains@, domain@) is None,
            },
    {
        let mut j: usize = 0;
        proof {
            assert(self.domains@.skip(0) =~= self.domains@);
        }
        while j < self.domains.len()
            invariant
                0 <= j <= self.domains@.len(),
                spec_get_domain(self.domains@, domain@) == spec_get_domain(
                    self.domains@.skip(j as int),
                    domain@,
                ),
            decreases self.domains@.len() - j,
        {
            proof {
                assert(self.domains@.skip(j as int)[0] == self.domains@[j as int]);
                assert(self.domains@.skip(j as int).drop_first() =~= self.domains@.skip(
                    j as int + 1,
                ));
            }
            let entry = &self.domains[j];
            if crate::text::str_eq(entry.0.as_str(), domain) {
                return Some(&entry.1);
            }
            j = j + 1;
        }
        proof {
            assert(self.domains@.skip(self.domains@.len() as int) =~= Seq::<
                (String, DomainConfig),
            >::empty());
        }
        None
    }

    /// Add a domain's configuration, replacing any earlier tree under the
    /// same name.
    pub fn insert_domain(&mut self, config: DomainConfig)
        requires
            old(self).wf(),
        ensures
            final(self).wf(),
            spec_get_domain(final(self).domains@, config.domain@) == Some(config),
            forall|name: Seq<char>|
                name != config.domain@ ==> #[trigger] spec_get_domain(final(self).domains@, name)
                    == spec_get_domain(old(self).domains@, name),
    {
        let name = config.domain.clone();
        let mut j: usize = 0;
        while j < self.domains.len()
            invariant
                0 <= j <= self.domains@.len(),
                forall|p: int| 0 <= p < j ==> (#[trigger] self.domains@[p]).0@ != name@,
                name@ == config.domain@,
                self.wf(),
                self == old(self),
            decreases self.domains@.len() - j,
        {
            if crate::text::str_eq(self.domains[j].0.as_str(), name.as_str()) {
                let ghost before = self.domains@;
                self.domains.set(j, (name, config));
                proof {
                    lemma_set_domain(before, self.domains@, j as int, config.domain@);
                    assert forall|p: int, q: int|
                        0 <= p < q < self.domains@.len() implies (
                    #[trigger] self.domains@[p]).0@ != (#[trigger] self.domains@[q]).0@ by {
                        assert(before[p].0@ == if p == j as int {
                            before[j as int].0@
                        } else {
                            self.domains@[p].0@
                        });
                    }
                }
                return ;
            }
            j = j + 1;
        }
        let ghost before = self.domains@;
        self.domains.push((name, config));
        proof {
            lemma_push_domain(before, self.domains@, config.domain@);
        }
    }

    /// Find the matching rate limit rule for a descriptor within a domain.
    pub fn find_limit<'a>(&'a self, domain: &str, descriptor: &RateLimitDescriptor) -> (r: Option<
        &'a RateLimitRule,
    >)
        ensures
            spec_opt_rule(r) == spec_config_find_limit(
                self.domains@,
                domain@,
                descriptor.entries@,
            ),
    {
        let domain_config = match self.get_domain(domain) {
            Some(dc) => dc,
            None => {
                return None;
            },
        };
        domain_config.find_limit(descriptor)
    }
}

/// Replacing the pairing at a name's first index leaves lookups of that name
/// with the new tree and lookups of other names unchanged.
proof fn lemma_set_domain(
    before: Seq<(String, DomainConfig)>,
    after: Seq<(String, DomainConfig)>,
    j: int,
    name: Seq<char>,
)
    requires
        0 <= j < before.len(),
        after.len() == before.len(),
        forall|p: int| 0 <= p < before.len() && p != j ==> after[p] == #[trigger] before[p],
        after[j].0@ == name,
        before[j].0@ == name,
        forall|p: int| 0 <= p < j ==> (#[trigger] before[p]).0@ != name,
    ensures
        spec_get_domain(after, name) == Some(after[j].1),
        forall|n: Seq<char>|
            n != name ==> #[trigger] spec_get_domain(after, n) == spec_get_domain(before, n),
    decreases j,
{
    if j == 0 {
        assert(spec_get_domain(after, name) == Some(after[0].1));
        assert forall|n: Seq<char>| n != name implies #[trigger] spec_get_domain(after, n)
            == spec_get_domain(before, n) by {
            assert(after.drop_first() =~= before.drop_first());
            assert(spec_get_domain(after, n) == spec_get_domain(after.drop_first(), n));
            assert(spec_get_domain(before, n) == spec_get_domain(before.drop_first(), n));
        }
    } else {
        let b2 = before.drop_first();
        let a2 = after.drop_first();
        assert(after[0] == before[0]);
        assert(before[0].0@ != name);
        assert forall|p: int| 0 <= p < b2.len() && p != j - 1 implies a2[p] == #[trigger] b2[p] by {
            assert(a2[p] == after[p + 1]);
            assert(b2[p] == before[p + 1]);
        }
        assert(a2[j - 1] == after[j]);
        assert(b2[j - 1] == before[j]);
        assert forall|p: int| 0 <= p < j - 1 implies (#[trigger] b2[p]).0@ != name by {
            assert(b2[p] == before[p + 1]);
        }
        lemma_set_domain(b2, a2, j - 1, name);
        assert(spec_get_domain(after, name) == spec_get_domain(a2, name));
        assert forall|n: Seq<char>| n != name implies #[trigger] spec_get_domain(after, n)
            == spec_get_domain(before, n) by {
            if after[0].0@ == n {
                assert(spec_get_domain(after, n) == Some(after[0].1));
                assert(spec_get_domain(before, n) == Some(before[0].1));
            } else {
                assert(spec_get_domain(after, n) == spec_get_domain(a2, n));
                assert(spec_get_domain(before, n) == spec_get_domain(b2, n));
            }
        }
    }
}

/// Appending a pairing under a fresh name makes that name resolve to it and
/// leaves other names unchanged.
proof fn lemma_push_domain(
    before: Seq<(String, DomainConfig)>,
    after: Seq<(String, DomainConfig)>,
    name: Seq<char>,
)
    requires
        after.len() == before.len() + 1,
        forall|p: int| 0 <= p < before.len() ==> after[p] == #[trigger] before[p],
        after[before.len() as int].0@ == name,
        forall|p: int| 0 <= p < before.len() ==> (#[trigger] before[p]).0@ != name,
    ensures
        spec_get_domain(after, name) == Some(after[before.len() as int].1),
        forall|n: Seq<char>|
            n != name ==> #[trigger] spec_get_domain(after, n) == spec_get_domain(before, n),
    decreases before.len(),
{
    if before.len() == 0 {
        assert(spec_get_domain(after, name) == Some(after[0].1));
        assert forall|n: Seq<char>| n != name implies #[trigger] spec_get_domain(after, n)
            == spec_get_domain(before, n) by {
            assert(spec_get_domain(after, n) == spec_get_domain(after.drop_first(), n));
            assert(after.drop_first() =~= Seq::<(String, DomainConfig)>::empty());
        }
    } else {
        let b2 = before.drop_first();
        let a2 = after.drop_first();
        assert(after[0] == before[0]);
        assert forall|p: int| 0 <= p < b2.len() implies a2[p] == #[trigger] b2[p] by {
            assert(a2[p] == after[p + 1]);
            assert(b2[p] == before[p + 1]);
        }
        assert(a2[b2.len() as int] == after[before.len() as int]);
        assert forall|p: int| 0 <= p < b2.len() implies (#[trigger] b2[p]).0@ != name by {
            assert(b2[p] == before[p + 1]);
        }
        lemma_push_domain(b2, a2, name);
        assert(before[0].0@ != name);
        assert(spec_get_domain(after, name) == spec_get_domain(a2, name));
        assert forall|n: Seq<char>| n != name implies #[trigger] spec_get_domain(after, n)
            == spec_get_domain(before, n) by {
            if after[0].0@ == n {
                assert(spec_get_domain(after, n) == Some(after[0].1));
                assert(spec_get_domain(before, n) == Some(before[0].1));
            } else {
                assert(spec_get_domain(after, n) == spec_get_domain(a2, n));
                assert(spec_get_domain(before, n) == spec_get_domain(b2, n));
            }
        }
    }
}

} // verus!
