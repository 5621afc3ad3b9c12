//! Distributed counter identity and shard-sum model.
//!
//! A distributed counter lives in per-node shards of the gossiped cluster
//! state.  This module holds what of that layer is plain data and logic: the
//! counter key with its textual encoding, the cache entry with its TTL test,
//! and the sum of a key's per-node shard values.  The gossip transport
//! itself runs outside the library and hands these functions plain values.

use vstd::prelude::*;

use crate::text::{
    find_first_char, find_last_char, lemma_first_index_of_properties,
    lemma_first_index_of_unique, lemma_last_index_of_unique, lemma_digits_are_not_bar,
    lemma_u64_string_val, parse_u64, spec_first_index_of, spec_last_index_of, spec_parse_u64,
    spec_u64_string, str_eq, u64_to_string,
};

verus! {

/// Errors that can occur in cluster operations.
#[derive(Debug)]
pub enum ClusterError {
    /// The cluster node could not be started.
    StartError(String),
    /// The cluster could not be joined.
    JoinError(String),
}

/// Key identifying a rate limit counter in the cluster state.
#[derive(Debug)]
pub struct CounterKey {
    /// The rate limit domain.
    pub domain: String,
    /// The descriptor key (serialized).
    pub descriptor: String,
    /// The time window (epoch seconds, floored to the window boundary).
    pub window: u64,
}

/// The fixed prefix of an encoded counter key.
pub open spec fn spec_counter_prefix() -> Seq<char> {
    seq!['c', 'o', 'u', 'n', 't', 'e', 'r', '|']
}

/// Whether a sequence holds no bar separator.
pub open spec fn spec_has_no_bar(s: Seq<char>) -> bool {
    forall|i: int| 0 <= i < s.len() ==> #[trigger] s[i] != '|'
}

/// The textual form of a counter key:
/// `counter|<domain>|<descriptor>|<window>`.
pub open spec fn spec_to_chitchat_key(domain: Seq<char>, descriptor: Seq<char>, window: u64)
    -> Seq<char> {
    spec_counter_prefix() + domain + seq!['|'] + descriptor + seq!['|'] + spec_u64_string(window)
}

/// The key an encoded string denotes: the prefix must stand first, the
/// domain ends at the first bar after the prefix, the window starts after
/// the last bar, so the descriptor between them may itself contain bars.
pub open spec fn spec_from_chitchat_key(key: Seq<char>) -> Option<(Seq<char>, Seq<char>, u64)> {
    if key.len() < 8 || key.subrange(0, 8) != spec_counter_prefix() {
        None
    } else {
        let rest = key.skip(8);
        match spec_last_index_of(rest, '|') {
            None => None,
            Some(l) => match spec_parse_u64(rest.skip(l + 1)) {
                None => None,
                Some(window) => {
                    let before = rest.take(l);
                    match spec_first_index_of(before, '|') {
                        None => None,
                        Some(f) => Some((before.take(f), before.skip(f + 1), window)),
                    }
                },
            },
        }
    }
}

impl CounterKey {
    /// Create a new counter key.
    pub fn new(domain: &str, descriptor: &str, window: u64) -> (r: CounterKey)
        ensures
            r.domain@ == domain@,
            r.descriptor@ == descriptor@,
            r.window == window,
    {
        CounterKey { domain: domain.to_owned(), descriptor: descriptor.to_owned(), window }
    }

    /// Render this key as the string stored in the cluster state.
    pub fn to_chitchat_key(&self) -> (r: String)
        ensures
            r@ == spec_to_chitchat_key(self.domain@, self.descriptor@, self.window),
    {
        proof {
            reveal_strlit("counter|");
            reveal_strlit("|");
            assert("counter|"@ =~= spec_counter_prefix());
            assert("|"@ =~= seq!['|']);
        }
        let mut s = "counter|".to_owned();
        s.append(self.domain.as_str());
        s.append("|");
        s.append(self.descriptor.as_str());
        s.append("|");
        let w = u64_to_string(self.window);
        s.append(w.as_str());
        proof {
            assert(s@ =~= spec_to_chitchat_key(self.domain@, self.descriptor@, self.window));
        }
        s
    }

    /// Parse a counter key from its textual form; `None` when the prefix,
    /// the two separators or the numeric window are missing.
    pub fn from_chitchat_key(key: &str) -> (r: Option<CounterKey>)
        ensures
            match r {
                Some(ck) => spec_from_chitchat_key(key@) == Some(
                    (ck.domain@, ck.descriptor@, ck.window),
                ),
                None => spec_from_chitchat_key(key@) is None,
            },
    {
        proof {
            reveal_strlit("counter|");
            assert("counter|"@ =~= spec_counter_prefix());
        }
        let len = key.unicode_len();
        if len < 8 {
            return None;
        }
        let prefix = key.substring_char(0, 8);
        if !str_eq(prefix, "counter|") {
            assert(key@.subrange(0, 8) != spec_counter_prefix());
            return None;
        }
        let rest = key.substring_char(8, len);
        let rest_len = rest.unicode_len();
        let last_sep = match find_last_char(rest, '|') {
            Some(l) => l,
            None => {
                return None;
            },
        };
        proof {
            crate::text::lemma_last_index_of_properties(rest@, '|');
        }
        let window_str = rest.substring_char(last_sep + 1, rest_len);
        let window = match parse_u64(window_str) {
            Some(w) => w,
            None => {
                return None;
            },
        };
        let before = rest.substring_char(0, last_sep);
        let before_len = before.unicode_len();
        let first_sep = match find_first_char(before, '|') {
            Some(f) => f,
            None => {
                return None;
            },
        };
        proof {
            lemma_first_index_of_properties(before@, '|');
        }
        let domain = before.substring_char(0, first_sep).to_owned();
        let descriptor = before.substring_char(first_sep + 1, before_len).to_owned();
        Some(CounterKey { domain, descriptor, window })
    }
}

/// Parsing an encoded counter key recovers the key: the encoding round-trips
/// for every domain free of the bar separator, every descriptor (bars and
/// all) and every window value.
pub proof fn lemma_counter_key_round_trip(domain: Seq<char>, descriptor: Seq<char>, window: u64)
    requires
        spec_has_no_bar(domain),
    ensures
        spec_from_chitchat_key(spec_to_chitchat_key(domain, descriptor, window)) == Some(
            (domain, descriptor, window),
        ),
{
    let ws = spec_u64_string(window);
    lemma_u64_string_val(window);
    lemma_digits_are_not_bar(ws);
    let key = spec_to_chitchat_key(domain, descriptor, window);
    let rest = domain + seq!['|'] + descriptor + seq!['|'] + ws;
    assert(key.len() >= 8);
    assert(key.subrange(0, 8) =~= spec_counter_prefix());
    assert(key.skip(8) =~= rest);

    // The bar before the window digits is the last bar of `rest`.
    let l = domain.len() + 1 + descriptor.len() as int;
    assert(rest[l] == '|');
    assert forall|j: int| l < j < rest.len() implies rest[j] != '|' by {
        assert(rest[j] == ws[j - l - 1]);
    }
    lemma_last_index_of_unique(rest, '|', l);

    assert(rest.skip(l + 1) =~= ws);
    assert(spec_parse_u64(ws) == Some(window));

    // The bar after the domain is the first bar before the window digits.
    let before = rest.take(l);
    assert(before =~= domain + seq!['|'] + descriptor);
    let f = domain.len() as int;
    assert(before[f] == '|');
    assert forall|j: int| 0 <= j < f implies before[j] != '|' by {
        assert(before[j] == domain[j]);
    }
    lemma_first_index_of_unique(before, '|', f);

    assert(before.take(f) =~= domain);
    assert(before.skip(f + 1) =~= descriptor);
}

/// An encoded string that parses at all parses to a key whose own encoding
/// is that string, provided the parsed domain is bar-free; together with the
/// round trip above, encoding and parsing are inverse on such keys.
pub proof fn lemma_parsed_domain_is_bar_free(key: Seq<char>)
    ensures
        match spec_from_chitchat_key(key) {
            Some(parts) => spec_has_no_bar(parts.0),
            None => true,
        },
{
    if spec_from_chitchat_key(key) is Some {
        let rest = key.skip(8);
        let l = spec_last_index_of(rest, '|')->Some_0;
        let before = rest.take(l);
        lemma_first_index_of_properties(before, '|');
        let f = spec_first_index_of(before, '|')->Some_0;
        let d = before.take(f);
        assert forall|i: int| 0 <= i < d.len() implies d[i] != '|' by {
            assert(d[i] == before[i]);
        }
    }
}

/// Cached distributed counter entry with a timestamp for TTL expiry.
/// Timestamps are nanoseconds of some fixed monotonic epoch; the caller
/// supplies the readings.
#[derive(Debug, Clone, Copy, PartialEq, Eq, Structural)]
pub struct CachedCount {
    /// The cached total count across all nodes.
    pub total: u64,
    /// When this entry was last refreshed.
    pub refreshed_at_nanos: u64,
}

impl CachedCount {
    /// A fresh entry holding `total`, refreshed now.
    pub fn new(total: u64, now_nanos: u64) -> (r: CachedCount)
        ensures
            r.total == total,
            r.refreshed_at_nanos == now_nanos,
    {
        CachedCount { total, refreshed_at_nanos: now_nanos }
    }

    /// The cached total.
    pub fn get(&self) -> (r: u64)
        ensures
            r == self.total,
    {
        self.total
    }

    /// Replace the total and mark the entry refreshed now.
    pub fn update(&mut self, total: u64, now_nanos: u64)
        ensures
            final(self).total == total,
            final(self).refreshed_at_nanos == now_nanos,
    {
        self.total = total;
        self.refreshed_at_nanos = now_nanos;
    }

    /// Whether the entry's age has reached the TTL.
    pub fn is_expired(&self, now_nanos: u64, ttl_nanos: u64) -> (r: bool)
        ensures
            r == (now_nanos.saturating_sub(self.refreshed_at_nanos) >= ttl_nanos),
    {
        now_nanos.saturating_sub(self.refreshed_at_nanos) >= ttl_nanos
    }
}

/// What one shard value contributes to a distributed total: its numeric
/// value, or zero where it is not a decimal `u64`.
pub open spec fn spec_counter_contribution(v: Seq<char>) -> u64 {
    match spec_parse_u64(v) {
        Some(n) => n,
        None => 0,
    }
}

/// The distributed total of a key: the sum of its per-node shard values,
/// saturating at `u64::MAX`.
pub open spec fn spec_sum_counters(vs: Seq<String>) -> u64
    decreases vs.len(),
{
    if vs.len() == 0 {
        0
    } else {
        spec_sum_counters(vs.drop_last()).saturating_add(
            spec_counter_contribution(vs.last()@),
        )
    }
}

/// Sum a key's shard values across nodes: non-numeric values contribute
/// zero, and the total saturates at `u64::MAX`.
pub fn sum_counter_values(values: &Vec<String>) -> (r: u64)
    ensures
        r == spec_sum_counters(values@),
{
    let mut total: u64 = 0;
    let mut i: usize = 0;
    while i < values.len()
        invariant
            0 <= i <= values@.len(),
            total == spec_sum_counters(values@.take(i as int)),
        decreases values@.len() - i,
    {
        let c = match parse_u64(values[i].as_str()) {
            Some(n) => n,
            None => 0,
        };
        proof {
            assert(values@.take(i as int + 1).drop_last() =~= values@.take(i as int));
            assert(values@.take(i as int + 1).last() == values@[i as int]);
        }
        total = total.saturating_add(c);
        i = i + 1;
    }
    proof {
        assert(values@.take(values@.len() as int) =~= values@);
    }
    total
}

} // verus!
