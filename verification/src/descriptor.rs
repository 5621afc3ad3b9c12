//! Request descriptors and the key that identifies a counter locally.

use vstd::prelude::*;
use vstd::std_specs::cmp::PartialEqSpec;

verus! {

/// An ordered (key, value) pair of a request descriptor.
#[derive(Debug)]
pub struct Entry {
    /// The entry key.
    pub key: String,
    /// The entry value.
    pub value: String,
}

/// An inline rate limit override carried by a descriptor; it supersedes the
/// configured rules entirely.
#[derive(Debug, Clone, Copy, PartialEq, Eq, Structural)]
pub struct RateLimitOverride {
    /// Requests allowed per unit of time.
    pub requests_per_unit: u32,
    /// Wire code of the time unit: 1 = second, 2 = minute, 3 = hour,
    /// 4 = day; unknown codes fall back to the second window.
    pub unit: i32,
}

/// A request descriptor: an ordered sequence of entries, from general to
/// specific, plus an optional inline rate limit override.
#[derive(Debug)]
pub struct RateLimitDescriptor {
    /// The ordered entries.
    pub entries: Vec<Entry>,
    /// The optional inline override.
    pub limit: Option<RateLimitOverride>,
}

/// The views of a descriptor's entries, in order.
pub open spec fn spec_descriptor_entry_views(es: Seq<Entry>) -> Seq<(Seq<char>, Seq<char>)> {
    es.map_values(|e: Entry| (e.key@, e.value@))
}

/// The views of a key's stored entries, in order.
pub open spec fn spec_entries_view(es: Seq<(String, String)>) -> Seq<(Seq<char>, Seq<char>)> {
    es.map_values(|e: (String, String)| (e.0@, e.1@))
}

/// A key that identifies a rate limit counter: the domain together with all
/// descriptor entries in order.  Equality respects the entry order and
/// depends only on the character content, not on the representation.
#[derive(Debug)]
pub struct DescriptorKey {
    /// The domain this descriptor belongs to.
    pub domain: String,
    /// The (key, value) pairs of the descriptor, in order.
    pub entries: Vec<(String, String)>,
}

impl DescriptorKey {
    /// What this key identifies: its domain and entries as character
    /// sequences.
    pub open spec fn spec_identity(&self) -> (Seq<char>, Seq<(Seq<char>, Seq<char>)>) {
        (self.domain@, spec_entries_view(self.entries@))
    }

    /// Create a key from a domain and a descriptor, copying the entries in
    /// order.
    pub fn new(domain: &str, descriptor: &RateLimitDescriptor) -> (r: DescriptorKey)
        ensures
            r.domain@ == domain@,
            spec_entries_view(r.entries@) == spec_descriptor_entry_views(descriptor.entries@),
    {
        let mut entries: Vec<(String, String)> = Vec::new();
        let mut i: usize = 0;
        while i < descriptor.entries.len()
            invariant
                0 <= i <= descriptor.entries@.len(),
                entries@.len() == i,
                forall|j: int|
                    0 <= j < i ==> (#[trigger] entries@[j]).0@ == descriptor.entries@[j].key@
                        && entries@[j].1@ == descriptor.entries@[j].value@,
            decreases descriptor.entries@.len() - i,
        {
            let e = &descriptor.entries[i];
            entries.push((e.key.clone(), e.value.clone()));
            i = i + 1;
        }
        proof {
            assert(spec_entries_view(entries@) =~= spec_descriptor_entry_views(
                descriptor.entries@,
            ));
        }
        DescriptorKey { domain: domain.to_owned(), entries }
    }

    /// The serialized form used for logs and for the distributed counter
    /// key: `<domain>:<k1>=<v1>,<k2>=<v2>,...`.
    pub fn to_string_key(&self) -> (r: String)
        ensures
            r@ == spec_string_key(self.domain@, spec_entries_view(self.entries@)),
    {
        proof {
            reveal_strlit(":");
            reveal_strlit(",");
            reveal_strlit("=");
            assert(":"@ =~= seq![':']);
            assert(","@ =~= seq![',']);
            assert("="@ =~= seq!['=']);
        }
        let ghost vs = spec_entries_view(self.entries@);
        let mut s = self.domain.clone();
        s.append(":");
        let mut i: usize = 0;
        while i < self.entries.len()
            invariant
                0 <= i <= self.entries@.len(),
                vs == spec_entries_view(self.entries@),
                vs.len() == self.entries@.len(),
                s@ == self.domain@ + seq![':'] + spec_entries_joined(vs.take(i as int)),
                ":"@ =~= seq![':'],
                ","@ =~= seq![','],
                "="@ =~= seq!['='],
            decreases self.entries@.len() - i,
        {
            if i > 0 {
                s.append(",");
            }
            let e = &self.entries[i];
            s.append(e.0.as_str());
            s.append("=");
            s.append(e.1.as_str());
            proof {
                assert(vs.take(i as int + 1).drop_last() =~= vs.take(i as int));
                assert(vs.take(i as int + 1).last() == vs[i as int]);
                assert(vs[i as int] == (self.entries@[i as int].0@, self.entries@[i as int].1@));
                if i == 0 {
                    assert(vs.take(1).len() == 1);
                }
                assert(s@ =~= self.domain@ + seq![':'] + spec_entries_joined(
                    vs.take(i as int + 1),
                ));
            }
            i = i + 1;
        }
        proof {
            assert(vs.take(vs.len() as int) =~= vs);
        }
        s
    }
}

/// One serialized entry: `<key>=<value>`.
pub open spec fn spec_entry_pair(e: (Seq<char>, Seq<char>)) -> Seq<char> {
    e.0 + seq!['='] + e.1
}

/// Serialized entries joined with commas.
pub open spec fn spec_entries_joined(es: Seq<(Seq<char>, Seq<char>)>) -> Seq<char>
    decreases es.len(),
{
    if es.len() == 0 {
        Seq::empty()
    } else if es.len() == 1 {
        spec_entry_pair(es[0])
    } else {
        spec_entries_joined(es.drop_last()) + seq![','] + spec_entry_pair(es.last())
    }
}

/// The serialized form of a key, over the entry views.
pub open spec fn spec_string_key(domain: Seq<char>, entries: Seq<(Seq<char>, Seq<char>)>)
    -> Seq<char> {
    domain + seq![':'] + spec_entries_joined(entries)
}

impl Clone for DescriptorKey {
    /// A clone carries the same domain and entries, so it identifies the
    /// same counter as the key it was cloned from.
    fn clone(&self) -> (r: Self)
        ensures
            r.domain@ == self.domain@,
            r.entries@ == self.entries@,
            r.spec_identity() == self.spec_identity(),
    {
        let mut entries: Vec<(String, String)> = Vec::new();
        let mut i: usize = 0;
        while i < self.entries.len()
            invariant
                0 <= i <= self.entries@.len(),
                entries@.len() == i,
                forall|j: int| 0 <= j < i ==> #[trigger] entries@[j] == self.entries@[j],
            decreases self.entries@.len() - i,
        {
            let e = &self.entries[i];
            entries.push((e.0.clone(), e.1.clone()));
            i = i + 1;
        }
        proof {
            assert(entries@ =~= self.entries@);
        }
        DescriptorKey { domain: self.domain.clone(), entries }
    }
}

impl PartialEq for DescriptorKey {
    /// Two keys are equal when their domains and their entries agree
    /// character for character, in order.
    fn eq(&self, other: &Self) -> (r: bool) {
        if !(self.domain == other.domain) {
            proof {
                assert(self.spec_identity() != other.spec_identity());
            }
            return false;
        }
        if self.entries.len() != other.entries.len() {
            proof {
                assert(spec_entries_view(self.entries@).len() != spec_entries_view(
                    other.entries@,
                ).len());
            }
            return false;
        }
        let mut i: usize = 0;
        while i < self.entries.len()
            invariant
                0 <= i <= self.entries@.len(),
                self.entries@.len() == other.entries@.len(),
                self.domain@ == other.domain@,
                forall|j: int|
                    0 <= j < i ==> (#[trigger] self.entries@[j]).0@ == other.entries@[j].0@
                        && self.entries@[j].1@ == other.entries@[j].1@,
            decreases self.entries@.len() - i,
        {
            let a = &self.entries[i];
            let b = &other.entries[i];
            if !(a.0 == b.0) || !(a.1 == b.1) {
                proof {
                    let va = spec_entries_view(self.entries@);
                    let vb = spec_entries_view(other.entries@);
                    assert(va[i as int] != vb[i as int]);
                }
                return false;
            }
            i = i + 1;
        }
        proof {
            assert(spec_entries_view(self.entries@) =~= spec_entries_view(other.entries@));
        }
        true
    }
}

impl Eq for DescriptorKey {

}

impl vstd::std_specs::cmp::PartialEqSpecImpl for DescriptorKey {
    open spec fn obeys_eq_spec() -> bool {
        true
    }

    open spec fn eq_spec(&self, other: &Self) -> bool {
        self.spec_identity() == other.spec_identity()
    }
}

/// Key equality is representation independent: it is determined by the
/// domain and entry character sequences alone, so it is invariant under
/// cloning and under rebuilding a key from different allocations.
pub proof fn lemma_key_equality_is_by_identity(a: &DescriptorKey, b: &DescriptorKey)
    ensures
        a.eq_spec(b) <==> (a.domain@ == b.domain@ && spec_entries_view(a.entries@)
            == spec_entries_view(b.entries@)),
{
}

} // verus!
