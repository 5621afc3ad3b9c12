//! Verified text helpers: decimal printing and parsing of `u64` values,
//! string equality, and first/last occurrence search, used by the counter
//! key encoding.

use vstd::prelude::*;

verus! {

/// The decimal digit character for a value below ten.
pub open spec fn spec_digit_char(d: int) -> char {
    if d == 0 {
        '0'
    } else if d == 1 {
        '1'
    } else if d == 2 {
        '2'
    } else if d == 3 {
        '3'
    } else if d == 4 {
        '4'
    } else if d == 5 {
        '5'
    } else if d == 6 {
        '6'
    } else if d == 7 {
        '7'
    } else if d == 8 {
        '8'
    } else {
        '9'
    }
}

/// Whether a character is a decimal digit.
pub open spec fn spec_is_digit(c: char) -> bool {
    '0' <= c && c <= '9'
}

/// The numeric value of a digit character.
pub open spec fn spec_digit_val(c: char) -> int {
    c as int - '0' as int
}

/// Whether every character of a sequence is a decimal digit.
pub open spec fn spec_all_digits(s: Seq<char>) -> bool {
    forall|i: int| 0 <= i < s.len() ==> spec_is_digit(#[trigger] s[i])
}

/// The canonical decimal rendering of a `u64`: no sign, no leading zero
/// except for the value zero itself.
pub open spec fn spec_u64_string(n: u64) -> Seq<char>
    decreases n,
{
    if n < 10 {
        seq![spec_digit_char(n as int)]
    } else {
        spec_u64_string(n / 10).push(spec_digit_char((n % 10) as int))
    }
}

/// The value of a digit sequence read in base ten, unbounded.
pub open spec fn spec_digits_val(s: Seq<char>) -> int
    decreases s.len(),
{
    if s.len() == 0 {
        0
    } else {
        spec_digits_val(s.drop_last()) * 10 + spec_digit_val(s.last())
    }
}

/// The `u64` a character sequence denotes: defined exactly when the sequence
/// is non-empty, all digits, and the value fits in 64 bits.
pub open spec fn spec_parse_u64(s: Seq<char>) -> Option<u64> {
    if s.len() > 0 && spec_all_digits(s) && spec_digits_val(s) <= u64::MAX {
        Some(spec_digits_val(s) as u64)
    } else {
        None
    }
}

proof fn lemma_digits_val_nonneg(s: Seq<char>)
    requires
        spec_all_digits(s),
    ensures
        spec_digits_val(s) >= 0,
    decreases s.len(),
{
    if s.len() > 0 {
        assert(spec_all_digits(s.drop_last())) by {
            assert(forall|i: int|
                0 <= i < s.len() - 1 ==> s.drop_last()[i] == #[trigger] s[i]);
        }
        lemma_digits_val_nonneg(s.drop_last());
    }
}

/// The decimal rendering of `n` is a non-empty digit sequence whose value
/// read back in base ten is `n` itself.
pub proof fn lemma_u64_string_val(n: u64)
    ensures
        spec_u64_string(n).len() >= 1,
        spec_all_digits(spec_u64_string(n)),
        spec_digits_val(spec_u64_string(n)) == n,
    decreases n,
{
    if n < 10 {
        let s = spec_u64_string(n);
        assert(s.drop_last() =~= Seq::<char>::empty());
        assert(spec_digit_val(spec_digit_char(n as int)) == n);
        assert(spec_is_digit(spec_digit_char(n as int)));
        assert(spec_digits_val(s) == spec_digits_val(s.drop_last()) * 10 + spec_digit_val(
            s.last(),
        ));
    } else {
        lemma_u64_string_val(n / 10);
        let p = spec_u64_string(n / 10);
        let d = spec_digit_char((n % 10) as int);
        let s = p.push(d);
        assert(s == spec_u64_string(n));
        assert(s.drop_last() =~= p);
        assert(s.last() == d);
        assert(spec_digit_val(d) == n % 10);
        assert(spec_is_digit(d));
        assert(spec_all_digits(s)) by {
            assert(forall|i: int| 0 <= i < p.len() ==> #[trigger] s[i] == p[i]);
        }
        assert(spec_digits_val(s) == spec_digits_val(p) * 10 + (n % 10));
        assert((n / 10) * 10 + n % 10 == n) by (nonlinear_arith);
    }
}

/// Parsing the decimal rendering of `n` yields `n`: the decimal encoding
/// round-trips.
pub proof fn lemma_u64_string_round_trip(n: u64)
    ensures
        spec_parse_u64(spec_u64_string(n)) == Some(n),
{
    lemma_u64_string_val(n);
}

/// Digit characters are never the bar separator.
pub proof fn lemma_digits_are_not_bar(s: Seq<char>)
    requires
        spec_all_digits(s),
    ensures
        forall|i: int| 0 <= i < s.len() ==> #[trigger] s[i] != '|',
{
}

/// Extending a digit sequence by further digits never lowers its value.
proof fn lemma_digits_val_prefix_le(s: Seq<char>, k: int)
    requires
        spec_all_digits(s),
        0 <= k <= s.len(),
    ensures
        spec_digits_val(s.take(k)) <= spec_digits_val(s),
    decreases s.len() - k,
{
    if k < s.len() {
        let t = s.take(k + 1);
        assert(t.drop_last() =~= s.take(k));
        assert(spec_all_digits(s.take(k))) by {
            assert(forall|i: int| 0 <= i < k ==> s.take(k)[i] == #[trigger] s[i]);
        }
        lemma_digits_val_nonneg(s.take(k));
        assert(spec_digits_val(t) == spec_digits_val(s.take(k)) * 10 + spec_digit_val(t.last()));
        assert(spec_is_digit(s[k]));
        assert(spec_digit_val(t.last()) >= 0);
        assert(spec_digits_val(s.take(k)) * 10 >= spec_digits_val(s.take(k)));
        lemma_digits_val_prefix_le(s, k + 1);
        assert(s.take(s.len() as int) =~= s);
    } else {
        assert(s.take(k) =~= s);
    }
}

/// One digit string per value, so the rendering stays verified end to end.
fn digit_str(d: u64) -> (r: &'static str)
    requires
        d < 10,
    ensures
        r@ =~= seq![spec_digit_char(d as int)],
{
    proof {
        reveal_strlit("0");
        reveal_strlit("1");
        reveal_strlit("2");
        reveal_strlit("3");
        reveal_strlit("4");
        reveal_strlit("5");
        reveal_strlit("6");
        reveal_strlit("7");
        reveal_strlit("8");
        reveal_strlit("9");
    }
    match d {
        0 => "0",
        1 => "1",
        2 => "2",
        3 => "3",
        4 => "4",
        5 => "5",
        6 => "6",
        7 => "7",
        8 => "8",
        _ => "9",
    }
}

/// Render a `u64` in decimal.
pub fn u64_to_string(n: u64) -> (s: String)
    ensures
        s@ == spec_u64_string(n),
    decreases n,
{
    let d = digit_str(n % 10);
    if n < 10 {
        let s = d.to_owned();
        assert(s@ =~= spec_u64_string(n));
        s
    } else {
        let mut s = u64_to_string(n / 10);
        s.append(d);
        assert(s@ =~= spec_u64_string(n));
        s
    }
}

/// Parse a decimal `u64`; `None` on an empty string, a non-digit character,
/// or a value that does not fit in 64 bits.
pub fn parse_u64(s: &str) -> (r: Option<u64>)
    ensures
        r == spec_parse_u64(s@),
{
    let len = s.unicode_len();
    if len == 0 {
        return None;
    }
    let mut acc: u64 = 0;
    let mut i: usize = 0;
    while i < len
        invariant
            0 <= i <= len,
            len == s@.len(),
            spec_all_digits(s@.take(i as int)),
            acc == spec_digits_val(s@.take(i as int)),
        decreases len - i,
    {
        let c = s.get_char(i);
        let cv = c as u32;
        if cv < 48 || cv > 57 {
            assert(!spec_is_digit(s@[i as int]));
            return None;
        }
        let d = (cv - 48) as u64;
        proof {
            let t = s@.take(i as int + 1);
            assert(t.drop_last() =~= s@.take(i as int));
            assert(t.last() == s@[i as int]);
            assert(spec_is_digit(s@[i as int]));
            assert(spec_digit_val(s@[i as int]) == d);
        }
        if acc > (u64::MAX - d) / 10 {
            // The value so far already overflows; the full value can only be
            // larger, so the string denotes no u64.
            proof {
                let t = s@.take(i as int + 1);
                assert(spec_digits_val(t) == acc * 10 + d);
                assert(acc >= (u64::MAX - d) / 10 + 1);
                assert((u64::MAX - d) / 10 * 10 + 10 > (u64::MAX - d) as int) by (nonlinear_arith);
                assert(acc * 10 >= ((u64::MAX - d) / 10 + 1) * 10) by (nonlinear_arith)
                    requires
                        acc >= (u64::MAX - d) / 10 + 1,
                ;
                assert(spec_digits_val(t) > u64::MAX);
                if spec_all_digits(s@) {
                    lemma_digits_val_prefix_le(s@, i as int + 1);
                    assert(spec_digits_val(s@) > u64::MAX);
                } else {
                    assert(spec_parse_u64(s@) is None);
                }
            }
            return None;
        }
        proof {
            assert(acc <= (u64::MAX - d) / 10);
            assert(acc * 10 <= (u64::MAX - d) / 10 * 10) by (nonlinear_arith)
                requires
                    acc <= (u64::MAX - d) / 10,
            ;
            assert((u64::MAX - d) / 10 * 10 <= (u64::MAX - d) as int);
        }
        acc = acc * 10 + d;
        i = i + 1;
    }
    proof {
        assert(s@.take(len as int) =~= s@);
    }
    Some(acc)
}

/// Compare two strings by their characters.
pub fn str_eq(a: &str, b: &str) -> (r: bool)
    ensures
        r == (a@ == b@),
{
    let la = a.unicode_len();
    let lb = b.unicode_len();
    if la != lb {
        return false;
    }
    let mut i: usize = 0;
    while i < la
        invariant
            0 <= i <= la,
            la == a@.len(),
            lb == b@.len(),
            la == lb,
            forall|j: int| 0 <= j < i ==> a@[j] == b@[j],
        decreases la - i,
    {
        if a.get_char(i) != b.get_char(i) {
            return false;
        }
        i = i + 1;
    }
    proof {
        assert(a@ =~= b@);
    }
    true
}

/// The first index at which a character occurs in a sequence.
pub open spec fn spec_first_index_of(s: Seq<char>, c: char) -> Option<int>
    decreases s.len(),
{
    if s.len() == 0 {
        None
    } else if s[0] == c {
        Some(0)
    } else {
        match spec_first_index_of(s.drop_first(), c) {
            Some(i) => Some(i + 1),
            None => None,
        }
    }
}

/// The last index at which a character occurs in a sequence.
pub open spec fn spec_last_index_of(s: Seq<char>, c: char) -> Option<int>
    decreases s.len(),
{
    if s.len() == 0 {
        None
    } else if s.last() == c {
        Some(s.len() - 1)
    } else {
        spec_last_index_of(s.drop_last(), c)
    }
}

/// What the first index means: the character stands there and nowhere
/// earlier; absence means it stands nowhere.
pub proof fn lemma_first_index_of_properties(s: Seq<char>, c: char)
    ensures
        match spec_first_index_of(s, c) {
            Some(i) => 0 <= i < s.len() && s[i] == c && forall|j: int| 0 <= j < i ==> s[j] != c,
            None => forall|j: int| 0 <= j < s.len() ==> s[j] != c,
        },
    decreases s.len(),
{
    if s.len() > 0 && s[0] != c {
        let t = s.drop_first();
        lemma_first_index_of_properties(t, c);
        match spec_first_index_of(t, c) {
            Some(i) => {
                assert(spec_first_index_of(s, c) == Some(i + 1));
                assert(s[i + 1] == t[i]);
                assert forall|j: int| 0 <= j < i + 1 implies s[j] != c by {
                    if j >= 1 {
                        assert(t[j - 1] == s[j]);
                        assert(t[j - 1] != c);
                    }
                }
            },
            None => {
                assert forall|j: int| 0 <= j < s.len() implies s[j] != c by {
                    if j >= 1 {
                        assert(t[j - 1] == s[j]);
                        assert(t[j - 1] != c);
                    }
                }
            },
        }
    }
}

/// The first index is determined by those properties.
pub proof fn lemma_first_index_of_unique(s: Seq<char>, c: char, i: int)
    requires
        0 <= i < s.len(),
        s[i] == c,
        forall|j: int| 0 <= j < i ==> s[j] != c,
    ensures
        spec_first_index_of(s, c) == Some(i),
    decreases s.len(),
{
    if s[0] != c {
        assert(forall|j: int| 1 <= j < s.len() ==> s[j] == #[trigger] s.drop_first()[j - 1]);
        assert(s.drop_first()[i - 1] == c);
        lemma_first_index_of_unique(s.drop_first(), c, i - 1);
    }
}

/// What the last index means: the character stands there and nowhere later;
/// absence means it stands nowhere.
pub proof fn lemma_last_index_of_properties(s: Seq<char>, c: char)
    ensures
        match spec_last_index_of(s, c) {
            Some(i) => 0 <= i < s.len() && s[i] == c && forall|j: int|
                i < j < s.len() ==> s[j] != c,
            None => forall|j: int| 0 <= j < s.len() ==> s[j] != c,
        },
    decreases s.len(),
{
    if s.len() > 0 && s.last() != c {
        let t = s.drop_last();
        lemma_last_index_of_properties(t, c);
        match spec_last_index_of(t, c) {
            Some(i) => {
                assert(spec_last_index_of(s, c) == Some(i));
                assert(s[i] == t[i]);
                assert forall|j: int| i < j < s.len() implies s[j] != c by {
                    if j < s.len() - 1 {
                        assert(t[j] == s[j]);
                        assert(t[j] != c);
                    }
                }
            },
            None => {
                assert forall|j: int| 0 <= j < s.len() implies s[j] != c by {
                    if j < s.len() - 1 {
                        assert(t[j] == s[j]);
                        assert(t[j] != c);
                    }
                }
            },
        }
    }
}

/// The last index is determined by those properties.
pub proof fn lemma_last_index_of_unique(s: Seq<char>, c: char, i: int)
    requires
        0 <= i < s.len(),
        s[i] == c,
        forall|j: int| i < j < s.len() ==> s[j] != c,
    ensures
        spec_last_index_of(s, c) == Some(i),
    decreases s.len(),
{
    if s.last() != c {
        assert(forall|j: int| 0 <= j < s.len() - 1 ==> s[j] == #[trigger] s.drop_last()[j]);
        lemma_last_index_of_unique(s.drop_last(), c, i);
    }
}

/// Find the first occurrence of a character in a string.
pub fn find_first_char(s: &str, c: char) -> (r: Option<usize>)
    ensures
        match r {
            Some(i) => spec_first_index_of(s@, c) == Some(i as int),
            None => spec_first_index_of(s@, c) is None,
        },
{
    let len = s.unicode_len();
    let mut i: usize = 0;
    while i < len
        invariant
            0 <= i <= len,
            len == s@.len(),
            forall|j: int| 0 <= j < i ==> s@[j] != c,
        decreases len - i,
    {
        if s.get_char(i) == c {
            proof {
                lemma_first_index_of_unique(s@, c, i as int);
            }
            return Some(i);
        }
        i = i + 1;
    }
    proof {
        lemma_first_index_of_properties(s@, c);
        if spec_first_index_of(s@, c) is Some {
            let k = spec_first_index_of(s@, c)->Some_0;
            assert(s@[k] != c);
        }
    }
    None
}

/// Find the last occurrence of a character in a string.
pub fn find_last_char(s: &str, c: char) -> (r: Option<usize>)
    ensures
        match r {
            Some(i) => spec_last_index_of(s@, c) == Some(i as int),
            None => spec_last_index_of(s@, c) is None,
        },
{
    let len = s.unicode_len();
    let mut i: usize = len;
    while i > 0
        invariant
            0 <= i <= len,
            len == s@.len(),
            forall|j: int| i <= j < len ==> s@[j] != c,
        decreases i,
    {
        i = i - 1;
        if s.get_char(i) == c {
            proof {
                lemma_last_index_of_unique(s@, c, i as int);
            }
            return Some(i);
        }
    }
    proof {
        lemma_last_index_of_properties(s@, c);
        if spec_last_index_of(s@, c) is Some {
            let k = spec_last_index_of(s@, c)->Some_0;
            assert(s@[k] != c);
        }
    }
    None
}

} // verus!
