//! Byte-level scanning: substring search and the parsing of unsigned numbers
//! in the textual forms that the protocol uses.

use vstd::prelude::*;

verus! {

/// The first position at or after `k` where `p` occurs in `s`, if any.
pub open spec fn first_match_from(s: Seq<u8>, p: Seq<u8>, k: int) -> Option<int>
    decreases s.len() - k,
{
    if k < 0 || k + p.len() > s.len() {
        None
    } else if s.subrange(k, k + p.len()) =~= p {
        Some(k)
    } else {
        first_match_from(s, p, k + 1)
    }
}

/// The first position where `p` occurs in `s`, if any (an empty `p` occurs at 0).
pub open spec fn first_match(s: Seq<u8>, p: Seq<u8>) -> Option<int> {
    first_match_from(s, p, 0)
}

/// A found position is a real occurrence and lies at or after the start.
pub proof fn lemma_first_match_from_found(s: Seq<u8>, p: Seq<u8>, k: int)
    requires
        first_match_from(s, p, k) is Some,
    ensures
        ({
            let i = first_match_from(s, p, k)->0;
            &&& k <= i
            &&& i + p.len() <= s.len()
            &&& s.subrange(i, i + p.len()) =~= p
        }),
    decreases s.len() - k,
{
    if k < 0 || k + p.len() > s.len() {
    } else if s.subrange(k, k + p.len()) =~= p {
    } else {
        lemma_first_match_from_found(s, p, k + 1);
    }
}

/// Returns the position of the first occurrence of `pattern` in `s`.
pub fn find(s: &[u8], pattern: &[u8]) -> (r: Option<usize>)
    ensures
        r matches Some(i) ==> first_match(s@, pattern@) == Some(i as int),
        r is None ==> first_match(s@, pattern@) is None,
{
    let n = s.len();
    let m = pattern.len();
    if m > n {
        return None;
    }
    let mut k: usize = 0;
    while k <= n - m
        invariant
            n == s@.len(),
            m == pattern@.len(),
            m <= n,
            k <= n - m + 1,
            first_match_from(s@, pattern@, 0) == first_match_from(s@, pattern@, k as int),
        decreases n - m + 1 - k,
    {
        let mut j: usize = 0;
        let mut same = true;
        while j < m
            invariant
                n == s@.len(),
                m == pattern@.len(),
                k + m <= n,
                j <= m,
                same <==> (forall|t: int| 0 <= t < j ==> s@[k + t] == pattern@[t]),
            decreases m - j,
        {
            if s[k + j] != pattern[j] {
                same = false;
            }
            j += 1;
        }
        if same {
            assert(s@.subrange(k as int, k + m) =~= pattern@);
            return Some(k);
        }
        assert(!(s@.subrange(k as int, k + m) =~= pattern@)) by {
            if s@.subrange(k as int, k + m) =~= pattern@ {
                assert forall|t: int| 0 <= t < m implies s@[k + t] == pattern@[t] by {
                    assert(s@.subrange(k as int, k + m)[t] == s@[k + t]);
                }
            }
        }
        k += 1;
    }
    None
}

/// The value of one digit character in the given radix (10 or 16), or -1
/// for a character that is no digit there.
pub open spec fn digit_value(b: u8, radix: nat) -> int {
    if 48 <= b <= 57 {
        b - 48
    } else if radix == 16 && 97 <= b <= 102 {
        b - 87
    } else if radix == 16 && 65 <= b <= 70 {
        b - 55
    } else {
        -1
    }
}

/// Every character of `s` is a digit in the radix.
pub open spec fn is_digits(s: Seq<u8>, radix: nat) -> bool {
    forall|i: int| 0 <= i < s.len() ==> digit_value(#[trigger] s[i], radix) >= 0
}

/// The number that a string of digits denotes, most significant digit first.
pub open spec fn digits_value(s: Seq<u8>, radix: nat) -> int
    decreases s.len(),
{
    if s.len() == 0 {
        0
    } else {
        digits_value(s.drop_last(), radix) * radix + digit_value(s.last(), radix)
    }
}

/// The digits of an unsigned number: one leading `+` is allowed and dropped.
pub open spec fn unsigned_digits(s: Seq<u8>) -> Seq<u8> {
    if s.len() > 0 && s[0] == 43 {
        s.drop_first()
    } else {
        s
    }
}

/// What parsing `s` as an unsigned integer of at most `max` gives: at least
/// one digit after an optional `+`, nothing but digits, and no overflow.
pub open spec fn parse_unsigned(s: Seq<u8>, radix: nat, max: nat) -> Option<nat> {
    let d = unsigned_digits(s);
    if d.len() > 0 && is_digits(d, radix) && digits_value(d, radix) <= max {
        Some(digits_value(d, radix) as nat)
    } else {
        None
    }
}

/// The value of digits is never negative.
pub proof fn lemma_digits_value_nonneg(s: Seq<u8>, radix: nat)
    requires
        is_digits(s, radix),
        radix == 10 || radix == 16,
    ensures
        digits_value(s, radix) >= 0,
    decreases s.len(),
{
    if s.len() > 0 {
        lemma_digits_value_nonneg(s.drop_last(), radix);
        assert(digit_value(s[s.len() - 1], radix) >= 0);
        assert(digits_value(s.drop_last(), radix) * radix >= 0) by (nonlinear_arith)
            requires
                digits_value(s.drop_last(), radix) >= 0,
                radix >= 0,
        ;
    }
}

/// A longer string of digits never denotes less than its prefix.
pub proof fn lemma_digits_value_prefix(s: Seq<u8>, k: int, radix: nat)
    requires
        is_digits(s, radix),
        0 <= k <= s.len(),
        radix == 10 || radix == 16,
    ensures
        digits_value(s.subrange(0, k), radix) <= digits_value(s, radix),
    decreases s.len(),
{
    if k < s.len() {
        let t = s.drop_last();
        assert(is_digits(t, radix)) by {
            assert forall|i: int| 0 <= i < t.len() implies digit_value(#[trigger] t[i], radix) >= 0 by {
                assert(t[i] == s[i]);
            }
        }
        lemma_digits_value_prefix(t, k, radix);
        assert(t.subrange(0, k) =~= s.subrange(0, k));
        lemma_digits_value_nonneg(t, radix);
        assert(digit_value(s[s.len() - 1], radix) >= 0);
        assert(digits_value(t, radix) <= digits_value(t, radix) * radix) by (nonlinear_arith)
            requires
                digits_value(t, radix) >= 0,
                radix >= 1,
        ;
    } else {
        assert(s.subrange(0, k) =~= s);
    }
}

fn digit(b: u8, radix: u64) -> (d: Option<u64>)
    requires
        radix == 10 || radix == 16,
    ensures
        d matches Some(v) ==> digit_value(b, radix as nat) == v as int,
        d is None ==> digit_value(b, radix as nat) < 0,
{
    if 48 <= b && b <= 57 {
        Some((b - 48) as u64)
    } else if radix == 16 && 97 <= b && b <= 102 {
        Some((b - 87) as u64)
    } else if radix == 16 && 65 <= b && b <= 70 {
        Some((b - 55) as u64)
    } else {
        None
    }
}

/// Parses `s` as an unsigned integer in radix 10 or 16 that may not exceed
/// `max`, the way `str::parse` and `from_str_radix` do for unsigned types.
pub fn parse_unsigned_exec(s: &[u8], radix: u64, max: u64) -> (r: Option<u64>)
    requires
        radix == 10 || radix == 16,
    ensures
        r matches Some(v) ==> parse_unsigned(s@, radix as nat, max as nat) == Some(v as nat) && v <= max,
        r is None ==> parse_unsigned(s@, radix as nat, max as nat) is None,
{
    let n = s.len();
    let start: usize = if n > 0 && s[0] == 43 { 1 } else { 0 };
    let ghost d = unsigned_digits(s@);
    assert(d =~= s@.subrange(start as int, n as int));
    if start >= n {
        return None;
    }
    let mut acc: u64 = 0;
    let mut i: usize = start;
    while i < n
        invariant
            n == s@.len(),
            start <= i <= n,
            start < n,
            d =~= s@.subrange(start as int, n as int),
            d == unsigned_digits(s@),
            is_digits(d.subrange(0, i - start), radix as nat),
            acc as int == digits_value(d.subrange(0, i - start), radix as nat),
            acc <= max,
            radix == 10 || radix == 16,
        decreases n - i,
    {
        let ghost pre = d.subrange(0, i - start);
        let ghost next = d.subrange(0, i - start + 1);
        assert(next.drop_last() =~= pre);
        assert(next.last() == s@[i as int]);
        match digit(s[i], radix) {
            None => {
                assert(!is_digits(d, radix as nat)) by {
                    assert(d[i - start] == s@[i as int]);
                }
                return None;
            }
            Some(v) => {
                assert(is_digits(next, radix as nat)) by {
                    assert forall|t: int| 0 <= t < next.len() implies digit_value(#[trigger] next[t], radix as nat) >= 0 by {
                        if t < pre.len() {
                            assert(next[t] == pre[t]);
                        }
                    }
                }
                let wide: u128 = if radix == 10 { acc as u128 * 10 + v as u128 } else { acc as u128 * 16 + v as u128 };
                assert(wide as int == digits_value(next, radix as nat));
                if wide > max as u128 {
                    proof {
                        if is_digits(d, radix as nat) {
                            lemma_digits_value_prefix(d, i - start + 1, radix as nat);
                        }
                    }
                    return None;
                }
                acc = wide as u64;
            }
        }
        i += 1;
    }
    assert(d.subrange(0, n - start) =~= d);
    Some(acc)
}

} // verus!
