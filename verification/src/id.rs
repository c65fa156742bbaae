//! Document ids: 128-bit UUIDs written as `xxxxxxxx-xxxx-xxxx-xxxx-xxxxxxxxxxxx`.

use vstd::prelude::*;
use vstd::string::*;
use vstd::utf8::*;
use crate::scan::{digits_value, is_digits, parse_unsigned, unsigned_digits};
use crate::trusted::{hex_u128, push_char};

verus! {

/// A document id.
#[derive(Copy, Clone, PartialEq, Eq, PartialOrd, Ord, Structural)]
pub struct RDbId(pub u128);

/// `16^n`
pub open spec fn pow16(n: nat) -> nat
    decreases n,
{
    if n == 0 {
        1
    } else {
        16 * pow16((n - 1) as nat)
    }
}

/// The value of one hexadecimal field of an id: the bytes from `lo` to `hi`
/// read the way `u128::from_str_radix(_, 16)` reads them.
pub open spec fn hex_field(b: Seq<u8>, lo: int, hi: int) -> Option<nat> {
    parse_unsigned(b.subrange(lo, hi), 16, u128::MAX as nat)
}

/// The id that the bytes of a text denote: 36 bytes, whose five hexadecimal
/// fields (the separators between them are not looked at) give the 32, 16,
/// 16, 16 and 48 bits of the id, most significant first.
pub open spec fn parse_id(b: Seq<u8>) -> Option<u128> {
    if b.len() != 36 {
        None
    } else {
        match (hex_field(b, 0, 8), hex_field(b, 9, 13), hex_field(b, 14, 18), hex_field(b, 19, 23), hex_field(b, 24, 36)) {
            (Some(f0), Some(f1), Some(f2), Some(f3), Some(f4)) => Some(
                (f0 * 0x1_0000_0000_0000_0000_0000_0000 + f1 * 0x1_0000_0000_0000_0000_0000 + f2
                    * 0x1_0000_0000_0000_0000 + f3 * 0x1_0000_0000_0000 + f4) as u128,
            ),
            _ => None,
        }
    }
}

/// The positions at which an id's text is cut are character boundaries
/// (slicing a text elsewhere panics).
pub open spec fn id_cuts_on_boundaries(b: Seq<u8>) -> bool {
    b.len() == 36 ==> {
        &&& is_char_boundary(b, 8)
        &&& is_char_boundary(b, 9)
        &&& is_char_boundary(b, 13)
        &&& is_char_boundary(b, 14)
        &&& is_char_boundary(b, 18)
        &&& is_char_boundary(b, 19)
        &&& is_char_boundary(b, 23)
        &&& is_char_boundary(b, 24)
    }
}

/// The hexadecimal digits of the `n` lowest nibbles of `v`, most significant first.
pub open spec fn hex_digits(v: nat, n: nat) -> Seq<nat>
    decreases n,
{
    if n == 0 {
        Seq::empty()
    } else {
        hex_digits(v / 16, (n - 1) as nat).push(v % 16)
    }
}

/// The digits are `n` values below 16.
pub proof fn lemma_hex_digits_shape(v: nat, n: nat)
    ensures
        hex_digits(v, n).len() == n,
        forall|t: int| 0 <= t < n ==> #[trigger] hex_digits(v, n)[t] < 16,
    decreases n,
{
    if n > 0 {
        lemma_hex_digits_shape(v / 16, (n - 1) as nat);
        let p = hex_digits(v / 16, (n - 1) as nat);
        assert forall|t: int| 0 <= t < n implies #[trigger] hex_digits(v, n)[t] < 16 by {
            if t < n - 1 {
                assert(hex_digits(v, n)[t] == p[t]);
            }
        }
    }
}

/// The lower-case character of a hexadecimal digit.
pub open spec fn hex_char(d: nat) -> char {
    if d < 10 {
        (48 + d) as char
    } else {
        (87 + d) as char
    }
}

/// Which nibble of the id the character at position `i` of its text shows.
pub open spec fn nibble_at(i: int) -> int {
    if i < 8 {
        i
    } else if i < 13 {
        i - 1
    } else if i < 18 {
        i - 2
    } else if i < 23 {
        i - 3
    } else {
        i - 4
    }
}

/// The text of an id: its 32 nibbles in lower-case hexadecimal, most
/// significant first, with a `-` after the 8th, 12th, 16th and 20th.
pub open spec fn id_text(v: u128) -> Seq<char> {
    let h = hex_digits(v as nat, 32);
    Seq::new(
        36,
        |i: int|
            if i == 8 || i == 13 || i == 18 || i == 23 {
                '-'
            } else {
                hex_char(h[nibble_at(i)])
            },
    )
}

/// A string of hexadecimal digits is less than 16 to the power of its length.
pub proof fn lemma_hex_value_bound(s: Seq<u8>, n: nat)
    requires
        is_digits(s, 16),
        s.len() <= n,
    ensures
        digits_value(s, 16) < pow16(n),
        digits_value(s, 16) >= 0,
    decreases n,
{
    if s.len() == 0 {
        lemma_pow16_positive(n);
    } else {
        let t = s.drop_last();
        assert(is_digits(t, 16)) by {
            assert forall|i: int| 0 <= i < t.len() implies crate::scan::digit_value(#[trigger] t[i], 16) >= 0 by {
                assert(t[i] == s[i]);
            }
        }
        lemma_hex_value_bound(t, (n - 1) as nat);
        assert(crate::scan::digit_value(s[s.len() - 1], 16) >= 0);
    }
}

/// Powers of 16 are positive.
pub proof fn lemma_pow16_positive(n: nat)
    ensures
        pow16(n) >= 1,
    decreases n,
{
    if n > 0 {
        lemma_pow16_positive((n - 1) as nat);
    }
}

/// A field of an id with at most `n` characters is less than `16^n`.
proof fn lemma_field_bound(b: Seq<u8>, n: nat)
    requires
        parse_unsigned(b, 16, u128::MAX as nat) is Some,
        b.len() <= n,
    ensures
        parse_unsigned(b, 16, u128::MAX as nat)->0 < pow16(n),
{
    let d = unsigned_digits(b);
    lemma_hex_value_bound(d, n);
}

/// A cut of a valid text is a cut of every part of it that starts at an
/// earlier cut.
proof fn lemma_boundary_in_suffix(b: Seq<u8>, k: int, i: int)
    requires
        valid_utf8(b),
        0 <= k <= i <= b.len(),
        is_char_boundary(b, k),
        is_char_boundary(b, i),
    ensures
        valid_utf8(b.subrange(k, b.len() as int)),
        is_char_boundary(b.subrange(k, b.len() as int), i - k),
{
    let t = b.subrange(k, b.len() as int);
    valid_utf8_split(b, k);
    is_char_boundary_start_end_of_seq(t);
    if k < i && i < b.len() {
        is_char_boundary_iff_not_is_continuation_byte(b, i);
        is_char_boundary_iff_not_is_continuation_byte(t, i - k);
        assert(t[i - k] == b[i]);
    }
}

/// The part of a text between two cuts.
fn cut(s: &str, lo: usize, hi: usize) -> (r: &str)
    requires
        lo <= hi <= s.spec_bytes().len(),
        is_char_boundary(s.spec_bytes(), lo as int),
        is_char_boundary(s.spec_bytes(), hi as int),
    ensures
        r.spec_bytes() == s.spec_bytes().subrange(lo as int, hi as int),
{
    proof {
        encode_utf8_valid_utf8(s@);
        lemma_boundary_in_suffix(s.spec_bytes(), lo as int, hi as int);
    }
    let (_, rest) = s.split_at(lo);
    let (mid, _) = rest.split_at(hi - lo);
    mid
}

/// Powers of 16 grow with the exponent.
pub proof fn lemma_pow16_monotone(m: nat, n: nat)
    requires
        m <= n,
    ensures
        pow16(m) <= pow16(n),
    decreases n,
{
    if m < n {
        lemma_pow16_monotone(m, (n - 1) as nat);
        lemma_pow16_positive((n - 1) as nat);
    }
}

impl RDbId {
    /// Reads an id from its text (see `parse_id`), parsing each field with
    /// `u128::from_str_radix`; a text of another length than 36 fails with
    /// the error of parsing the empty text, and a field that fails with its
    /// own error.
    pub fn from_str(s: &str) -> (r: Result<RDbId, std::num::ParseIntError>)
        requires
            id_cuts_on_boundaries(s.spec_bytes()),
        ensures
            r is Ok <==> parse_id(s.spec_bytes()) is Some,
            r is Ok ==> r->Ok_0.0 == parse_id(s.spec_bytes())->0,
    {
        let b = s.as_bytes();
        let ghost sb = s.spec_bytes();
        if b.len() != 36 {
            let empty = "";
            proof {
                reveal_strlit("");
            }
            return match hex_u128(empty) {
                Err(e) => Err(e),
                Ok(_) => {
                    proof { assert(empty.spec_bytes() =~= Seq::<u8>::empty()); }
                    Ok(RDbId(0))
                },
            };
        }
        proof {
            encode_utf8_valid_utf8(s@);
            is_char_boundary_start_end_of_seq(sb);
        }
        let f0 = match hex_u128(cut(s, 0, 8)) {
            Ok(v) => v,
            Err(e) => return Err(e),
        };
        let f1 = match hex_u128(cut(s, 9, 13)) {
            Ok(v) => v,
            Err(e) => return Err(e),
        };
        let f2 = match hex_u128(cut(s, 14, 18)) {
            Ok(v) => v,
            Err(e) => return Err(e),
        };
        let f3 = match hex_u128(cut(s, 19, 23)) {
            Ok(v) => v,
            Err(e) => return Err(e),
        };
        let f4 = match hex_u128(cut(s, 24, 36)) {
            Ok(v) => v,
            Err(e) => return Err(e),
        };
        proof {
            reveal_with_fuel(pow16, 13);
            lemma_field_bound(sb.subrange(0, 8), 8);
            lemma_field_bound(sb.subrange(9, 13), 4);
            lemma_field_bound(sb.subrange(14, 18), 4);
            lemma_field_bound(sb.subrange(19, 23), 4);
            lemma_field_bound(sb.subrange(24, 36), 12);
        }
        let v: u128 = f0 * 0x1_0000_0000_0000_0000_0000_0000 + f1 * 0x1_0000_0000_0000_0000_0000
            + f2 * 0x1_0000_0000_0000_0000 + f3 * 0x1_0000_0000_0000 + f4;
        Ok(RDbId(v))
    }

    /// The text of the id (see `id_text`).
    pub fn to_string(&self) -> (s: String)
        ensures
            s@ == id_text(self.0),
    {
        let v = self.0;
        let ghost h = hex_digits(v as nat, 32);
        proof { lemma_hex_digits_shape(v as nat, 32); }
        let mut nibbles = [0u8; 32];
        let mut cur: u128 = v;
        let mut j: usize = 0;
        while j < 32
            invariant
                j <= 32,
                h == hex_digits(v as nat, 32),
                h.len() == 32,
                forall|t: int| 0 <= t < 32 ==> #[trigger] h[t] < 16,
                h.subrange(0, 32 - j) == hex_digits(cur as nat, (32 - j) as nat),
                forall|t: int| 32 - j <= t < 32 ==> nibbles@[t] as nat == #[trigger] h[t],
            decreases 32 - j,
        {
            let ghost m: nat = (32 - j - 1) as nat;
            assert(hex_digits(cur as nat, m + 1) == hex_digits(cur as nat / 16, m).push(cur as nat % 16));
            assert(h[m as int] == h.subrange(0, 32 - j)[m as int]);
            assert(h.subrange(0, m as int) =~= h.subrange(0, 32 - j).subrange(0, m as int));
            nibbles[31 - j] = (cur % 16) as u8;
            cur = cur / 16;
            j += 1;
        }
        let mut s = String::new();
        let mut i: usize = 0;
        while i < 36
            invariant
                i <= 36,
                h == hex_digits(v as nat, 32),
                h.len() == 32,
                forall|t: int| 0 <= t < 32 ==> #[trigger] h[t] < 16,
                forall|t: int| 0 <= t < 32 ==> nibbles@[t] as nat == #[trigger] h[t],
                s@ =~= id_text(v).subrange(0, i as int),
            decreases 36 - i,
        {
            let c: char = if i == 8 || i == 13 || i == 18 || i == 23 {
                '-'
            } else {
                let k: usize = if i < 8 {
                    i
                } else if i < 13 {
                    i - 1
                } else if i < 18 {
                    i - 2
                } else if i < 23 {
                    i - 3
                } else {
                    i - 4
                };
                let d = nibbles[k];
                assert(d as nat == h[nibble_at(i as int)]);
                assert(d < 16);
                if d < 10 {
                    (48 + d) as char
                } else {
                    (87 + d) as char
                }
            };
            push_char(&mut s, c);
            i += 1;
        }
        s
    }
}

/// The number that a string of hexadecimal digit values denotes, most
/// significant first.
pub open spec fn nibbles_value(s: Seq<nat>) -> nat
    decreases s.len(),
{
    if s.len() == 0 {
        0
    } else {
        nibbles_value(s.drop_last()) * 16 + s.last()
    }
}

proof fn lemma_hex_digits_value(x: nat, n: nat)
    ensures
        nibbles_value(hex_digits(x, n)) == x % pow16(n),
    decreases n,
{
    if n == 0 {
        assert(x % 1 == 0) by (nonlinear_arith);
    } else {
        let p = (n - 1) as nat;
        lemma_hex_digits_value(x / 16, p);
        let h = hex_digits(x, n);
        assert(h.drop_last() =~= hex_digits(x / 16, p));
        lemma_pow16_positive(p);
        vstd::arithmetic::div_mod::lemma_breakdown(x as int, 16, pow16(p) as int);
    }
}

proof fn lemma_nibbles_value_concat(s: Seq<nat>, t: Seq<nat>)
    ensures
        nibbles_value(s + t) == nibbles_value(s) * pow16(t.len()) + nibbles_value(t),
    decreases t.len(),
{
    if t.len() == 0 {
        assert(s + t =~= s);
        assert(pow16(0) == 1);
        assert(nibbles_value(t) == 0);
    } else {
        let t0 = t.drop_last();
        lemma_nibbles_value_concat(s, t0);
        assert((s + t).drop_last() =~= s + t0);
        assert((s + t).last() == t.last());
        assert(pow16(t.len()) == 16 * pow16(t0.len()));
        let a = nibbles_value(s);
        let pp = pow16(t0.len());
        let b = nibbles_value(t0);
        assert((a * pp + b) * 16 + t.last() == a * (16 * pp) + (b * 16 + t.last())) by (nonlinear_arith);
        assert(nibbles_value(s + t) == nibbles_value(s + t0) * 16 + t.last());
        assert(nibbles_value(t) == b * 16 + t.last());
    }
}

proof fn lemma_nibbles_value_bound(s: Seq<nat>)
    requires
        forall|i: int| 0 <= i < s.len() ==> s[i] < 16,
    ensures
        nibbles_value(s) < pow16(s.len()),
    decreases s.len(),
{
    if s.len() > 0 {
        let t = s.drop_last();
        lemma_nibbles_value_bound(t);
        assert(s[s.len() - 1] < 16);
    }
}

/// The character of a hexadecimal digit reads back as that digit.
proof fn lemma_hex_char_digit(d: nat)
    requires
        d < 16,
    ensures
        crate::scan::digit_value(hex_char(d) as u8, 16) == d,
        hex_char(d) as u8 != 43,
        '\0' <= hex_char(d) <= '\u{7f}',
{
}

proof fn lemma_hex_text_digits(b: Seq<u8>, nib: Seq<nat>)
    requires
        b.len() == nib.len(),
        forall|i: int| 0 <= i < nib.len() ==> #[trigger] nib[i] < 16,
        forall|i: int| 0 <= i < b.len() ==> #[trigger] b[i] == hex_char(nib[i]) as u8,
    ensures
        is_digits(b, 16),
        digits_value(b, 16) == nibbles_value(nib),
    decreases b.len(),
{
    assert forall|i: int| 0 <= i < b.len() implies crate::scan::digit_value(#[trigger] b[i], 16) >= 0 by {
        assert(nib[i] < 16);
        lemma_hex_char_digit(nib[i]);
    }
    if b.len() > 0 {
        let b0 = b.drop_last();
        let n0 = nib.drop_last();
        assert forall|i: int| 0 <= i < n0.len() implies #[trigger] n0[i] < 16 by {
            assert(n0[i] == nib[i]);
        }
        assert forall|i: int| 0 <= i < b0.len() implies #[trigger] b0[i] == hex_char(n0[i]) as u8 by {
            assert(b0[i] == b[i]);
            assert(n0[i] == nib[i]);
        }
        lemma_hex_text_digits(b0, n0);
        assert(nib[nib.len() - 1] < 16);
        lemma_hex_char_digit(nib.last());
    }
}

/// One field of the text of an id reads as the value of its nibbles.
proof fn lemma_field_value(b: Seq<u8>, h: Seq<nat>, lo: int, hi: int, nlo: int)
    requires
        0 <= lo < hi <= b.len(),
        0 <= nlo,
        nlo + (hi - lo) <= h.len(),
        hi - lo <= 12,
        forall|i: int| 0 <= i < h.len() ==> h[i] < 16,
        forall|i: int| lo <= i < hi ==> #[trigger] b[i] == hex_char(h[i - lo + nlo]) as u8,
    ensures
        hex_field(b, lo, hi) == Some(nibbles_value(h.subrange(nlo, nlo + (hi - lo)))),
{
    let bs = b.subrange(lo, hi);
    let g = h.subrange(nlo, nlo + (hi - lo));
    assert forall|i: int| 0 <= i < g.len() implies #[trigger] g[i] < 16 by {
        assert(g[i] == h[nlo + i]);
    }
    assert forall|i: int| 0 <= i < bs.len() implies #[trigger] bs[i] == hex_char(g[i]) as u8 by {
        assert(bs[i] == b[lo + i]);
        assert(g[i] == h[nlo + i]);
        assert(b[lo + i] == hex_char(h[(lo + i) - lo + nlo]) as u8);
    }
    assert(g[0] < 16);
    lemma_hex_text_digits(bs, g);
    lemma_hex_char_digit(g[0]);
    assert(crate::scan::unsigned_digits(bs) == bs);
    lemma_nibbles_value_bound(g);
    reveal_with_fuel(pow16, 13);
    lemma_pow16_monotone(g.len(), 12);
}

/// The text of an id is lower-case: a `-` at positions 8, 13, 18 and 23,
/// and elsewhere a digit `0`-`9` or a letter `a`-`f`, never an upper-case
/// one. Together with its reading back as the id, this fixes the text.
pub proof fn lemma_id_text_is_lower_case_hex(v: u128)
    ensures
        id_text(v).len() == 36,
        forall|i: int|
            0 <= i < 36 ==> {
                let c = #[trigger] id_text(v)[i];
                &&& (i == 8 || i == 13 || i == 18 || i == 23) ==> c == '-'
                &&& !(i == 8 || i == 13 || i == 18 || i == 23) ==> ('0' <= c <= '9' || 'a' <= c <= 'f')
            },
{
    lemma_hex_digits_shape(v as nat, 32);
    let h = hex_digits(v as nat, 32);
    assert forall|i: int| 0 <= i < 36 && !(i == 8 || i == 13 || i == 18 || i == 23) implies {
        let c = #[trigger] id_text(v)[i];
        '0' <= c <= '9' || 'a' <= c <= 'f'
    } by {
        assert(0 <= nibble_at(i) < 32);
        assert(h[nibble_at(i)] < 16);
    }
}

/// The text of an id reads back as the id: `from_str` accepts what
/// `to_string` writes (it is cut on character boundaries only) and gives back
/// the id.
pub proof fn lemma_id_text_parses_back(v: u128)
    ensures
        id_cuts_on_boundaries(encode_utf8(id_text(v))),
        parse_id(encode_utf8(id_text(v))) == Some(v),
{
    let t = id_text(v);
    let h = hex_digits(v as nat, 32);
    lemma_hex_digits_shape(v as nat, 32);
    assert forall|i: int| 0 <= i < t.len() implies '\0' <= #[trigger] t[i] <= '\u{7f}' by {
        if !(i == 8 || i == 13 || i == 18 || i == 23) {
            lemma_hex_char_digit(h[nibble_at(i)]);
        }
    }
    assert(is_ascii_chars(t));
    is_ascii_chars_encode_utf8(t);
    let b = encode_utf8(t);
    assert(b.len() == 36);
    vstd::utf8::encode_utf8_valid_utf8(t);
    assert forall|i: int| 0 <= i < 36 implies is_char_boundary(b, i) by {
        assert(t[i] as u8 == b[i]);
        vstd::utf8::is_char_boundary_iff_not_is_continuation_byte(b, i);
    }
    assert forall|i: int| 0 <= i < 36 && !(i == 8 || i == 13 || i == 18 || i == 23) implies #[trigger] b[i]
        == hex_char(h[nibble_at(i)]) as u8 by {
        assert(t[i] as u8 == b[i]);
    }
    lemma_field_value(b, h, 0, 8, 0);
    lemma_field_value(b, h, 9, 13, 8);
    lemma_field_value(b, h, 14, 18, 12);
    lemma_field_value(b, h, 19, 23, 16);
    lemma_field_value(b, h, 24, 36, 20);
    let g0 = h.subrange(0, 8);
    let g1 = h.subrange(8, 12);
    let g2 = h.subrange(12, 16);
    let g3 = h.subrange(16, 20);
    let g4 = h.subrange(20, 32);
    assert(h =~= g0 + g1 + g2 + g3 + g4);
    lemma_nibbles_value_concat(g0, g1);
    lemma_nibbles_value_concat(g0 + g1, g2);
    lemma_nibbles_value_concat(g0 + g1 + g2, g3);
    lemma_nibbles_value_concat(g0 + g1 + g2 + g3, g4);
    lemma_hex_digits_value(v as nat, 32);
    reveal_with_fuel(pow16, 33);
    assert(pow16(32) == 0x1_0000_0000_0000_0000_0000_0000_0000_0000);
    assert((v as nat) % pow16(32) == v as nat) by {
        vstd::arithmetic::div_mod::lemma_small_mod(v as nat, pow16(32));
    }
    let f0 = nibbles_value(g0);
    let f1 = nibbles_value(g1);
    let f2 = nibbles_value(g2);
    let f3 = nibbles_value(g3);
    let f4 = nibbles_value(g4);
    assert(nibbles_value(h) == v);
    assert(pow16(4) == 0x1_0000);
    assert(pow16(12) == 0x1_0000_0000_0000);
    assert(nibbles_value(g0 + g1) == f0 * 0x1_0000 + f1);
    assert(nibbles_value(g0 + g1 + g2) == (f0 * 0x1_0000 + f1) * 0x1_0000 + f2);
    assert(nibbles_value(g0 + g1 + g2 + g3) == ((f0 * 0x1_0000 + f1) * 0x1_0000 + f2) * 0x1_0000 + f3);
    assert(nibbles_value(g0 + g1 + g2 + g3 + g4) == (((f0 * 0x1_0000 + f1) * 0x1_0000 + f2) * 0x1_0000 + f3)
        * 0x1_0000_0000_0000 + f4);
    assert((((f0 * 0x1_0000 + f1) * 0x1_0000 + f2) * 0x1_0000 + f3) * 0x1_0000_0000_0000 + f4
        == f0 * 0x1_0000_0000_0000_0000_0000_0000 + f1 * 0x1_0000_0000_0000_0000_0000 + f2 * 0x1_0000_0000_0000_0000
        + f3 * 0x1_0000_0000_0000 + f4) by (nonlinear_arith);
}

} // verus!
