//! Decoding of integer literals: decimal, `0x` hexadecimal and leading-zero
//! octal, each optionally negative. A literal that cannot be decoded, or
//! whose magnitude does not fit in 64 signed bits, decodes to zero.

use vstd::prelude::*;

verus! {

broadcast use vstd::string::group_string_axioms;

/// Whether `c` is a digit in base `radix` (8, 10 or 16).
pub open spec fn is_digit_in(c: char, radix: nat) -> bool {
    if radix == 16 {
        ('0' <= c <= '9') || ('a' <= c <= 'f') || ('A' <= c <= 'F')
    } else if radix == 8 {
        '0' <= c <= '7'
    } else {
        '0' <= c <= '9'
    }
}

/// The value of a single digit character.
pub open spec fn digit_value(c: char) -> nat {
    if '0' <= c <= '9' {
        (c as u32 - '0' as u32) as nat
    } else if 'a' <= c <= 'f' {
        (c as u32 - 'a' as u32 + 10) as nat
    } else if 'A' <= c <= 'F' {
        (c as u32 - 'A' as u32 + 10) as nat
    } else {
        0
    }
}

/// The number that the digit string `s` denotes in base `radix`.
pub open spec fn digits_value(s: Seq<char>, radix: nat) -> nat
    decreases s.len(),
{
    if s.len() == 0 {
        0
    } else {
        digits_value(s.drop_last(), radix) * radix + digit_value(s.last())
    }
}

pub open spec fn all_digits(s: Seq<char>, radix: nat) -> bool {
    forall|i: int| 0 <= i < s.len() ==> is_digit_in(#[trigger] s[i], radix)
}

/// A non-empty digit string in base `radix` whose value fits in `i64`
/// denotes that value; anything else denotes zero.
pub open spec fn radix_value(s: Seq<char>, radix: nat) -> int {
    if s.len() > 0 && all_digits(s, radix) && digits_value(s, radix) <= i64::MAX {
        digits_value(s, radix) as int
    } else {
        0
    }
}

/// The magnitude of an unsigned literal: `0x`/`0X` then hexadecimal digits,
/// `0` then octal digits, or decimal digits.
pub open spec fn magnitude(b: Seq<char>) -> int {
    if b.len() >= 2 && b[0] == '0' && (b[1] == 'x' || b[1] == 'X') {
        radix_value(b.subrange(2, b.len() as int), 16)
    } else if b.len() > 1 && b[0] == '0' {
        radix_value(b.subrange(1, b.len() as int), 8)
    } else {
        radix_value(b, 10)
    }
}

/// The value of a literal, with its optional leading minus sign applied.
pub open spec fn literal_value(t: Seq<char>) -> int {
    if t.len() > 0 && t[0] == '-' {
        -magnitude(t.drop_first())
    } else {
        magnitude(t)
    }
}

/// A tag number: negative values clamp to zero, then the value is truncated
/// to 32 unsigned bits.
pub open spec fn tag_of(t: Seq<char>) -> u32 {
    let v = literal_value(t);
    if v < 0 {
        0
    } else {
        (v % 0x1_0000_0000) as u32
    }
}

/// The two's-complement truncation of `v` to 32 signed bits.
pub open spec fn wrap_i32(v: int) -> i32 {
    let w = v % 0x1_0000_0000;
    if w >= 0x8000_0000 {
        (w - 0x1_0000_0000) as i32
    } else {
        w as i32
    }
}

/// An enum number: the signed value truncated to 32 signed bits.
pub open spec fn enum_number_of(t: Seq<char>) -> i32 {
    wrap_i32(literal_value(t))
}

proof fn lemma_prefix_value_le(s: Seq<char>, k: int, radix: nat)
    requires
        0 <= k <= s.len(),
        radix >= 1,
    ensures
        digits_value(s.subrange(0, k), radix) <= digits_value(s, radix),
    decreases s.len(),
{
    if k == s.len() {
        assert(s.subrange(0, k) =~= s);
    } else {
        let p = s.drop_last();
        lemma_prefix_value_le(p, k, radix);
        assert(p.subrange(0, k) =~= s.subrange(0, k));
        let x = digits_value(p, radix);
        assert(x * radix + digit_value(s.last()) >= x) by (nonlinear_arith)
            requires
                radix >= 1,
        ;
    }
}

/// Decodes the digits of `t` from position `start` on in base `radix`.
fn radix_digits(t: &Vec<char>, start: usize, radix: u64) -> (r: i64)
    requires
        start <= t@.len(),
        radix == 8 || radix == 10 || radix == 16,
    ensures
        r == radix_value(t@.subrange(start as int, t@.len() as int), radix as nat),
{
    let ghost d = t@.subrange(start as int, t@.len() as int);
    if start == t.len() {
        return 0;
    }
    let mut acc: u64 = 0;
    let mut i: usize = start;
    while i < t.len()
        invariant
            start <= i <= t@.len(),
            d == t@.subrange(start as int, t@.len() as int),
            radix == 8 || radix == 10 || radix == 16,
            acc <= i64::MAX,
            acc == digits_value(t@.subrange(start as int, i as int), radix as nat),
            all_digits(t@.subrange(start as int, i as int), radix as nat),
        decreases t@.len() - i,
    {
        let c = t[i];
        let ok = if radix == 16 {
            ('0' <= c && c <= '9') || ('a' <= c && c <= 'f') || ('A' <= c && c <= 'F')
        } else if radix == 8 {
            '0' <= c && c <= '7'
        } else {
            '0' <= c && c <= '9'
        };
        if !ok {
            assert(!all_digits(d, radix as nat)) by {
                assert(d[i - start] == c);
            }
            return 0;
        }
        let dv: u64 = if '0' <= c && c <= '9' {
            (c as u32 - '0' as u32) as u64
        } else if 'a' <= c && c <= 'f' {
            (c as u32 - 'a' as u32 + 10) as u64
        } else {
            (c as u32 - 'A' as u32 + 10) as u64
        };
        let ghost prev = t@.subrange(start as int, i as int);
        let ghost next = t@.subrange(start as int, i + 1);
        assert(next.drop_last() =~= prev);
        assert(next.last() == c);
        assert((acc as u128) * (radix as u128) <= 0x8000_0000_0000_0000u128 * 16) by (nonlinear_arith)
            requires
                acc <= i64::MAX,
                radix <= 16,
        ;
        let wide: u128 = (acc as u128) * (radix as u128) + dv as u128;
        assert(wide == digits_value(next, radix as nat));
        if wide > i64::MAX as u128 {
            proof {
                assert(d.subrange(0, i + 1 - start) =~= next);
                lemma_prefix_value_le(d, i + 1 - start, radix as nat);
            }
            return 0;
        }
        acc = wide as u64;
        i = i + 1;
        assert(all_digits(next, radix as nat)) by {
            assert forall|j: int| 0 <= j < next.len() implies is_digit_in(#[trigger] next[j], radix as nat) by {
                if j < prev.len() {
                    assert(next[j] == prev[j]);
                }
            }
        }
    }
    assert(t@.subrange(start as int, i as int) =~= d);
    acc as i64
}

/// Decodes a literal token to its signed value; a token that cannot be
/// decoded gives zero.
pub fn decode_literal(tok: &str) -> (r: i64)
    ensures
        r == literal_value(tok@),
{
    let t = crate::text::to_chars(tok);
    let n = t.len();
    let neg = n > 0 && t[0] == '-';
    let s: usize = if neg { 1 } else { 0 };
    let ghost b = t@.subrange(s as int, n as int);
    proof {
        if neg {
            assert(b =~= tok@.drop_first());
        } else {
            assert(b =~= tok@);
        }
    }
    let mag: i64 = if n >= s + 2 && t[s] == '0' && (t[s + 1] == 'x' || t[s + 1] == 'X') {
        assert(b.subrange(2, b.len() as int) =~= t@.subrange(s + 2, n as int));
        radix_digits(&t, s + 2, 16)
    } else if n > s + 1 && t[s] == '0' {
        assert(b.subrange(1, b.len() as int) =~= t@.subrange(s + 1, n as int));
        radix_digits(&t, s + 1, 8)
    } else {
        radix_digits(&t, s, 10)
    };
    if neg {
        -mag
    } else {
        mag
    }
}

/// The tag number that a literal token denotes.
pub fn tag_number(tok: &str) -> (r: u32)
    ensures
        r == tag_of(tok@),
{
    let v = decode_literal(tok);
    if v < 0 {
        0
    } else {
        (v % 0x1_0000_0000) as u32
    }
}

/// The enum number that a literal token denotes.
pub fn enum_number(tok: &str) -> (r: i32)
    ensures
        r == enum_number_of(tok@),
{
    let v = decode_literal(tok);
    let w: i64 = if v >= 0 {
        v % 0x1_0000_0000
    } else {
        let m: i64 = -v;
        let rem: i64 = m % 0x1_0000_0000;
        proof {
            assert((v as int) % 0x1_0000_0000 == if rem == 0 { 0 } else { 0x1_0000_0000 - rem })
                by (nonlinear_arith)
                requires
                    m == -v,
                    m > 0,
                    rem == m % 0x1_0000_0000,
            ;
        }
        if rem == 0 {
            0
        } else {
            0x1_0000_0000 - rem
        }
    };
    if w >= 0x8000_0000 {
        (w - 0x1_0000_0000) as i32
    } else {
        w as i32
    }
}

} // verus!
