//! Decimal number parsing over raw bytes, and helpers for the wrapping
//! 32-bit arithmetic and little-endian byte order used by the binary codec.

use vstd::prelude::*;

verus! {

/// ASCII decimal digit.
pub open spec fn is_digit(b: u8) -> bool {
    48 <= b <= 57
}

/// Numeric value of one ASCII digit.
pub open spec fn digit_val(b: u8) -> int {
    b - 48
}

/// Value of a run of decimal digits, most significant first.
pub open spec fn digits_val(s: Seq<u8>) -> int
    decreases s.len(),
{
    if s.len() == 0 {
        0
    } else {
        digits_val(s.drop_last()) * 10 + digit_val(s.last())
    }
}

pub open spec fn all_digits(s: Seq<u8>) -> bool {
    forall|i: int| 0 <= i < s.len() ==> is_digit(#[trigger] s[i])
}

pub proof fn lemma_digits_val_nonneg(s: Seq<u8>)
    requires
        all_digits(s),
    ensures
        digits_val(s) >= 0,
    decreases s.len(),
{
    if s.len() > 0 {
        assert(all_digits(s.drop_last()));
        lemma_digits_val_nonneg(s.drop_last());
    }
}

/// Appending digits never shrinks the value of a digit run.
pub proof fn lemma_digits_val_prefix_le(s: Seq<u8>, k: int)
    requires
        all_digits(s),
        0 <= k <= s.len(),
    ensures
        digits_val(s.subrange(0, k)) <= digits_val(s),
    decreases s.len() - k,
{
    if k == s.len() {
        assert(s.subrange(0, k) =~= s);
    } else {
        lemma_digits_val_prefix_le(s, k + 1);
        let p1 = s.subrange(0, k + 1);
        assert(p1.drop_last() =~= s.subrange(0, k));
        assert(all_digits(s.subrange(0, k)));
        lemma_digits_val_nonneg(s.subrange(0, k));
        assert(digits_val(p1) == digits_val(s.subrange(0, k)) * 10 + digit_val(s[k]));
        assert(digits_val(s.subrange(0, k)) * 10 >= digits_val(s.subrange(0, k)))
            by (nonlinear_arith)
            requires digits_val(s.subrange(0, k)) >= 0;
    }
}

/// The digits of a token after an optional leading sign byte.
pub open spec fn unsigned_part(s: Seq<u8>, plus_only: bool) -> Seq<u8> {
    if s.len() > 0 && (s[0] == 43 || (!plus_only && s[0] == 45)) {
        s.subrange(1, s.len() as int)
    } else {
        s
    }
}

/// What `str::parse::<u16>` accepts: an optional `+`, then one or more
/// digits, value at most `u16::MAX`.
pub open spec fn spec_parse_u16(s: Seq<u8>) -> Option<u16> {
    let digits = unsigned_part(s, true);
    if digits.len() > 0 && all_digits(digits) && digits_val(digits) <= u16::MAX {
        Some(digits_val(digits) as u16)
    } else {
        None
    }
}

/// The signed value of a token: negative when it starts with `-`.
pub open spec fn signed_val(s: Seq<u8>) -> int {
    if s.len() > 0 && s[0] == 45 {
        -digits_val(unsigned_part(s, false))
    } else {
        digits_val(unsigned_part(s, false))
    }
}

/// What `str::parse::<i32>` accepts: an optional sign, then one or more
/// digits, value within the `i32` range.
pub open spec fn spec_parse_i32(s: Seq<u8>) -> Option<i32> {
    let digits = unsigned_part(s, false);
    if digits.len() > 0 && all_digits(digits) && i32::MIN <= signed_val(s) <= i32::MAX {
        Some(signed_val(s) as i32)
    } else {
        None
    }
}

/// Parses an unsigned 16-bit decimal from raw bytes, as `str::parse` would.
pub fn parse_u16(s: &[u8]) -> (r: Option<u16>)
    ensures
        r == spec_parse_u16(s@),
{
    let n = s.len();
    let start: usize = if n > 0 && s[0] == 43 { 1 } else { 0 };
    let ghost digits = unsigned_part(s@, true);
    proof {
        assert(digits =~= s@.subrange(start as int, n as int));
    }
    if start == n {
        return None;
    }
    let mut acc: u32 = 0;
    let mut i: usize = start;
    while i < n
        invariant
            start <= i <= n,
            n == s@.len(),
            digits == unsigned_part(s@, true),
            digits =~= s@.subrange(start as int, n as int),
            all_digits(digits.subrange(0, i - start)),
            acc == digits_val(digits.subrange(0, i - start)),
            acc <= u16::MAX,
        decreases n - i,
    {
        let b = s[i];
        if b < 48 || b > 57 {
            assert(!is_digit(digits[i - start]));
            return None;
        }
        let d: u32 = (b - 48) as u32;
        let next: u32 = acc * 10 + d;
        proof {
            let p1 = digits.subrange(0, i + 1 - start);
            assert(p1.drop_last() =~= digits.subrange(0, i - start));
            assert(digits_val(p1) == acc * 10 + d);
        }
        if next > 65535 {
            proof {
                if all_digits(digits) {
                    lemma_digits_val_prefix_le(digits, i + 1 - start);
                }
            }
            return None;
        }
        acc = next;
        i += 1;
    }
    proof {
        assert(digits.subrange(0, n - start) =~= digits);
    }
    Some(acc as u16)
}

/// Parses a signed 32-bit decimal from raw bytes, as `str::parse` would.
pub fn parse_i32(s: &[u8]) -> (r: Option<i32>)
    ensures
        r == spec_parse_i32(s@),
{
    let n = s.len();
    let neg = n > 0 && s[0] == 45;
    let start: usize = if n > 0 && (s[0] == 43 || s[0] == 45) { 1 } else { 0 };
    let ghost digits = unsigned_part(s@, false);
    proof {
        assert(digits =~= s@.subrange(start as int, n as int));
    }
    if start == n {
        return None;
    }
    let mut acc: u64 = 0;
    let mut i: usize = start;
    while i < n
        invariant
            start <= i <= n,
            n == s@.len(),
            digits == unsigned_part(s@, false),
            digits =~= s@.subrange(start as int, n as int),
            all_digits(digits.subrange(0, i - start)),
            acc == digits_val(digits.subrange(0, i - start)),
            acc <= 0x8000_0000,
        decreases n - i,
    {
        let b = s[i];
        if b < 48 || b > 57 {
            assert(!is_digit(digits[i - start]));
            return None;
        }
        let d: u64 = (b - 48) as u64;
        let next: u64 = acc * 10 + d;
        proof {
            let p1 = digits.subrange(0, i + 1 - start);
            assert(p1.drop_last() =~= digits.subrange(0, i - start));
            assert(digits_val(p1) == acc * 10 + d);
        }
        if next > 0x8000_0000 {
            proof {
                if all_digits(digits) {
                    lemma_digits_val_prefix_le(digits, i + 1 - start);
                }
            }
            return None;
        }
        acc = next;
        i += 1;
    }
    proof {
        assert(digits.subrange(0, n - start) =~= digits);
    }
    if neg {
        let v: i64 = -(acc as i64);
        Some(v as i32)
    } else {
        if acc > 0x7fff_ffff {
            return None;
        }
        Some(acc as i32)
    }
}

/// The wrapping difference inverts the wrapping sum: recovering a value from
/// its prediction and stored delta is exact.
pub proof fn lemma_wrap_roundtrip(c: i32, p: i32)
    ensures
        p.wrapping_add(c.wrapping_sub(p)) == c,
{
}

/// Little-endian bytes of a signed 32-bit value, through its two's-complement
/// bit pattern.
pub open spec fn spec_i32_to_le_bytes(x: i32) -> Seq<u8> {
    vstd::bytes::spec_u32_to_le_bytes(x as u32)
}

pub open spec fn spec_i32_from_le_bytes(s: Seq<u8>) -> i32 {
    vstd::bytes::spec_u32_from_le_bytes(s) as i32
}

pub proof fn lemma_i32_le_bytes_roundtrip(x: i32)
    ensures
        spec_i32_to_le_bytes(x).len() == 4,
        spec_i32_from_le_bytes(spec_i32_to_le_bytes(x)) == x,
{
    vstd::bytes::lemma_auto_spec_u32_to_from_le_bytes();
    let w = #[verifier::truncate] (x as u32);
    assert(vstd::bytes::spec_u32_to_le_bytes(w).len() == 4);
    assert(vstd::bytes::spec_u32_from_le_bytes(vstd::bytes::spec_u32_to_le_bytes(w)) == w);
    assert(((x as u32) as i32) == x) by (bit_vector);
}

/// Reads a signed 32-bit value from four little-endian bytes.
pub fn i32_from_le_bytes(s: &[u8]) -> (x: i32)
    requires
        s@.len() == 4,
    ensures
        x == spec_i32_from_le_bytes(s@),
{
    let w = vstd::bytes::u32_from_le_bytes(s);
    #[verifier::truncate] (w as i32)
}

/// Writes a signed 32-bit value as four little-endian bytes.
pub fn i32_to_le_bytes(x: i32) -> (s: Vec<u8>)
    ensures
        s@ == spec_i32_to_le_bytes(x),
{
    vstd::bytes::u32_to_le_bytes(#[verifier::truncate] (x as u32))
}

} // verus!
