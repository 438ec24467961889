//! Parsing base-10 unsigned 64-bit integers from strings, and
//! collecting a whole argument list into a number sequence, failing
//! on the first argument that does not parse.

use vstd::prelude::*;
use vstd::string::StringSliceAdditionalSpecFns;

verus! {

/// The byte is the ASCII code of a decimal digit.
pub open spec fn is_dec_digit(b: u8) -> bool {
    48 <= b <= 57
}

/// The numeric value of a decimal digit byte.
pub open spec fn digit_value(b: u8) -> nat
    recommends
        is_dec_digit(b),
{
    (b - 48) as nat
}

/// Every byte of the sequence is a decimal digit.
pub open spec fn all_dec_digits(s: Seq<u8>) -> bool {
    forall|i: int| 0 <= i < s.len() ==> is_dec_digit(#[trigger] s[i])
}

/// The number denoted by a sequence of decimal digit bytes, most
/// significant digit first.
pub open spec fn dec_value(s: Seq<u8>) -> nat
    recommends
        all_dec_digits(s),
    decreases s.len(),
{
    if s.len() == 0 {
        0
    } else {
        dec_value(s.drop_last()) * 10 + digit_value(s.last())
    }
}

/// The byte sequence is a valid base-10 numeral for a `u64`: it is
/// non-empty, holds only decimal digits (so no sign, no whitespace),
/// and denotes a value that fits in 64 unsigned bits.
pub open spec fn parses_to_u64(s: Seq<u8>) -> bool {
    &&& 1 <= s.len()
    &&& all_dec_digits(s)
    &&& dec_value(s) <= u64::MAX
}

/// A digit prefix of a digit sequence denotes no more than the whole
/// sequence.
proof fn lemma_dec_value_prefix_le(s: Seq<u8>, n: int)
    requires
        all_dec_digits(s),
        0 <= n <= s.len(),
    ensures
        dec_value(s.take(n)) <= dec_value(s),
    decreases s.len() - n,
{
    if n == s.len() {
        assert(s.take(n) =~= s);
    } else {
        lemma_dec_value_prefix_le(s, n + 1);
        assert(s.take(n + 1).drop_last() =~= s.take(n));
        assert(dec_value(s.take(n + 1)) == dec_value(s.take(n)) * 10 + digit_value(s[n]));
    }
}

/// Parse a byte string as a base-10 `u64`. Returns the denoted value
/// exactly when the bytes form a valid numeral that fits, and `None`
/// otherwise (empty input, a non-digit byte, or overflow).
pub fn parse_u64_bytes(bytes: &[u8]) -> (r: Option<u64>)
    ensures
        parses_to_u64(bytes@) ==> r == Some(dec_value(bytes@) as u64),
        !parses_to_u64(bytes@) ==> r is None,
{
    if bytes.len() == 0 {
        return None;
    }
    let mut value: u64 = 0;
    let mut i: usize = 0;
    while i < bytes.len()
        invariant
            0 <= i <= bytes@.len(),
            all_dec_digits(bytes@.take(i as int)),
            value as nat == dec_value(bytes@.take(i as int)),
        decreases bytes@.len() - i,
    {
        let b = bytes[i];
        if b < 48 || b > 57 {
            assert(!all_dec_digits(bytes@));
            return None;
        }
        let digit = (b - 48) as u64;
        proof {
            assert(bytes@.take(i as int + 1).drop_last() =~= bytes@.take(i as int));
            assert(bytes@.take(i as int + 1).last() == bytes@[i as int]);
        }
        let scaled = match value.checked_mul(10) {
            Some(v) => v,
            None => {
                proof {
                    lemma_parse_overflow(bytes@, i as int);
                }
                return None;
            },
        };
        value = match scaled.checked_add(digit) {
            Some(v) => v,
            None => {
                proof {
                    lemma_parse_overflow(bytes@, i as int);
                }
                return None;
            },
        };
        i = i + 1;
    }
    proof {
        assert(bytes@.take(bytes@.len() as int) =~= bytes@);
    }
    Some(value)
}

/// If the numeral's first `i` digits already denote more than fits in
/// a `u64` once the next digit is appended, the whole byte sequence is
/// not a valid `u64` numeral.
proof fn lemma_parse_overflow(s: Seq<u8>, i: int)
    requires
        0 <= i < s.len(),
        all_dec_digits(s.take(i)),
        is_dec_digit(s[i]),
        dec_value(s.take(i)) * 10 + digit_value(s[i]) > u64::MAX,
    ensures
        !parses_to_u64(s),
{
    if all_dec_digits(s) {
        assert(s.take(i + 1).drop_last() =~= s.take(i));
        assert(dec_value(s.take(i + 1)) == dec_value(s.take(i)) * 10 + digit_value(s[i]));
        lemma_dec_value_prefix_le(s, i + 1);
    }
}

/// Parse a string as a base-10 `u64`, judged by its UTF-8 bytes.
pub fn parse_u64(s: &str) -> (r: Option<u64>)
    ensures
        parses_to_u64(s.spec_bytes()) ==> r == Some(dec_value(s.spec_bytes()) as u64),
        !parses_to_u64(s.spec_bytes()) ==> r is None,
{
    parse_u64_bytes(s.as_bytes())
}

/// Every argument is a valid `u64` numeral, judged by its UTF-8 bytes.
pub open spec fn all_parse_to_u64(args: Seq<String>) -> bool {
    forall|i: int| 0 <= i < args.len() ==> parses_to_u64(
        vstd::utf8::encode_utf8(#[trigger] args[i]@),
    )
}

/// Parse every argument as a base-10 `u64`, in order. Returns the
/// parsed sequence exactly when every argument parses; the first
/// failure makes the whole collection fail.
pub fn collect_numbers(args: &Vec<String>) -> (r: Option<Vec<u64>>)
    ensures
        r is Some <==> all_parse_to_u64(args@),
        r matches Some(numbers) ==> {
            &&& numbers@.len() == args@.len()
            &&& forall|i: int| 0 <= i < args@.len() ==> (#[trigger] numbers@[i]) as nat
                == dec_value(vstd::utf8::encode_utf8(args@[i]@))
        },
{
    let mut numbers: Vec<u64> = Vec::new();
    let mut i: usize = 0;
    while i < args.len()
        invariant
            0 <= i <= args@.len(),
            numbers@.len() == i,
            forall|j: int| 0 <= j < i ==> parses_to_u64(vstd::utf8::encode_utf8(
                #[trigger] args@[j]@,
            )),
            forall|j: int| 0 <= j < i ==> (#[trigger] numbers@[j]) as nat == dec_value(
                vstd::utf8::encode_utf8(args@[j]@),
            ),
        decreases args@.len() - i,
    {
        match parse_u64(args[i].as_str()) {
            Some(n) => numbers.push(n),
            None => {
                return None;
            },
        }
        i = i + 1;
    }
    Some(numbers)
}

} // verus!
