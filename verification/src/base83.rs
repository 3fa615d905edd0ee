//! The base-83 text codec: unsigned integers written as fixed-length strings
//! over an ordered 83-symbol ASCII alphabet (digits, then upper-case letters,
//! then lower-case letters, then 21 punctuation symbols). The alphabet order
//! is part of the wire format.

use crate::error::Error;
use vstd::prelude::*;
use vstd::string::StringSliceAdditionalSpecFns;

verus! {

/// The alphabet byte standing for digit value `d` (0 through 82).
pub open spec fn b83_byte(d: int) -> u8 {
    if 0 <= d < 10 {
        (d + 48) as u8  // '0' through '9'
    } else if 10 <= d < 36 {
        (d + 55) as u8  // 'A' through 'Z'
    } else if 36 <= d < 62 {
        (d + 61) as u8  // 'a' through 'z'
    } else if d == 62 {
        35  // '#'
    } else if d == 63 {
        36  // '$'
    } else if d == 64 {
        37  // '%'
    } else if d == 65 {
        42  // '*'
    } else if d == 66 {
        43  // '+'
    } else if d == 67 {
        44  // ','
    } else if d == 68 {
        45  // '-'
    } else if d == 69 {
        46  // '.'
    } else if d == 70 {
        58  // ':'
    } else if d == 71 {
        59  // ';'
    } else if d == 72 {
        61  // '='
    } else if d == 73 {
        63  // '?'
    } else if d == 74 {
        64  // '@'
    } else if d == 75 {
        91  // '['
    } else if d == 76 {
        93  // ']'
    } else if d == 77 {
        94  // '^'
    } else if d == 78 {
        95  // '_'
    } else if d == 79 {
        123  // '{'
    } else if d == 80 {
        124  // '|'
    } else if d == 81 {
        125  // '}'
    } else if d == 82 {
        126  // '~'
    } else {
        0
    }
}

/// The digit value of alphabet byte `b`, or -1 when `b` is not in the
/// alphabet.
pub open spec fn b83_digit(b: u8) -> int {
    if 48 <= b <= 57 {
        b - 48
    } else if 65 <= b <= 90 {
        b - 55
    } else if 97 <= b <= 122 {
        b - 61
    } else if b == 35 {
        62
    } else if b == 36 {
        63
    } else if b == 37 {
        64
    } else if b == 42 {
        65
    } else if b == 43 {
        66
    } else if b == 44 {
        67
    } else if b == 45 {
        68
    } else if b == 46 {
        69
    } else if b == 58 {
        70
    } else if b == 59 {
        71
    } else if b == 61 {
        72
    } else if b == 63 {
        73
    } else if b == 64 {
        74
    } else if b == 91 {
        75
    } else if b == 93 {
        76
    } else if b == 94 {
        77
    } else if b == 95 {
        78
    } else if b == 123 {
        79
    } else if b == 124 {
        80
    } else if b == 125 {
        81
    } else if b == 126 {
        82
    } else {
        -1
    }
}

/// Whether byte `b` belongs to the 83-symbol alphabet.
pub open spec fn is_b83_byte(b: u8) -> bool {
    b83_digit(b) >= 0
}

/// Whether every byte of `s` belongs to the alphabet.
pub open spec fn all_b83(s: Seq<u8>) -> bool {
    forall|i: int| 0 <= i < s.len() ==> is_b83_byte(#[trigger] s[i])
}

/// 83 raised to the power `n`.
pub open spec fn pow83(n: nat) -> nat
    decreases n,
{
    if n == 0 {
        1
    } else {
        83 * pow83((n - 1) as nat)
    }
}

/// The `length` alphabet bytes that write `value` in base 83,
/// most-significant digit first. When `value` does not fit, the high
/// digits that do not fit are dropped.
pub open spec fn base83_bytes(value: int, length: nat) -> Seq<u8>
    decreases length,
{
    if length == 0 {
        Seq::empty()
    } else {
        base83_bytes(value / 83, (length - 1) as nat).push(b83_byte(value % 83))
    }
}

/// The integer that the digit bytes `s` denote, big-endian. Meaningful
/// only when `all_b83(s)` holds.
pub open spec fn base83_value(s: Seq<u8>) -> int
    decreases s.len(),
{
    if s.len() == 0 {
        0
    } else {
        base83_value(s.drop_last()) * 83 + b83_digit(s.last())
    }
}

/// The characters spelled by a sequence of ASCII bytes, one per byte.
pub open spec fn chars_of_bytes(s: Seq<u8>) -> Seq<char> {
    s.map_values(|b: u8| b as char)
}

/// The two alphabet tables invert each other over digit values 0 through 82.
pub proof fn lemma_alphabet_inverse(d: int)
    requires
        0 <= d < 83,
    ensures
        b83_digit(b83_byte(d)) == d,
        is_b83_byte(b83_byte(d)),
{
}

/// Every alphabet byte is a printable ASCII byte whose digit value is a
/// proper base-83 digit, and the tables invert each other on it.
pub proof fn lemma_alphabet_byte(b: u8)
    requires
        is_b83_byte(b),
    ensures
        0 <= b83_digit(b) < 83,
        b83_byte(b83_digit(b)) == b,
        b < 127,
{
}

/// A base-83 rendering has exactly the requested number of digits.
pub proof fn lemma_base83_bytes_len(value: int, length: nat)
    ensures
        base83_bytes(value, length).len() == length,
    decreases length,
{
    if length > 0 {
        lemma_base83_bytes_len(value / 83, (length - 1) as nat);
    }
}

/// Every byte of a base-83 rendering of a nonnegative value belongs to
/// the alphabet.
pub proof fn lemma_base83_bytes_valid(value: int, length: nat)
    requires
        value >= 0,
    ensures
        all_b83(base83_bytes(value, length)),
    decreases length,
{
    if length > 0 {
        lemma_base83_bytes_valid(value / 83, (length - 1) as nat);
        lemma_alphabet_inverse(value % 83);
        let s = base83_bytes(value / 83, (length - 1) as nat);
        let t = s.push(b83_byte(value % 83));
        assert forall|i: int| 0 <= i < t.len() implies is_b83_byte(#[trigger] t[i]) by {
            if i < s.len() {
                assert(t[i] == s[i]);
            } else {
                assert(t[i] == b83_byte(value % 83));
            }
        }
    }
}

/// Powers of 83 are positive and grow with the exponent.
pub proof fn lemma_pow83_increases(a: nat, b: nat)
    requires
        a <= b,
    ensures
        1 <= pow83(a) <= pow83(b),
    decreases b,
{
    if b == 0 {
    } else if a == b {
        lemma_pow83_increases(0, (b - 1) as nat);
    } else {
        lemma_pow83_increases(a, (b - 1) as nat);
    }
}

/// Reading back the base-83 digits of any value that fits in the digit
/// count returns that value exactly.
pub proof fn lemma_base83_round_trip(value: int, length: nat)
    requires
        0 <= value < pow83(length),
    ensures
        base83_value(base83_bytes(value, length)) == value,
    decreases length,
{
    if length > 0 {
        let q = value / 83;
        let r = value % 83;
        vstd::arithmetic::div_mod::lemma_fundamental_div_mod(value, 83);
        vstd::arithmetic::div_mod::lemma_multiply_divide_lt(
            value,
            83,
            pow83((length - 1) as nat) as int,
        );
        lemma_base83_round_trip(q, (length - 1) as nat);
        lemma_alphabet_inverse(r);
        let s = base83_bytes(q, (length - 1) as nat);
        let t = s.push(b83_byte(r));
        assert(t.drop_last() =~= s);
    }
}

/// The alphabet byte standing for digit value `d`, as executable code.
pub(crate) fn digit_to_byte(d: u8) -> (b: u8)
    requires
        d < 83,
    ensures
        b == b83_byte(d as int),
{
    if d < 10 {
        d + 48
    } else if d < 36 {
        d + 55
    } else if d < 62 {
        d + 61
    } else if d == 62 {
        35
    } else if d == 63 {
        36
    } else if d == 64 {
        37
    } else if d == 65 {
        42
    } else if d == 66 {
        43
    } else if d == 67 {
        44
    } else if d == 68 {
        45
    } else if d == 69 {
        46
    } else if d == 70 {
        58
    } else if d == 71 {
        59
    } else if d == 72 {
        61
    } else if d == 73 {
        63
    } else if d == 74 {
        64
    } else if d == 75 {
        91
    } else if d == 76 {
        93
    } else if d == 77 {
        94
    } else if d == 78 {
        95
    } else if d == 79 {
        123
    } else if d == 80 {
        124
    } else if d == 81 {
        125
    } else {
        126
    }
}

/// The digit value of byte `b`, or `None` when `b` is outside the
/// alphabet, as executable code.
pub(crate) fn byte_to_digit(b: u8) -> (d: Option<u8>)
    ensures
        d is Some <==> is_b83_byte(b),
        d is Some ==> d->0 == b83_digit(b) && d->0 < 83,
{
    if 48 <= b && b <= 57 {
        Some(b - 48)
    } else if 65 <= b && b <= 90 {
        Some(b - 55)
    } else if 97 <= b && b <= 122 {
        Some(b - 61)
    } else if b == 35 {
        Some(62)
    } else if b == 36 {
        Some(63)
    } else if b == 37 {
        Some(64)
    } else if b == 42 {
        Some(65)
    } else if b == 43 {
        Some(66)
    } else if b == 44 {
        Some(67)
    } else if b == 45 {
        Some(68)
    } else if b == 46 {
        Some(69)
    } else if b == 58 {
        Some(70)
    } else if b == 59 {
        Some(71)
    } else if b == 61 {
        Some(72)
    } else if b == 63 {
        Some(73)
    } else if b == 64 {
        Some(74)
    } else if b == 91 {
        Some(75)
    } else if b == 93 {
        Some(76)
    } else if b == 94 {
        Some(77)
    } else if b == 95 {
        Some(78)
    } else if b == 123 {
        Some(79)
    } else if b == 124 {
        Some(80)
    } else if b == 125 {
        Some(81)
    } else if b == 126 {
        Some(82)
    } else {
        None
    }
}

/// Whether a character is the ASCII character of an alphabet byte.
pub open spec fn is_b83_char(c: char) -> bool {
    (c as int) < 128 && is_b83_byte(c as u8)
}

/// Both halves of a concatenation of alphabet bytes are alphabet bytes.
pub proof fn lemma_all_b83_concat(a: Seq<u8>, b: Seq<u8>)
    requires
        all_b83(a),
        all_b83(b),
    ensures
        all_b83(a + b),
{
    assert forall|i: int| 0 <= i < (a + b).len() implies is_b83_byte(#[trigger] (a + b)[i]) by {
        if i < a.len() {
            assert((a + b)[i] == a[i]);
        } else {
            assert((a + b)[i] == b[i - a.len()]);
        }
    }
}

/// Relies on String::from_utf8: the returned string holds exactly the
/// given bytes, and ASCII bytes decode to one character per byte.
#[verifier::external_body]
pub(crate) fn ascii_to_string(bytes: Vec<u8>) -> (r: String)
    requires
        forall|i: int| 0 <= i < bytes@.len() ==> bytes@[i] < 128,
    ensures
        r@ == chars_of_bytes(bytes@),
{
    String::from_utf8(bytes).unwrap()
}

/// The digit bytes of `value` written in base 83 over `length` positions,
/// most-significant first.
pub(crate) fn encode_digits(value: u32, length: u32) -> (r: Vec<u8>)
    ensures
        r@ == base83_bytes(value as int, length as nat),
    decreases length,
{
    if length == 0 {
        Vec::new()
    } else {
        let mut r = encode_digits(value / 83, length - 1);
        r.push(digit_to_byte((value % 83) as u8));
        r
    }
}

/// Writes `value` as exactly `length` base-83 characters, most-significant
/// digit first. When `value` needs more than `length` digits, the high
/// digits that do not fit are dropped.
pub fn encode(value: u32, length: u32) -> (r: String)
    ensures
        r@ == chars_of_bytes(base83_bytes(value as int, length as nat)),
        r@.len() == length,
{
    let digits = encode_digits(value, length);
    proof {
        lemma_base83_bytes_len(value as int, length as nat);
        lemma_base83_bytes_valid(value as int, length as nat);
        assert forall|i: int| 0 <= i < digits@.len() implies digits@[i] < 128 by {
            lemma_alphabet_byte(digits@[i]);
        }
    }
    ascii_to_string(digits)
}

/// The value of the digit bytes `bytes[start..end]`, all of which must
/// already be known to lie in the alphabet.
pub(crate) fn decode_range(bytes: &[u8], start: usize, end: usize) -> (v: u32)
    requires
        start <= end <= bytes@.len(),
        end - start <= 4,
        forall|i: int| start <= i < end ==> is_b83_byte(#[trigger] bytes@[i]),
    ensures
        v == base83_value(bytes@.subrange(start as int, end as int)),
        v < pow83((end - start) as nat),
{
    let mut value: u32 = 0;
    let mut idx: usize = start;
    while idx < end
        invariant
            start <= idx <= end <= bytes@.len(),
            end - start <= 4,
            forall|i: int| start <= i < end ==> is_b83_byte(#[trigger] bytes@[i]),
            value == base83_value(bytes@.subrange(start as int, idx as int)),
            value < pow83((idx - start) as nat),
        decreases end - idx,
    {
        let b = bytes[idx];
        let d: u8 = match byte_to_digit(b) {
            Some(d) => d,
            None => unreached(),
        };
        proof {
            lemma_pow83_increases((idx - start + 1) as nat, 4);
            assert(pow83(4) == 47458321) by {
                reveal_with_fuel(pow83, 5);
            }
            assert(bytes@.subrange(start as int, idx + 1).drop_last() =~= bytes@.subrange(
                start as int,
                idx as int,
            ));
        }
        value = value * 83 + d as u32;
        idx = idx + 1;
    }
    value
}

/// Parses a big-endian base-83 string. Returns the denoted value when every
/// byte is in the alphabet, and `InvalidBase83` naming the first offending
/// byte otherwise; offending bytes are rejected, never skipped. The length
/// bound keeps the value within `usize` on every platform.
pub fn decode(s: &str) -> (r: Result<usize, Error>)
    requires
        s.spec_bytes().len() <= 5,
    ensures
        r is Ok <==> all_b83(s.spec_bytes()),
        r is Ok ==> r->Ok_0 == base83_value(s.spec_bytes()),
        r is Err ==> exists|i: int|
            0 <= i < s.spec_bytes().len() && !is_b83_byte(#[trigger] s.spec_bytes()[i]) && (
            forall|j: int| 0 <= j < i ==> is_b83_byte(#[trigger] s.spec_bytes()[j])) && r == Err::<
                usize,
                Error,
            >(Error::InvalidBase83(s.spec_bytes()[i])),
{
    let bytes: &[u8] = s.as_bytes();
    let n: usize = bytes.len();
    let mut value: usize = 0;
    let mut idx: usize = 0;
    while idx < n
        invariant
            bytes@ == s.spec_bytes(),
            n == bytes@.len() <= 5,
            idx <= n,
            forall|j: int| 0 <= j < idx ==> is_b83_byte(#[trigger] bytes@[j]),
            value == base83_value(bytes@.take(idx as int)),
            value < pow83(idx as nat),
        decreases n - idx,
    {
        let b = bytes[idx];
        match byte_to_digit(b) {
            None => {
                return Err(Error::InvalidBase83(b));
            },
            Some(d) => {
                proof {
                    lemma_pow83_increases((idx + 1) as nat, 5);
                    assert(pow83(5) == 3939040643) by {
                        reveal_with_fuel(pow83, 6);
                    }
                    assert(bytes@.take(idx + 1).drop_last() =~= bytes@.take(idx as int));
                }
                value = value * 83 + d as usize;
            },
        }
        idx = idx + 1;
    }
    proof {
        assert(bytes@.take(n as int) =~= bytes@);
    }
    Ok(value)
}

} // verus!
