//! The facade over the codec layers: shape validation, assembly of hash
//! strings from quantized coefficients, and parsing of hash strings back
//! into quantized coefficients.
//!
//! A hash string's layout is: one size-flag digit, one quantized-maximum
//! digit, four digits packing the DC component, then two digits per AC
//! component, over the base-83 alphabet. Its length is therefore
//! `4 + 2 * components_x * components_y`, at least 6. All validation
//! happens before any value is produced, and every failure is a typed
//! [`Error`], never a silent correction.

use crate::base83;
use crate::base83::{
    all_b83, b83_byte, b83_digit, base83_bytes, base83_value, chars_of_bytes, is_b83_byte,
    lemma_alphabet_byte, lemma_base83_bytes_len, lemma_base83_bytes_valid, pow83,
};
use crate::error::Error;
use vstd::prelude::*;
use vstd::string::StringSliceAdditionalSpecFns;

verus! {

/// The size-flag value of hash bytes `s`: the digit value of the first byte.
pub open spec fn spec_size_flag(s: Seq<u8>) -> int {
    b83_digit(s[0])
}

/// The horizontal component count that the size flag of `s` declares.
pub open spec fn spec_components_x(s: Seq<u8>) -> int {
    spec_size_flag(s) % 9 + 1
}

/// The vertical component count that the size flag of `s` declares.
pub open spec fn spec_components_y(s: Seq<u8>) -> int {
    spec_size_flag(s) / 9 + 1
}

/// The length that the size flag of `s` implies for the whole hash.
pub open spec fn spec_expected_len(s: Seq<u8>) -> int {
    4 + 2 * spec_components_x(s) * spec_components_y(s)
}

/// Whether the shape of hash bytes `s` is acceptable: at least 6 bytes,
/// a size-flag byte in the alphabet, and a total length that matches the
/// component counts the size flag declares.
pub open spec fn well_sized(s: Seq<u8>) -> bool {
    &&& s.len() >= 6
    &&& is_b83_byte(s[0])
    &&& s.len() == spec_expected_len(s)
}

/// Reads the component counts that a hash string declares, checking its
/// shape exactly as decoding does: too few bytes fail with `HashTooShort`,
/// a size-flag byte outside the alphabet fails with `InvalidBase83`, and a
/// length that disagrees with the size flag fails with `LengthMismatch`.
pub fn components(blurhash: &str) -> (r: Result<(usize, usize), Error>)
    ensures
        r is Ok <==> well_sized(blurhash.spec_bytes()),
        blurhash.spec_bytes().len() < 6 ==> r == Err::<(usize, usize), Error>(Error::HashTooShort),
        blurhash.spec_bytes().len() >= 6 && !is_b83_byte(blurhash.spec_bytes()[0]) ==> r == Err::<
            (usize, usize),
            Error,
        >(Error::InvalidBase83(blurhash.spec_bytes()[0])),
        blurhash.spec_bytes().len() >= 6 && is_b83_byte(blurhash.spec_bytes()[0])
            && blurhash.spec_bytes().len() != spec_expected_len(blurhash.spec_bytes()) ==> r
            == Err::<(usize, usize), Error>(
            Error::LengthMismatch {
                expected: spec_expected_len(blurhash.spec_bytes()) as usize,
                actual: blurhash.spec_bytes().len() as usize,
            },
        ),
        well_sized(blurhash.spec_bytes()) ==> r == Ok::<(usize, usize), Error>(
            (
                spec_components_x(blurhash.spec_bytes()) as usize,
                spec_components_y(blurhash.spec_bytes()) as usize,
            ),
        ),
        r is Ok ==> 1 <= r->Ok_0.0 <= 9 && 1 <= r->Ok_0.1 <= 10,
{
    let bytes: &[u8] = blurhash.as_bytes();
    let n: usize = bytes.len();
    if n < 6 {
        return Err(Error::HashTooShort);
    }
    let b0 = bytes[0];
    let size_flag: u8 = match base83::byte_to_digit(b0) {
        None => {
            return Err(Error::InvalidBase83(b0));
        },
        Some(d) => d,
    };
    proof {
        assert(size_flag as usize % 9 < 9 && size_flag as usize / 9 <= 9) by (nonlinear_arith)
            requires
                size_flag < 83,
        ;
    }
    let num_x: usize = (size_flag as usize) % 9 + 1;
    let num_y: usize = (size_flag as usize) / 9 + 1;
    proof {
        assert(2 * num_x * num_y <= 180) by (nonlinear_arith)
            requires
                num_x <= 9 && num_y <= 10,
        ;
    }
    let expected: usize = 4 + 2 * num_x * num_y;
    if n != expected {
        return Err(Error::LengthMismatch { expected, actual: n });
    }
    Ok((num_x, num_y))
}

/// The digit bytes of a row of packed AC values, two base-83 digits each,
/// in row order.
pub open spec fn spec_ac_digits(ac: Seq<u16>) -> Seq<u8>
    decreases ac.len(),
{
    if ac.len() == 0 {
        Seq::empty()
    } else {
        spec_ac_digits(ac.drop_last()) + base83_bytes(ac.last() as int, 2)
    }
}

/// The bytes of the hash string for the given component counts and packed
/// coefficients: the size-flag digit, the quantized-maximum digit (written
/// as 0 when there is no AC component), four DC digits, and two digits per
/// AC value.
pub open spec fn spec_hash_bytes(cx: int, cy: int, qmax: int, dc: int, ac: Seq<u16>) -> Seq<u8> {
    base83_bytes((cx - 1) + (cy - 1) * 9, 1) + base83_bytes(
        if ac.len() == 0 {
            0int
        } else {
            qmax
        },
        1,
    ) + base83_bytes(dc, 4) + spec_ac_digits(ac)
}

/// A row of AC values takes exactly two digits per value.
pub proof fn lemma_ac_digits_len(ac: Seq<u16>)
    ensures
        spec_ac_digits(ac).len() == 2 * ac.len(),
    decreases ac.len(),
{
    if ac.len() > 0 {
        lemma_ac_digits_len(ac.drop_last());
        lemma_base83_bytes_len(ac.last() as int, 2);
    }
}

/// Every digit byte of a row of AC values belongs to the alphabet.
pub proof fn lemma_ac_digits_valid(ac: Seq<u16>)
    ensures
        all_b83(spec_ac_digits(ac)),
    decreases ac.len(),
{
    if ac.len() > 0 {
        lemma_ac_digits_valid(ac.drop_last());
        lemma_base83_bytes_valid(ac.last() as int, 2);
        base83::lemma_all_b83_concat(
            spec_ac_digits(ac.drop_last()),
            base83_bytes(ac.last() as int, 2),
        );
    }
}

/// A hash built from a full grid of coefficients has exactly
/// `4 + 2 * cx * cy` bytes.
pub proof fn lemma_hash_len(cx: int, cy: int, qmax: int, dc: int, ac: Seq<u16>)
    requires
        cx >= 1,
        cy >= 1,
        ac.len() == cx * cy - 1,
    ensures
        spec_hash_bytes(cx, cy, qmax, dc, ac).len() == 4 + 2 * cx * cy,
{
    lemma_base83_bytes_len((cx - 1) + (cy - 1) * 9, 1);
    lemma_base83_bytes_len(
        if ac.len() == 0 {
            0int
        } else {
            qmax
        },
        1,
    );
    lemma_base83_bytes_len(dc, 4);
    lemma_ac_digits_len(ac);
    let sf = base83_bytes((cx - 1) + (cy - 1) * 9, 1);
    let qm = base83_bytes(
        if ac.len() == 0 {
            0int
        } else {
            qmax
        },
        1,
    );
    let dcd = base83_bytes(dc, 4);
    let acd = spec_ac_digits(ac);
    assert(spec_hash_bytes(cx, cy, qmax, dc, ac).len() == sf.len() + qm.len() + dcd.len()
        + acd.len());
    assert(2 * cx * cy == 2 * (cx * cy)) by (nonlinear_arith);
}

/// Every byte of a hash built from nonnegative coefficient values belongs
/// to the 83-symbol alphabet.
pub proof fn lemma_hash_alphabet(cx: int, cy: int, qmax: int, dc: int, ac: Seq<u16>)
    requires
        cx >= 1,
        cy >= 1,
        qmax >= 0,
        dc >= 0,
    ensures
        all_b83(spec_hash_bytes(cx, cy, qmax, dc, ac)),
{
    let sf = base83_bytes((cx - 1) + (cy - 1) * 9, 1);
    let qm = base83_bytes(
        if ac.len() == 0 {
            0int
        } else {
            qmax
        },
        1,
    );
    let dcd = base83_bytes(dc, 4);
    let acd = spec_ac_digits(ac);
    lemma_base83_bytes_valid((cx - 1) + (cy - 1) * 9, 1);
    lemma_base83_bytes_valid(
        if ac.len() == 0 {
            0int
        } else {
            qmax
        },
        1,
    );
    lemma_base83_bytes_valid(dc, 4);
    lemma_ac_digits_valid(ac);
    base83::lemma_all_b83_concat(sf, qm);
    base83::lemma_all_b83_concat(sf + qm, dcd);
    base83::lemma_all_b83_concat(sf + qm + dcd, acd);
}

/// Encoding is a pure function: [`encode`]'s contract pins its result to
/// `spec_hash_bytes` of the inputs alone, so any two hash strings built
/// from identical inputs are identical.
pub proof fn lemma_encode_deterministic(
    cx: int,
    cy: int,
    qmax: int,
    dc: int,
    ac: Seq<u16>,
    r1: Seq<char>,
    r2: Seq<char>,
)
    requires
        r1 == chars_of_bytes(spec_hash_bytes(cx, cy, qmax, dc, ac)),
        r2 == chars_of_bytes(spec_hash_bytes(cx, cy, qmax, dc, ac)),
    ensures
        r1 == r2,
{
}

/// The two digits written for the AC value at row index `j` stand at
/// offsets `2j` and `2j + 1` of the AC digit row.
pub proof fn lemma_ac_digits_slice(ac: Seq<u16>, j: int)
    requires
        0 <= j < ac.len(),
    ensures
        spec_ac_digits(ac).subrange(2 * j, 2 * j + 2) =~= base83_bytes(ac[j] as int, 2),
    decreases ac.len(),
{
    lemma_ac_digits_len(ac);
    lemma_ac_digits_len(ac.drop_last());
    lemma_base83_bytes_len(ac.last() as int, 2);
    if j < ac.len() - 1 {
        lemma_ac_digits_slice(ac.drop_last(), j);
        assert(spec_ac_digits(ac).subrange(2 * j, 2 * j + 2) =~= spec_ac_digits(
            ac.drop_last(),
        ).subrange(2 * j, 2 * j + 2));
    }
}

/// Parsing reads back exactly what assembly writes: the hash bytes built
/// from a valid grid of packed coefficients are well sized, lie in the
/// alphabet throughout, and their parsed size flag, quantized maximum, DC
/// and AC values are the inputs the hash was built from.
pub proof fn lemma_parse_inverts_hash(cx: int, cy: int, qmax: int, dc: int, ac: Seq<u16>)
    requires
        1 <= cx <= 9,
        1 <= cy <= 9,
        0 <= qmax <= 82,
        0 <= dc < 47458321,
        ac.len() == cx * cy - 1,
        forall|j: int| 0 <= j < ac.len() ==> #[trigger] ac[j] < 6889,
    ensures
        ({
            let s = spec_hash_bytes(cx, cy, qmax, dc, ac);
            &&& hash_ok(s)
            &&& s.len() == 4 + 2 * cx * cy
            &&& spec_components_x(s) == cx
            &&& spec_components_y(s) == cy
            &&& spec_qmax(s) == if ac.len() == 0 {
                0int
            } else {
                qmax
            }
            &&& spec_dc(s) == dc
            &&& forall|j: int| 0 <= j < ac.len() ==> #[trigger] spec_ac(s, j) == ac[j]
        }),
{
    let s = spec_hash_bytes(cx, cy, qmax, dc, ac);
    let sfv = (cx - 1) + (cy - 1) * 9;
    let q1v: int = if ac.len() == 0 {
        0int
    } else {
        qmax
    };
    let sf = base83_bytes(sfv, 1);
    let qm = base83_bytes(q1v, 1);
    let dcd = base83_bytes(dc, 4);
    let acd = spec_ac_digits(ac);
    lemma_hash_len(cx, cy, qmax, dc, ac);
    lemma_hash_alphabet(cx, cy, qmax, dc, ac);
    lemma_base83_bytes_len(sfv, 1);
    lemma_base83_bytes_len(q1v, 1);
    lemma_base83_bytes_len(dc, 4);
    lemma_ac_digits_len(ac);
    assert(pow83(4) == 47458321 && pow83(2) == 6889 && pow83(1) == 83) by {
        reveal_with_fuel(pow83, 5);
    }
    // The size-flag digit recovers both component counts.
    vstd::arithmetic::div_mod::lemma_small_mod(sfv as nat, 83);
    base83::lemma_alphabet_inverse(sfv);
    assert(s[0] == sf[0]);
    assert(sf[0] == b83_byte(sfv));
    assert(spec_size_flag(s) == sfv);
    vstd::arithmetic::div_mod::lemma_fundamental_div_mod_converse_mod(sfv, 9, cy - 1, cx - 1);
    vstd::arithmetic::div_mod::lemma_fundamental_div_mod_converse_div(sfv, 9, cy - 1, cx - 1);
    assert(spec_components_x(s) == cx);
    assert(spec_components_y(s) == cy);
    // The quantized-maximum digit recovers its value.
    vstd::arithmetic::div_mod::lemma_small_mod(q1v as nat, 83);
    base83::lemma_alphabet_inverse(q1v);
    assert(s[1] == qm[0]);
    assert(spec_qmax(s) == q1v);
    // The four DC digits recover the packed DC value.
    assert(s.subrange(2, 6) =~= dcd);
    base83::lemma_base83_round_trip(dc, 4);
    // Each AC digit pair recovers its packed AC value.
    assert forall|j: int| 0 <= j < ac.len() implies #[trigger] spec_ac(s, j) == ac[j] by {
        lemma_ac_digits_slice(ac, j);
        assert(s.subrange(6 + 2 * j, 8 + 2 * j) =~= acd.subrange(2 * j, 2 * j + 2));
        base83::lemma_base83_round_trip(ac[j] as int, 2);
    }
}

/// Builds the hash string for an already validated grid of packed
/// coefficients.
fn assemble(
    components_x: u32,
    components_y: u32,
    quantised_max: u8,
    dc: u32,
    ac: &Vec<u16>,
) -> (r: String)
    requires
        1 <= components_x <= 9,
        1 <= components_y <= 9,
        quantised_max <= 82,
        dc < 0x1000000,
        ac@.len() == components_x * components_y - 1,
    ensures
        r@ == chars_of_bytes(
            spec_hash_bytes(
                components_x as int,
                components_y as int,
                quantised_max as int,
                dc as int,
                ac@,
            ),
        ),
{
    let size_flag: u32 = (components_x - 1) + (components_y - 1) * 9;
    let mut bytes: Vec<u8> = base83::encode_digits(size_flag, 1);
    let mut qm: Vec<u8> = if ac.len() == 0 {
        base83::encode_digits(0, 1)
    } else {
        base83::encode_digits(quantised_max as u32, 1)
    };
    bytes.append(&mut qm);
    let mut dcd: Vec<u8> = base83::encode_digits(dc, 4);
    bytes.append(&mut dcd);
    let ghost prefix: Seq<u8> = bytes@;
    proof {
        assert(ac@.take(0) =~= Seq::<u16>::empty());
    }
    let mut j: usize = 0;
    while j < ac.len()
        invariant
            1 <= components_x <= 9,
            1 <= components_y <= 9,
            ac@.len() == components_x * components_y - 1,
            j <= ac@.len(),
            bytes@ == prefix + spec_ac_digits(ac@.take(j as int)),
        decreases ac@.len() - j,
    {
        let mut two: Vec<u8> = base83::encode_digits(ac[j] as u32, 2);
        bytes.append(&mut two);
        proof {
            assert(ac@.take(j + 1).drop_last() =~= ac@.take(j as int));
            assert(ac@.take(j + 1).last() == ac@[j as int]);
            assert(prefix + spec_ac_digits(ac@.take(j as int)) + base83_bytes(ac@[j as int] as int, 2)
                =~= prefix + spec_ac_digits(ac@.take(j + 1)));
        }
        j = j + 1;
    }
    proof {
        assert(ac@.take(ac@.len() as int) =~= ac@);
        let s = spec_hash_bytes(
            components_x as int,
            components_y as int,
            quantised_max as int,
            dc as int,
            ac@,
        );
        assert(bytes@ =~= s);
        lemma_hash_alphabet(
            components_x as int,
            components_y as int,
            quantised_max as int,
            dc as int,
            ac@,
        );
        assert forall|i: int| 0 <= i < bytes@.len() implies bytes@[i] < 128 by {
            lemma_alphabet_byte(bytes@[i]);
        }
    }
    base83::ascii_to_string(bytes)
}

/// Builds the blurhash string for a grid of packed coefficients: the DC
/// value packed on 24 bits, the quantized maximum digit, and the packed AC
/// values in row order, X fastest. Fails with `ComponentsOutOfRange` when
/// either component count lies outside 1 through 9; the output is a pure
/// function of the inputs.
pub fn encode(
    components_x: u32,
    components_y: u32,
    quantised_max: u8,
    dc: u32,
    ac: &Vec<u16>,
) -> (r: Result<String, Error>)
    requires
        1 <= components_x <= 9 && 1 <= components_y <= 9 ==> {
            &&& quantised_max <= 82
            &&& dc < 0x1000000
            &&& ac@.len() == components_x * components_y - 1
        },
    ensures
        r is Ok <==> (1 <= components_x <= 9 && 1 <= components_y <= 9),
        !(1 <= components_x <= 9 && 1 <= components_y <= 9) ==> r == Err::<String, Error>(
            Error::ComponentsOutOfRange,
        ),
        r is Ok ==> (r->Ok_0)@ == chars_of_bytes(
            spec_hash_bytes(
                components_x as int,
                components_y as int,
                quantised_max as int,
                dc as int,
                ac@,
            ),
        ),
        r is Ok ==> (r->Ok_0)@.len() == 4 + 2 * components_x * components_y,
        r is Ok ==> forall|i: int|
            0 <= i < (r->Ok_0)@.len() ==> base83::is_b83_char(#[trigger] (r->Ok_0)@[i]),
{
    if components_x < 1 || components_x > 9 || components_y < 1 || components_y > 9 {
        return Err(Error::ComponentsOutOfRange);
    }
    let s = assemble(components_x, components_y, quantised_max, dc, ac);
    proof {
        let hb = spec_hash_bytes(
            components_x as int,
            components_y as int,
            quantised_max as int,
            dc as int,
            ac@,
        );
        lemma_hash_len(
            components_x as int,
            components_y as int,
            quantised_max as int,
            dc as int,
            ac@,
        );
        lemma_hash_alphabet(
            components_x as int,
            components_y as int,
            quantised_max as int,
            dc as int,
            ac@,
        );
        assert forall|i: int| 0 <= i < s@.len() implies base83::is_b83_char(#[trigger] s@[i]) by {
            assert(s@[i] == hb[i] as char);
            lemma_alphabet_byte(hb[i]);
        }
    }
    Ok(s)
}

/// Builds the blurhash string for a grid of packed coefficients whose
/// component counts are already known to be in range. The counterpart that
/// reports out-of-range counts as an error is [`encode`].
#[allow(non_snake_case)]
pub fn blurHashForPixels(
    x_components: u32,
    y_components: u32,
    quantised_max: u8,
    dc: u32,
    ac: &Vec<u16>,
) -> (r: String)
    requires
        1 <= x_components <= 9,
        1 <= y_components <= 9,
        quantised_max <= 82,
        dc < 0x1000000,
        ac@.len() == x_components * y_components - 1,
    ensures
        r@ == chars_of_bytes(
            spec_hash_bytes(
                x_components as int,
                y_components as int,
                quantised_max as int,
                dc as int,
                ac@,
            ),
        ),
{
    assemble(x_components, y_components, quantised_max, dc, ac)
}

/// Writes `value` as exactly `length` base-83 characters; a facade-level
/// alias for [`base83::encode`].
pub fn encode83(value: u32, length: u32) -> (r: String)
    ensures
        r@ == chars_of_bytes(base83_bytes(value as int, length as nat)),
        r@.len() == length,
{
    base83::encode(value, length)
}

/// The quantized-maximum digit of hash bytes `s`.
pub open spec fn spec_qmax(s: Seq<u8>) -> int {
    b83_digit(s[1])
}

/// The packed DC value written in bytes 2 through 5 of hash bytes `s`.
pub open spec fn spec_dc(s: Seq<u8>) -> int {
    base83_value(s.subrange(2, 6))
}

/// The packed AC value at row index `j` of hash bytes `s`, counted from 0
/// over the AC components only.
pub open spec fn spec_ac(s: Seq<u8>, j: int) -> int {
    base83_value(s.subrange(6 + 2 * j, 8 + 2 * j))
}

/// Whether hash bytes `s` parse without error: well sized, with every byte
/// in the alphabet.
pub open spec fn hash_ok(s: Seq<u8>) -> bool {
    well_sized(s) && all_b83(s)
}

/// The quantized contents of a hash string: the component counts its size
/// flag declares, its quantized-maximum digit, its packed DC value, and its
/// packed AC values in row order. Turning these integers back into linear
/// colors is the color pipeline's concern.
#[derive(Debug, PartialEq, Eq)]
pub struct HashPayload {
    /// Horizontal component count, 1 through 9.
    pub components_x: usize,
    /// Vertical component count, 1 through 10.
    pub components_y: usize,
    /// The quantized maximum AC amplitude digit, 0 through 82.
    pub quantised_max: u8,
    /// The packed DC (average color) value, four base-83 digits.
    pub dc: u32,
    /// The packed AC values, two base-83 digits each.
    pub ac: Vec<u16>,
}

/// Parses a hash string into its quantized contents. Shape faults fail
/// exactly as in [`components`]; afterwards any byte outside the alphabet
/// fails with `InvalidBase83` naming the first offending byte. All
/// validation happens before any value is produced.
pub fn parse(blurhash: &str) -> (r: Result<HashPayload, Error>)
    ensures
        r is Ok <==> hash_ok(blurhash.spec_bytes()),
        blurhash.spec_bytes().len() < 6 ==> r == Err::<HashPayload, Error>(Error::HashTooShort),
        blurhash.spec_bytes().len() >= 6 && !is_b83_byte(blurhash.spec_bytes()[0]) ==> r == Err::<
            HashPayload,
            Error,
        >(Error::InvalidBase83(blurhash.spec_bytes()[0])),
        blurhash.spec_bytes().len() >= 6 && is_b83_byte(blurhash.spec_bytes()[0])
            && blurhash.spec_bytes().len() != spec_expected_len(blurhash.spec_bytes()) ==> r
            == Err::<HashPayload, Error>(
            Error::LengthMismatch {
                expected: spec_expected_len(blurhash.spec_bytes()) as usize,
                actual: blurhash.spec_bytes().len() as usize,
            },
        ),
        well_sized(blurhash.spec_bytes()) && !all_b83(blurhash.spec_bytes()) ==> exists|i: int|
            0 <= i < blurhash.spec_bytes().len() && !is_b83_byte(
                #[trigger] blurhash.spec_bytes()[i],
            ) && (forall|j: int| 0 <= j < i ==> is_b83_byte(#[trigger] blurhash.spec_bytes()[j]))
                && r == Err::<HashPayload, Error>(
                Error::InvalidBase83(blurhash.spec_bytes()[i]),
            ),
        r is Ok ==> {
            let s = blurhash.spec_bytes();
            let p = r->Ok_0;
            &&& p.components_x == spec_components_x(s)
            &&& p.components_y == spec_components_y(s)
            &&& 1 <= p.components_x <= 9
            &&& 1 <= p.components_y <= 10
            &&& p.quantised_max == spec_qmax(s)
            &&& p.quantised_max <= 82
            &&& p.dc == spec_dc(s)
            &&& p.dc < 47458321
            &&& p.ac@.len() == spec_components_x(s) * spec_components_y(s) - 1
            &&& forall|j: int|
                0 <= j < p.ac@.len() ==> #[trigger] p.ac@[j] == spec_ac(s, j) && p.ac@[j] < 6889
        },
{
    let bytes: &[u8] = blurhash.as_bytes();
    let (num_x, num_y) = match components(blurhash) {
        Ok(xy) => xy,
        Err(e) => {
            return Err(e);
        },
    };
    let n: usize = bytes.len();
    let mut k: usize = 1;
    while k < n
        invariant
            bytes@ == blurhash.spec_bytes(),
            well_sized(bytes@),
            1 <= k <= n == bytes@.len(),
            forall|j: int| 0 <= j < k ==> is_b83_byte(#[trigger] bytes@[j]),
        decreases n - k,
    {
        let b = bytes[k];
        if base83::byte_to_digit(b).is_none() {
            return Err(Error::InvalidBase83(b));
        }
        k = k + 1;
    }
    let quantised_max: u8 = match base83::byte_to_digit(bytes[1]) {
        Some(d) => d,
        None => unreached(),
    };
    let dc: u32 = base83::decode_range(bytes, 2, 6);
    proof {
        assert(pow83(4) == 47458321 && pow83(2) == 6889) by {
            reveal_with_fuel(pow83, 5);
        }
        assert(num_x * num_y <= 90 && num_x * num_y >= 1) by (nonlinear_arith)
            requires
                1 <= num_x <= 9 && 1 <= num_y <= 10,
        ;
    }
    let count: usize = num_x * num_y;
    let ghost s = blurhash.spec_bytes();
    proof {
        assert(count == spec_components_x(s) * spec_components_y(s));
        assert(2 * spec_components_x(s) * spec_components_y(s) == 2 * (spec_components_x(s)
            * spec_components_y(s))) by (nonlinear_arith);
        assert(s.len() == 4 + 2 * (count as int));
    }
    let mut ac: Vec<u16> = Vec::new();
    let mut j: usize = 0;
    while j < count - 1
        invariant
            bytes@ == s,
            all_b83(s),
            1 <= count <= 90,
            s.len() == 4 + 2 * (count as int),
            j <= count - 1,
            ac@.len() == j,
            forall|i: int| 0 <= i < j ==> #[trigger] ac@[i] == spec_ac(s, i) && ac@[i] < 6889,
        decreases count - 1 - j,
    {
        let v: u32 = base83::decode_range(bytes, 6 + 2 * j, 8 + 2 * j);
        proof {
            assert(pow83(2) == 6889) by {
                reveal_with_fuel(pow83, 3);
            }
        }
        ac.push(v as u16);
        j = j + 1;
    }
    Ok(HashPayload { components_x: num_x, components_y: num_y, quantised_max, dc, ac })
}

/// Reads the component counts of a hash already known to be well sized.
/// The counterpart that reports shape faults as errors is [`components`].
pub fn validate_blurhash(blurhash: &str) -> (r: (usize, usize))
    requires
        well_sized(blurhash.spec_bytes()),
    ensures
        r.0 == spec_components_x(blurhash.spec_bytes()),
        r.1 == spec_components_y(blurhash.spec_bytes()),
{
    match components(blurhash) {
        Ok(xy) => xy,
        Err(_) => unreached(),
    }
}

} // verus!
