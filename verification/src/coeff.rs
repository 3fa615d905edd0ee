//! The coefficient codec's integer layer: the DC (average color) triple is
//! packed byte-per-channel into 24 bits, and a quantized AC triple — three
//! values in 0 through 18 — is packed in base 19. Converting channel values
//! to and from these small integers is the color pipeline's concern; the
//! packing itself is exact integer arithmetic.

use vstd::prelude::*;

verus! {

/// Packs the three sRGB channel bytes of the DC component as
/// `(r << 16) | (g << 8) | b`. The result always fits 24 bits, so it is
/// written as exactly four base-83 digits.
pub fn pack_dc(r: u8, g: u8, b: u8) -> (v: u32)
    ensures
        v == 65536 * r + 256 * g + b,
        v < 0x1000000,
{
    (r as u32) * 65536 + (g as u32) * 256 + (b as u32)
}

/// Splits a packed DC value back into its three channel bytes.
pub fn unpack_dc(v: u32) -> (rgb: (u8, u8, u8))
    requires
        v < 0x1000000,
    ensures
        rgb.0 == v / 65536,
        rgb.1 == (v / 256) % 256,
        rgb.2 == v % 256,
{
    (((v / 65536) as u8), (((v / 256) % 256) as u8), ((v % 256) as u8))
}

/// Unpacking a packed DC value returns the channel bytes it was packed from.
pub proof fn lemma_dc_round_trip(r: u8, g: u8, b: u8)
    ensures
        (65536 * r + 256 * g + b) / 65536 == r,
        ((65536 * r + 256 * g + b) / 256) % 256 == g,
        (65536 * r + 256 * g + b) % 256 == b,
{
    let v = 65536 * r + 256 * g + b;
    vstd::arithmetic::div_mod::lemma_fundamental_div_mod_converse_div(
        v,
        65536,
        r as int,
        256 * g + b,
    );
    vstd::arithmetic::div_mod::lemma_fundamental_div_mod_converse_div(
        v,
        256,
        256 * r + g,
        b as int,
    );
    vstd::arithmetic::div_mod::lemma_fundamental_div_mod_converse_mod(
        256 * r + g,
        256,
        r as int,
        g as int,
    );
    vstd::arithmetic::div_mod::lemma_fundamental_div_mod_converse_mod(
        v,
        256,
        256 * r + g,
        b as int,
    );
}

/// Packs a quantized AC triple — each channel already clamped to 0 through
/// 18 — as `qr * 19^2 + qg * 19 + qb`. The result is at most 6858, which is
/// below 83^2, so it is written as exactly two base-83 digits.
pub fn pack_ac(qr: u8, qg: u8, qb: u8) -> (v: u16)
    requires
        qr <= 18,
        qg <= 18,
        qb <= 18,
    ensures
        v == 361 * qr + 19 * qg + qb,
        v <= 6858,
{
    (qr as u16) * 361 + (qg as u16) * 19 + (qb as u16)
}

/// Splits a two-digit packed AC value into its three quantized channels.
/// Any value below 83^2 is accepted, as any two base-83 digits can carry
/// one; the first channel can then reach 19 rather than 18.
pub fn unpack_ac(v: u16) -> (q: (u8, u8, u8))
    requires
        v < 6889,
    ensures
        q.0 == v / 361,
        q.1 == (v / 19) % 19,
        q.2 == v % 19,
        q.0 <= 19,
        q.1 <= 18,
        q.2 <= 18,
{
    (((v / 361) as u8), (((v / 19) % 19) as u8), ((v % 19) as u8))
}

/// Unpacking a packed AC value returns the quantized channels it was packed
/// from.
pub proof fn lemma_ac_round_trip(qr: u8, qg: u8, qb: u8)
    requires
        qr <= 18,
        qg <= 18,
        qb <= 18,
    ensures
        (361 * qr + 19 * qg + qb) / 361 == qr,
        ((361 * qr + 19 * qg + qb) / 19) % 19 == qg,
        (361 * qr + 19 * qg + qb) % 19 == qb,
{
    let v = 361 * qr + 19 * qg + qb;
    vstd::arithmetic::div_mod::lemma_fundamental_div_mod_converse_div(
        v,
        361,
        qr as int,
        19 * qg + qb,
    );
    vstd::arithmetic::div_mod::lemma_fundamental_div_mod_converse_div(
        v,
        19,
        19 * qr + qg,
        qb as int,
    );
    vstd::arithmetic::div_mod::lemma_fundamental_div_mod_converse_mod(
        19 * qr + qg,
        19,
        qr as int,
        qg as int,
    );
    vstd::arithmetic::div_mod::lemma_fundamental_div_mod_converse_mod(
        v,
        19,
        19 * qr + qg,
        qb as int,
    );
}

} // verus!
