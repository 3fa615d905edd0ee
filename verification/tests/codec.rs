use blurhash::base83::{decode, encode};
use blurhash::coeff::{pack_ac, pack_dc, unpack_ac, unpack_dc};

#[test]
fn encode83() {
    let s = encode(6869, 2);
    assert_eq!(s, "~$");
}

#[test]
fn decode83() {
    let v = decode("~$").unwrap();
    assert_eq!(v, 6869);
}

#[test]
fn encode_zero_width() {
    assert_eq!(encode(5, 0), "");
}

#[test]
fn encode_pads_with_leading_zeros() {
    assert_eq!(encode(1, 4), "0001");
}

#[test]
fn alphabet_order() {
    assert_eq!(encode(0, 1), "0");
    assert_eq!(encode(9, 1), "9");
    assert_eq!(encode(10, 1), "A");
    assert_eq!(encode(35, 1), "Z");
    assert_eq!(encode(36, 1), "a");
    assert_eq!(encode(61, 1), "z");
    assert_eq!(encode(62, 1), "#");
    assert_eq!(encode(82, 1), "~");
}

#[test]
fn decode_then_encode_round_trip() {
    for &(value, length) in
        [(0u32, 1u32), (82, 1), (83, 2), (6869, 2), (6888, 2), (12345, 3), (47458320, 4)].iter()
    {
        let text = encode(value, length);
        assert_eq!(decode(&text).unwrap(), value as usize);
    }
}

#[test]
fn decode_rejects_byte_outside_alphabet() {
    assert_eq!(decode("a/b"), Err(blurhash::Error::InvalidBase83(b'/')));
    assert_eq!(decode(" "), Err(blurhash::Error::InvalidBase83(b' ')));
}

#[test]
fn decode_reports_first_invalid_byte() {
    assert_eq!(decode("0!?("), Err(blurhash::Error::InvalidBase83(b'!')));
}

#[test]
fn decode_empty_is_zero() {
    assert_eq!(decode("").unwrap(), 0);
}

#[test]
fn dc_packing_round_trip() {
    let v = pack_dc(0x12, 0x34, 0x56);
    assert_eq!(v, 0x123456);
    assert_eq!(unpack_dc(v), (0x12, 0x34, 0x56));
    assert_eq!(unpack_dc(pack_dc(255, 0, 255)), (255, 0, 255));
}

#[test]
fn ac_packing_round_trip() {
    assert_eq!(pack_ac(18, 18, 18), 6858);
    assert_eq!(unpack_ac(6858), (18, 18, 18));
    assert_eq!(pack_ac(0, 0, 0), 0);
    assert_eq!(unpack_ac(pack_ac(9, 0, 18)), (9, 0, 18));
}
