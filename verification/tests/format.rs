use blurhash::{blurHashForPixels, components, encode, encode83, parse, validate_blurhash, Error};

const KNOWN_HASH: &str = "LBAdAqof00WCqZj[PDay0.WB}pof";
const ALPHABET: &str =
    "0123456789ABCDEFGHIJKLMNOPQRSTUVWXYZabcdefghijklmnopqrstuvwxyz#$%*+,-.:;=?@[]^_{|}~";

#[test]
fn components_of_known_hash() {
    assert_eq!(components(KNOWN_HASH), Ok((4, 3)));
    assert_eq!(validate_blurhash(KNOWN_HASH), (4, 3));
}

#[test]
fn too_short_hash_is_rejected() {
    assert_eq!(components(""), Err(Error::HashTooShort));
    assert_eq!(components("LBAda"), Err(Error::HashTooShort));
    assert_eq!(parse("12345"), Err(Error::HashTooShort));
}

#[test]
fn length_mismatch_is_rejected() {
    // 'L' declares a 4 by 3 grid, which needs 28 characters, not 6.
    assert_eq!(
        components("LLLLLL"),
        Err(Error::LengthMismatch { expected: 28, actual: 6 })
    );
    assert_eq!(
        parse("LLLLLLL"),
        Err(Error::LengthMismatch { expected: 28, actual: 7 })
    );
}

#[test]
fn byte_outside_alphabet_is_rejected() {
    // A bad size-flag byte.
    assert_eq!(components("/00000"), Err(Error::InvalidBase83(b'/')));
    // A bad byte later in an otherwise well-sized hash.
    assert_eq!(parse("0/0000"), Err(Error::InvalidBase83(b'/')));
    assert_eq!(parse("00000 "), Err(Error::InvalidBase83(b' ')));
}

#[test]
fn components_out_of_range_is_rejected() {
    let ac: Vec<u16> = Vec::new();
    assert_eq!(encode(0, 3, 0, 0, &ac), Err(Error::ComponentsOutOfRange));
    assert_eq!(encode(10, 3, 0, 0, &ac), Err(Error::ComponentsOutOfRange));
    assert_eq!(encode(4, 0, 0, 0, &ac), Err(Error::ComponentsOutOfRange));
    assert_eq!(encode(4, 10, 0, 0, &ac), Err(Error::ComponentsOutOfRange));
}

#[test]
fn encode_is_deterministic() {
    let ac: Vec<u16> = vec![100, 200, 300, 400, 500, 600, 700, 800, 900, 1000, 1100];
    let first = encode(4, 3, 25, 0xABCDEF, &ac).unwrap();
    let second = encode(4, 3, 25, 0xABCDEF, &ac).unwrap();
    assert_eq!(first, second);
}

#[test]
fn encode_length_formula() {
    let ac_none: Vec<u16> = Vec::new();
    assert_eq!(encode(1, 1, 0, 0, &ac_none).unwrap().len(), 6);
    let ac_eleven: Vec<u16> = vec![0; 11];
    assert_eq!(encode(4, 3, 0, 0, &ac_eleven).unwrap().len(), 4 + 2 * 4 * 3);
    let ac_eighty: Vec<u16> = vec![0; 80];
    assert_eq!(encode(9, 9, 82, 0xFFFFFF, &ac_eighty).unwrap().len(), 4 + 2 * 9 * 9);
}

#[test]
fn encoded_characters_stay_in_alphabet() {
    let ac: Vec<u16> = vec![6888, 0, 1, 82, 83, 6858, 361, 19, 1000, 4242, 99];
    let hash = encode(4, 3, 82, 0xFFFFFF, &ac).unwrap();
    for c in hash.chars() {
        assert!(ALPHABET.contains(c));
    }
}

#[test]
fn parse_recovers_what_encode_wrote() {
    let ac: Vec<u16> = vec![100, 200, 300, 400, 500, 600, 700, 800, 900, 1000, 1100];
    let hash = encode(4, 3, 25, 0xABCDEF, &ac).unwrap();
    let payload = parse(&hash).unwrap();
    assert_eq!(payload.components_x, 4);
    assert_eq!(payload.components_y, 3);
    assert_eq!(payload.quantised_max, 25);
    assert_eq!(payload.dc, 0xABCDEF);
    assert_eq!(payload.ac, ac);
}

#[test]
fn parse_fields_match_digit_slices_of_known_hash() {
    let payload = parse(KNOWN_HASH).unwrap();
    assert_eq!(payload.components_x, 4);
    assert_eq!(payload.components_y, 3);
    assert_eq!(
        payload.quantised_max as usize,
        blurhash::base83::decode(&KNOWN_HASH[1..2]).unwrap()
    );
    assert_eq!(payload.dc as usize, blurhash::base83::decode(&KNOWN_HASH[2..6]).unwrap());
    assert_eq!(payload.ac.len(), 11);
    for j in 0..11 {
        let slice = &KNOWN_HASH[6 + 2 * j..8 + 2 * j];
        assert_eq!(payload.ac[j] as usize, blurhash::base83::decode(slice).unwrap());
    }
}

#[test]
fn reencoding_a_parsed_hash_reproduces_it() {
    let payload = parse(KNOWN_HASH).unwrap();
    let rebuilt = encode(
        payload.components_x as u32,
        payload.components_y as u32,
        payload.quantised_max,
        payload.dc,
        &payload.ac,
    )
    .unwrap();
    assert_eq!(rebuilt, KNOWN_HASH);
}

#[test]
fn one_by_one_grid_has_no_ac_digits() {
    let ac: Vec<u16> = Vec::new();
    // The quantized-maximum digit is written as 0 when there is no AC term.
    let hash = encode(1, 1, 37, 0x804020, &ac).unwrap();
    assert_eq!(hash.len(), 6);
    assert_eq!(&hash[1..2], "0");
    let payload = parse(&hash).unwrap();
    assert_eq!(payload.components_x, 1);
    assert_eq!(payload.components_y, 1);
    assert_eq!(payload.quantised_max, 0);
    assert_eq!(payload.dc, 0x804020);
    assert_eq!(payload.ac.len(), 0);
}

#[test]
fn size_flag_can_declare_ten_rows() {
    // Digit 81 declares a 1 by 10 grid: no encoder writes such a flag,
    // but a 24-character string can carry it and parsing accepts it.
    let mut hash = String::from("}");
    hash.push_str(&"0".repeat(23));
    assert_eq!(components(&hash), Ok((1, 10)));
    let payload = parse(&hash).unwrap();
    assert_eq!(payload.components_y, 10);
    assert_eq!(payload.ac.len(), 9);
}

#[test]
fn encode83_matches_base83_encoder() {
    assert_eq!(encode83(6869, 2), "~$");
    assert_eq!(encode83(21, 1), "L");
    assert_eq!(encode83(0, 4), "0000");
}

#[test]
fn blur_hash_for_pixels_matches_encode() {
    let ac: Vec<u16> = vec![17, 4242];
    assert_eq!(
        blurHashForPixels(3, 1, 9, 0x123456, &ac),
        encode(3, 1, 9, 0x123456, &ac).unwrap()
    );
}
