use game_of_life::base64::encode;

#[test]
fn should_cover_rfc_tests() {
    let string = "";
    let encoded = encode(string.as_bytes());
    assert_eq!(encoded, "");

    let string = "f";
    let encoded = encode(string.as_bytes());
    assert_eq!(encoded, "Zg==");

    let string = "fo";
    let encoded = encode(string.as_bytes());
    assert_eq!(encoded, "Zm8=");

    let string = "foo";
    let encoded = encode(string.as_bytes());
    assert_eq!(encoded, "Zm9v");

    let string = "foob";
    let encoded = encode(string.as_bytes());
    assert_eq!(encoded, "Zm9vYg==");

    let string = "fooba";
    let encoded = encode(string.as_bytes());
    assert_eq!(encoded, "Zm9vYmE=");

    let string = "foobar";
    let encoded = encode(string.as_bytes());
    assert_eq!(encoded, "Zm9vYmFy");
}

#[test]
fn encodes_all_zero_bytes_as_letter_a() {
    assert_eq!(encode(&[0, 0, 0]), "AAAA");
    assert_eq!(encode(&[255, 255, 255]), "////");
}

#[test]
fn encoded_length_is_four_thirds_rounded_up() {
    for n in 0..32usize {
        let bytes = vec![7u8; n];
        assert_eq!(encode(&bytes).len(), (n + 2) / 3 * 4);
    }
}

#[test]
fn encodes_every_alphabet_value() {
    // 0x00, 0x10, 0x83, 0x10, 0x51, 0x87, ... walk the 6-bit values
    let bytes: Vec<u8> = vec![0x00, 0x10, 0x83, 0x10, 0x51, 0x87, 0x20, 0x92, 0x8b];
    assert_eq!(encode(&bytes), "ABCDEFGHIJKL");
}
