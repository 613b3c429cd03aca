use mosh::base64::{decode_key, encode_key};

#[test]
fn round_trips_every_single_bit() {
    for byte in 0..16 {
        for bit in 0..8 {
            let mut raw = [0u8; 16];
            raw[byte] = 1 << bit;
            let encoded = encode_key(&raw);
            assert_eq!(decode_key(&encoded), Some(raw), "byte {byte} bit {bit}");
        }
    }
}

#[test]
fn rejects_characters_outside_the_alphabet() {
    let mut encoded = encode_key(&[0u8; 16]);
    encoded[0] = b'!';
    assert_eq!(decode_key(&encoded), None);
}

#[test]
fn rejects_missing_padding() {
    let mut encoded = encode_key(&[0u8; 16]);
    encoded[23] = b'A';
    assert_eq!(decode_key(&encoded), None);
}

#[test]
fn rejects_wrong_length() {
    assert_eq!(decode_key(b"tooshort"), None);
}

#[test]
fn all_zeroes_and_all_ones() {
    for raw in [[0u8; 16], [0xffu8; 16]] {
        assert_eq!(decode_key(&encode_key(&raw)), Some(raw));
    }
}
