use mosh::crypto::{Base64Key, CryptoError, Message, Nonce, Session, Unique, ADDED_BYTES};

#[test]
fn key_printable_round_trip() {
    let key = Base64Key::random().unwrap();
    let printed = key.printable();
    assert_eq!(printed.len(), 22);
    assert!(Base64Key::parse(&printed).unwrap() == key);
}

#[test]
fn key_rejects_altered_trailing_bits() {
    // The final character encodes only 4 significant bits; changing it to a value
    // with different low bits must not decode back to the same key.
    let key = Base64Key::from_bytes([0u8; 16]);
    let printed = key.printable();
    let mut bad = printed.into_bytes();
    bad[21] = b'B';
    let bad = String::from_utf8(bad).unwrap();
    assert_eq!(Base64Key::parse(&bad).err(), Some(CryptoError::NotA128BitKey));
}

#[test]
fn key_rejects_wrong_length() {
    assert_eq!(Base64Key::parse("short").err(), Some(CryptoError::BadKeyLength));
}

#[test]
fn nonce_round_trips_through_the_wire_form() {
    for val in [0u64, 1, 42, u64::MAX, 1 << 47] {
        let n = Nonce::new(val);
        assert_eq!(n.val(), val);
        assert_eq!(n.wire().len(), 8);
        assert_eq!(Nonce::from_wire(n.wire()).unwrap(), n);
    }
    // The four leading bytes are always zero.
    assert_eq!(&Nonce::new(u64::MAX).as_bytes()[..4], &[0, 0, 0, 0]);
}

#[test]
fn nonce_rejects_wrong_wire_length() {
    assert_eq!(Nonce::from_wire(&[0; 7]), Err(CryptoError::BadNonceLength));
    assert_eq!(Nonce::from_wire(&[0; 9]), Err(CryptoError::BadNonceLength));
}

#[test]
fn encrypt_decrypt_round_trip() {
    let key = Base64Key::random().unwrap();
    let mut session = Session::new(&key);
    for len in [0usize, 1, 15, 16, 17, 100, 1000] {
        let text: Vec<u8> = (0..len).map(|i| (i % 251) as u8).collect();
        let msg = Message::new(Nonce::new(len as u64), text.clone());
        let wire = session.encrypt(&msg).unwrap();
        // 8 nonce bytes + plaintext + 16 tag bytes.
        assert_eq!(wire.len(), 8 + len + ADDED_BYTES);
        let back = session.decrypt(&wire).unwrap();
        assert_eq!(back.text, text);
        assert_eq!(back.nonce, msg.nonce);
    }
}

#[test]
fn tampering_is_detected() {
    let key = Base64Key::random().unwrap();
    let mut session = Session::new(&key);
    let msg = Message::new(Nonce::new(7), b"hello world, this is mosh".to_vec());
    let wire = session.encrypt(&msg).unwrap();
    for i in 0..wire.len() {
        let mut bad = wire.clone();
        bad[i] ^= 0x01;
        assert!(
            session.decrypt(&bad).is_err(),
            "flipping a bit at offset {i} went undetected"
        );
    }
}

#[test]
fn a_different_key_cannot_decrypt() {
    let mut a = Session::new(&Base64Key::random().unwrap());
    let b = Session::new(&Base64Key::random().unwrap());
    let wire = a
        .encrypt(&Message::new(Nonce::new(1), b"secret".to_vec()))
        .unwrap();
    assert_eq!(b.decrypt(&wire), Err(CryptoError::IntegrityCheck));
}

#[test]
fn short_datagrams_are_rejected() {
    let session = Session::new(&Base64Key::random().unwrap());
    assert_eq!(session.decrypt(&[0; 23]), Err(CryptoError::TooShort));
    assert_eq!(session.decrypt(&[0; 24]), Err(CryptoError::IntegrityCheck));
}

#[test]
fn unique_counter_starts_at_zero_and_advances() {
    let mut u = Unique::new();
    assert_eq!(u.next_value().unwrap(), 0);
    assert_eq!(u.next_value().unwrap(), 1);
}

#[test]
fn a_random_key_consists_of_the_bytes_that_were_drawn() {
    let drawn: Vec<u8> = (1..=16).collect();
    let key = Base64Key::from_random(Some(drawn.clone())).unwrap();
    assert_eq!(key.as_bytes()[..], drawn[..]);
    assert!(Base64Key::from_random(Some(vec![7; 15])).is_none());
    assert!(Base64Key::from_random(Some(vec![7; 17])).is_none());
    assert!(Base64Key::from_random(None).is_none());
    // Two draws of the system's source differ.
    assert_ne!(
        Base64Key::random().unwrap().as_bytes(),
        Base64Key::random().unwrap().as_bytes()
    );
}
