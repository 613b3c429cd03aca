use mosh::crypto::{Base64Key, CryptoError, Message, Nonce, Session};
use mosh::packet::{
    timestamp16, timestamp_diff, Direction, Packet, DIRECTION_MASK, SEQUENCE_MASK, TIMESTAMP_NONE,
};

#[test]
fn direction_lives_in_the_top_bit_of_the_nonce() {
    let to_client = Packet::new(5, Direction::ToClient, 1, 2, vec![]).to_message();
    assert_eq!(to_client.nonce.val() & DIRECTION_MASK, DIRECTION_MASK);
    assert_eq!(to_client.nonce.val() & SEQUENCE_MASK, 5);

    let to_server = Packet::new(5, Direction::ToServer, 1, 2, vec![]).to_message();
    assert_eq!(to_server.nonce.val() & DIRECTION_MASK, 0);
}

#[test]
fn timestamps_are_big_endian_and_come_first() {
    let msg = Packet::new(0, Direction::ToServer, 0x0102, 0x0304, b"body".to_vec()).to_message();
    assert_eq!(&msg.text[..4], &[0x01, 0x02, 0x03, 0x04]);
    assert_eq!(&msg.text[4..], b"body");
}

#[test]
fn a_packet_round_trips_through_its_message_form() {
    for direction in [Direction::ToServer, Direction::ToClient] {
        for payload in [&b""[..], b"hello", &[0xffu8; 1000][..]] {
            let p = Packet::new(12345, direction, 0xbeef, 0xcafe, payload.to_vec());
            let back = Packet::from_message(&p.to_message()).unwrap();
            assert_eq!(back, p);
        }
    }
}

#[test]
fn a_packet_survives_encryption() {
    let key = Base64Key::random().unwrap();
    let mut session = Session::new(&key);
    let p = Packet::new(7, Direction::ToClient, 111, 222, b"payload".to_vec());

    let wire = session.encrypt(&p.to_message()).unwrap();
    let decrypted = session.decrypt(&wire).unwrap();
    assert_eq!(Packet::from_message(&decrypted).unwrap(), p);
}

#[test]
fn the_sequence_number_never_collides_with_the_direction_bit() {
    // A sequence number with the top bit set must not be read back as a direction.
    let p = Packet::new(u64::MAX, Direction::ToServer, 0, 0, vec![]);
    let back = Packet::from_message(&p.to_message()).unwrap();
    assert_eq!(back.direction, Direction::ToServer);
    assert_eq!(back.seq, SEQUENCE_MASK);
}

#[test]
fn a_truncated_message_is_rejected_not_fatal() {
    for len in 0..4usize {
        let msg = Message::new(Nonce::new(0), vec![0; len]);
        assert_eq!(Packet::from_message(&msg), Err(CryptoError::TooShort));
    }
    // Exactly the timestamps with no payload is legitimate.
    let msg = Message::new(Nonce::new(0), vec![0; 4]);
    assert!(Packet::from_message(&msg).is_ok());
}

#[test]
fn timestamp16_avoids_the_none_value() {
    assert_eq!(timestamp16(0), 0);
    assert_eq!(timestamp16(65535), 0);
    assert_eq!(timestamp16(65536), 0);
    assert_ne!(timestamp16(65535), TIMESTAMP_NONE);
}

#[test]
fn timestamp_diff_wraps_around() {
    assert_eq!(timestamp_diff(100, 50), 50);
    // The clock wrapped between the two readings.
    assert_eq!(timestamp_diff(10, 65530), 16);
}
