use shannon::{Framed, MacMismatch, Shannon};

const KEY_AB: &[u8] = b"key from a to b!";
const KEY_BA: &[u8] = b"key from b to a!";

fn peers() -> (Framed, Framed) {
    (Framed::new(KEY_AB, KEY_BA), Framed::new(KEY_BA, KEY_AB))
}

#[test]
fn framed_message_round_trip() {
    let (mut a, mut b) = peers();
    let mut wire = *b"abc";
    a.seal(&mut wire);
    assert_ne!(&wire, b"abc");
    let mac = a.end_send();
    b.open(&mut wire);
    assert_eq!(&wire, b"abc");
    assert_eq!(b.end_recv(&mac), Ok(()));
    assert_eq!(a.send_nonce, 1);
    assert_eq!(b.recv_nonce, 1);
    assert_eq!(a.recv_nonce, 0);
    assert_eq!(b.send_nonce, 0);
}

#[test]
fn framed_corrupted_mac_is_rejected() {
    for pos in 0..4 {
        let (mut a, mut b) = peers();
        let mut wire = *b"abc";
        a.seal(&mut wire);
        let mut mac = a.end_send();
        mac[pos] ^= 0x80;
        b.open(&mut wire);
        assert_eq!(b.end_recv(&mac), Err(MacMismatch));
        assert_eq!(b.recv_nonce, 0);
    }
}

#[test]
fn framed_uses_counter_nonces() {
    let (mut a, mut b) = peers();
    for round in 0..3u32 {
        let mut expected = Shannon::new(KEY_AB);
        expected.nonce_u32(round);
        let mut plain = *b"message";
        let mut reference = plain;
        expected.encrypt(&mut reference);
        a.seal(&mut plain);
        assert_eq!(plain, reference);
        let mac = a.end_send();
        let mut reference_mac = [0u8; 4];
        expected.finish(&mut reference_mac);
        assert_eq!(mac, reference_mac);
        b.open(&mut plain);
        assert_eq!(&plain, b"message");
        assert_eq!(b.end_recv(&mac), Ok(()));
    }
    assert_eq!(a.send_nonce, 3);
    assert_eq!(b.recv_nonce, 3);
}

#[test]
fn framed_counter_wraps() {
    let (mut a, _) = peers();
    a.send_nonce = u32::MAX;
    a.end_send();
    assert_eq!(a.send_nonce, 0);
}
