use shannon::{MacMismatch, Shannon};

const KEY: &[u8] = b"test key 128bits";
const NONCE: [u8; 4] = [0, 0, 0, 0];

fn fresh() -> Shannon {
    let mut c = Shannon::new(KEY);
    c.nonce(&NONCE);
    c
}

fn mac_of(c: &mut Shannon, n: usize) -> Vec<u8> {
    let mut mac = vec![0u8; n];
    c.finish(&mut mac);
    mac
}

#[test]
fn keystream_known_answer() {
    let mut c = fresh();
    let mut buf = [0u8; 16];
    c.stream(&mut buf);
    assert_eq!(
        buf,
        [77, 126, 211, 156, 182, 149, 217, 106, 207, 82, 151, 112, 236, 125, 204, 190]
    );
}

#[test]
fn encrypt_hello_known_answer() {
    let mut ks = fresh();
    let mut stream = [0u8; 16];
    ks.stream(&mut stream);

    let mut c = fresh();
    let mut buf = *b"hello";
    c.encrypt(&mut buf);
    assert_eq!(buf, [37, 27, 191, 240, 246]);
    // The first word is masked with the first keystream word; after it the
    // plaintext word has entered the register, so the keystream moves on.
    for i in 0..4 {
        assert_eq!(buf[i], b"hello"[i] ^ stream[i]);
    }
    assert_eq!(mac_of(&mut c, 4), vec![199, 26, 69, 189]);
}

#[test]
fn split_encrypt_matches_whole() {
    let mut a = fresh();
    let mut whole = *b"hello";
    a.encrypt(&mut whole);

    let mut b = fresh();
    let mut split = *b"hello";
    b.encrypt(&mut split[0..2]);
    b.encrypt(&mut split[2..5]);

    assert_eq!(whole, split);
    assert_eq!(mac_of(&mut a, 4), mac_of(&mut b, 4));
}

#[test]
fn every_chunking_matches_whole() {
    let plain: Vec<u8> = (0..37u8).map(|i| i.wrapping_mul(29).wrapping_add(3)).collect();
    let mut a = fresh();
    let mut whole = plain.clone();
    a.encrypt(&mut whole);
    let whole_mac = mac_of(&mut a, 4);
    for first in 0..plain.len() {
        for second in first..plain.len() {
            let mut b = fresh();
            let mut buf = plain.clone();
            b.encrypt(&mut buf[..first]);
            b.encrypt(&mut buf[first..second]);
            b.encrypt(&mut buf[second..]);
            assert_eq!(buf, whole);
            assert_eq!(mac_of(&mut b, 4), whole_mac);
        }
    }
}

#[test]
fn decrypt_inverts_encrypt() {
    for len in 0..40usize {
        let plain: Vec<u8> = (0..len as u8).collect();
        let mut a = fresh();
        let mut buf = plain.clone();
        a.encrypt(&mut buf);
        if len > 0 {
            assert_ne!(buf, plain);
        }
        let mut b = fresh();
        b.decrypt(&mut buf[..len / 3]);
        b.decrypt(&mut buf[len / 3..]);
        assert_eq!(buf, plain);
        assert_eq!(mac_of(&mut a, 4), mac_of(&mut b, 4));
    }
}

#[test]
fn encrypt_mac_equals_maconly_mac() {
    let plain = b"attack at dawn, bring snacks";
    let mut a = fresh();
    let mut buf = *plain;
    a.encrypt(&mut buf);
    let mut b = fresh();
    b.maconly(&plain[..7]);
    b.maconly(&plain[7..]);
    assert_eq!(mac_of(&mut a, 4), mac_of(&mut b, 4));
}

#[test]
fn stream_leaves_crc_and_ignores_buffer() {
    let mut a = fresh();
    let crc = a.CRC;
    let mut zeros = [0u8; 11];
    a.stream(&mut zeros);
    assert_eq!(a.CRC, crc);

    let mut b = fresh();
    let mut noise = [0xa5u8; 11];
    b.stream(&mut noise);
    assert_eq!(zeros, noise);
}

#[test]
fn nonce_after_finish_matches_fresh_context() {
    let mut a = fresh();
    let mut buf = *b"first message";
    a.encrypt(&mut buf);
    mac_of(&mut a, 4);
    a.nonce(&[1, 2, 3]);
    let mut b = Shannon::new(KEY);
    b.nonce(&[1, 2, 3]);
    let mut x = *b"second";
    let mut y = *b"second";
    a.encrypt(&mut x);
    b.encrypt(&mut y);
    assert_eq!(x, y);
    assert_eq!(mac_of(&mut a, 4), mac_of(&mut b, 4));
}

#[test]
fn distinct_nonces_give_distinct_ciphertexts() {
    let mut a = Shannon::new(KEY);
    a.nonce_u32(1);
    let mut b = Shannon::new(KEY);
    b.nonce_u32(2);
    let mut x = *b"same plaintext";
    let mut y = *b"same plaintext";
    a.encrypt(&mut x);
    b.encrypt(&mut y);
    assert_ne!(x, y);
}

#[test]
fn macs_of_short_lengths_are_distinct() {
    let mut macs = Vec::new();
    for len in 0..6usize {
        let mut c = fresh();
        let mut buf = vec![0u8; len];
        c.encrypt(&mut buf);
        macs.push(mac_of(&mut c, 4));
    }
    for i in 0..macs.len() {
        for j in i + 1..macs.len() {
            assert_ne!(macs[i], macs[j]);
        }
    }
}

#[test]
fn macs_of_counting_plaintexts_known_answer() {
    let expected: [[u8; 4]; 6] = [
        [38, 76, 254, 193],
        [247, 207, 169, 18],
        [5, 76, 145, 247],
        [228, 226, 239, 86],
        [62, 49, 123, 222],
        [80, 225, 222, 255],
    ];
    for len in 0..6usize {
        let mut c = fresh();
        let mut buf: Vec<u8> = (0..len as u8).collect();
        c.encrypt(&mut buf);
        assert_eq!(mac_of(&mut c, 4), expected[len].to_vec());
    }
}

#[test]
fn empty_key_and_nonce_mac_of_odd_width() {
    let mut c = Shannon::new(&[]);
    c.nonce(&[]);
    assert_eq!(mac_of(&mut c, 8), vec![39, 166, 86, 210, 2, 0, 15, 74]);
    let mut d = Shannon::new(&[]);
    d.nonce(&[]);
    assert_eq!(mac_of(&mut d, 6), vec![39, 166, 86, 210, 2, 0]);
}

#[test]
fn nonce_u32_is_big_endian() {
    let mut a = Shannon::new(KEY);
    a.nonce_u32(0x01020304);
    let mut b = Shannon::new(KEY);
    b.nonce(&[1, 2, 3, 4]);
    let mut c = Shannon::new(KEY);
    c.nonce(&[4, 3, 2, 1]);
    let (mut x, mut y, mut z) = ([0u8; 8], [0u8; 8], [0u8; 8]);
    a.stream(&mut x);
    b.stream(&mut y);
    c.stream(&mut z);
    assert_eq!(x, y);
    assert_ne!(x, z);
    let mut d = Shannon::new(KEY);
    d.nonce_u32(0);
    let mut w = [0u8; 16];
    d.stream(&mut w);
    assert_eq!(
        w,
        [77, 126, 211, 156, 182, 149, 217, 106, 207, 82, 151, 112, 236, 125, 204, 190]
    );
}

#[test]
fn check_mac_accepts_right_mac() {
    let mut a = fresh();
    let mut buf = *b"hello";
    a.encrypt(&mut buf);
    let mac = mac_of(&mut a, 4);
    let mut b = fresh();
    b.decrypt(&mut buf);
    assert_eq!(b.check_mac(&mac), Ok(()));
}

#[test]
fn check_mac_rejects_corrupted_mac() {
    for pos in 0..4 {
        let mut a = fresh();
        let mut buf = *b"hello";
        a.encrypt(&mut buf);
        let mut mac = mac_of(&mut a, 4);
        mac[pos] ^= 0x01;
        let mut b = fresh();
        b.decrypt(&mut buf);
        assert_eq!(b.check_mac(&mac), Err(MacMismatch));
    }
}

#[test]
fn check_mac_rejects_wrong_length() {
    let mut a = fresh();
    let mut buf = *b"hello";
    a.encrypt(&mut buf);
    let mut expected = mac_of(&mut a, 4);
    expected.extend_from_slice(&[0, 0, 0, 0]);
    let mut b = fresh();
    b.decrypt(&mut buf);
    assert_eq!(b.check_mac(&expected), Err(MacMismatch));
}

#[test]
fn empty_calls_change_nothing() {
    let mut a = fresh();
    let before = a.R;
    a.encrypt(&mut []);
    a.decrypt(&mut []);
    a.stream(&mut []);
    a.maconly(&[]);
    assert_eq!(a.R, before);
    let mut b = fresh();
    assert_eq!(mac_of(&mut a, 4), mac_of(&mut b, 4));
}
