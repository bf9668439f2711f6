use mc_login::cipher::AesCryptor;

const KEY: [u8; 16] = [0x42; 16];
const IV: [u8; 16] = [0x24; 16];
const PLAIN: &[u8] = b"hello world! this is my plaintext.";
const CIPHER: [u8; 34] = [
    0x33, 0xb3, 0x56, 0xce, 0x91, 0x84, 0x29, 0x0c, 0x4c, 0x8f, 0xac, 0xc1, 0xc0, 0xb1, 0xf9, 0x18,
    0xd5, 0x47, 0x5a, 0xeb, 0x75, 0xb8, 0x8c, 0x16, 0x1c, 0xa6, 0x5b, 0xdf, 0x05, 0xc7, 0x13, 0x7f,
    0xf4, 0xb0,
];

#[test]
fn known_ciphertext() {
    let mut c = AesCryptor::new(KEY, IV);
    let mut buf = PLAIN.to_vec();
    c.encrypt(&mut buf);
    assert_eq!(buf, CIPHER.to_vec());
}

#[test]
fn known_plaintext() {
    let mut c = AesCryptor::new(KEY, IV);
    let mut buf = CIPHER.to_vec();
    c.decrypt(&mut buf);
    assert_eq!(buf, PLAIN.to_vec());
}

#[test]
fn decrypt_inverts_encrypt() {
    let key = [7u8; 16];
    let iv = [9u8; 16];
    let data: Vec<u8> = (0..1000u32).map(|i| (i * 7 % 256) as u8).collect();
    let mut sender = AesCryptor::new(key, iv);
    let mut receiver = AesCryptor::new(key, iv);
    let mut buf = data.clone();
    sender.encrypt(&mut buf);
    assert_ne!(buf, data);
    receiver.decrypt(&mut buf);
    assert_eq!(buf, data);
}

#[test]
fn two_ciphers_with_one_key_agree() {
    let mut a = AesCryptor::new(KEY, IV);
    let mut b = AesCryptor::new(KEY, IV);
    let mut x = PLAIN.to_vec();
    let mut y = PLAIN.to_vec();
    a.encrypt(&mut x);
    b.encrypt(&mut y);
    assert_eq!(x, y);
}

#[test]
fn successive_calls_continue_the_stream() {
    for split in [0usize, 1, 5, 15, 16, 17, 33, 34] {
        let mut c = AesCryptor::new(KEY, IV);
        let mut first = PLAIN[..split].to_vec();
        let mut second = PLAIN[split..].to_vec();
        c.encrypt(&mut first);
        c.encrypt(&mut second);
        first.extend_from_slice(&second);
        assert_eq!(first, CIPHER.to_vec());
    }
}

#[test]
fn a_used_cipher_does_not_start_over() {
    let mut used = AesCryptor::new(KEY, IV);
    let mut first = PLAIN.to_vec();
    used.encrypt(&mut first);
    let mut again = PLAIN.to_vec();
    used.encrypt(&mut again);
    assert_ne!(again, first);
    let mut receiver = AesCryptor::new(KEY, IV);
    receiver.decrypt(&mut first);
    receiver.decrypt(&mut again);
    assert_eq!(first, PLAIN.to_vec());
    assert_eq!(again, PLAIN.to_vec());
}

#[test]
fn decryption_continues_across_calls() {
    for split in [0usize, 1, 8, 16, 20, 34] {
        let mut c = AesCryptor::new(KEY, IV);
        let mut first = CIPHER[..split].to_vec();
        let mut second = CIPHER[split..].to_vec();
        c.decrypt(&mut first);
        c.decrypt(&mut second);
        first.extend_from_slice(&second);
        assert_eq!(first, PLAIN.to_vec());
    }
}

#[test]
fn the_two_directions_are_independent() {
    let mut c = AesCryptor::new(KEY, IV);
    let mut out = PLAIN.to_vec();
    c.encrypt(&mut out);
    let mut incoming = CIPHER.to_vec();
    c.decrypt(&mut incoming);
    assert_eq!(incoming, PLAIN.to_vec());
    assert_eq!(out, CIPHER.to_vec());
}

#[test]
fn empty_input_changes_nothing() {
    let mut c = AesCryptor::new(KEY, IV);
    let mut empty = Vec::new();
    c.encrypt(&mut empty);
    c.decrypt(&mut empty);
    assert!(empty.is_empty());
    let mut buf = PLAIN.to_vec();
    c.encrypt(&mut buf);
    assert_eq!(buf, CIPHER.to_vec());
}

#[test]
fn the_key_is_the_shared_secret() {
    let c = AesCryptor::new(KEY, IV);
    assert_eq!(c.shared_secret(), KEY);
}
