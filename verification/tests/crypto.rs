use rdvault::encryption::{
    decrypt, encrypt, generate_key, generate_key_from_password, seal_open_roundtrip, KEY_SIZE,
    NONCE_SIZE,
};

#[test]
fn seal_then_open_returns_plaintext() {
    let key = generate_key_from_password(b"hunter2");
    let data = b"profiles in the clear".to_vec();
    let sealed = encrypt(&data, &key).unwrap();
    assert_eq!(sealed.len(), data.len() + NONCE_SIZE + 16);
    let opened = decrypt(&sealed, &key).unwrap();
    assert_eq!(opened, data);
}

#[test]
fn seal_open_roundtrip_on_empty_plaintext() {
    let key = generate_key_from_password(b"");
    let data: Vec<u8> = Vec::new();
    let out = seal_open_roundtrip(&data, &key);
    assert_eq!(out, data);
    let sealed = encrypt(&data, &key).unwrap();
    assert_eq!(sealed.len(), NONCE_SIZE + 16);
}

#[test]
fn wrong_key_fails_authentication() {
    let k1 = generate_key_from_password(b"one passphrase");
    let k2 = generate_key_from_password(b"another passphrase");
    assert_ne!(k1, k2);
    let sealed = encrypt(b"secret", &k1).unwrap();
    assert!(decrypt(&sealed, &k2).is_err());
}

#[test]
fn container_shorter_than_nonce_and_tag_is_rejected() {
    let key = generate_key_from_password(b"k");
    for len in 0..NONCE_SIZE + 16 {
        let short = vec![0u8; len];
        assert!(decrypt(&short, &key).is_err());
    }
}

#[test]
fn nonces_are_distinct_over_many_seals() {
    let key = generate_key_from_password(b"nonce uniqueness");
    let mut nonces: Vec<[u8; NONCE_SIZE]> = Vec::with_capacity(10_000);
    for _ in 0..10_000 {
        let sealed = encrypt(b"x", &key).unwrap();
        let mut nonce = [0u8; NONCE_SIZE];
        nonce.copy_from_slice(&sealed[..NONCE_SIZE]);
        nonces.push(nonce);
    }
    nonces.sort_unstable();
    for pair in nonces.windows(2) {
        assert_ne!(pair[0], pair[1]);
    }
}

#[test]
fn flipping_any_single_bit_fails_authentication() {
    let key = generate_key_from_password(b"tamper");
    let sealed = encrypt(b"abc", &key).unwrap();
    for byte in 0..sealed.len() {
        for bit in 0..8 {
            let mut tampered = sealed.clone();
            tampered[byte] ^= 1 << bit;
            assert!(decrypt(&tampered, &key).is_err());
        }
    }
}

#[test]
fn ciphertext_is_not_the_plaintext() {
    let key = generate_key_from_password(b"k");
    let data = b"not left in the clear".to_vec();
    let sealed = encrypt(&data, &key).unwrap();
    let body = &sealed[NONCE_SIZE..NONCE_SIZE + data.len()];
    assert_ne!(body, &data[..]);
}

#[test]
fn key_derivation_is_deterministic_and_spreads() {
    let a = generate_key_from_password(b"same input");
    let b = generate_key_from_password(b"same input");
    assert_eq!(a, b);
    let c = generate_key_from_password(b"same inpuu");
    assert_ne!(a, c);
    let empty = generate_key_from_password(b"");
    assert_eq!(empty.len(), KEY_SIZE);
}

#[test]
fn key_derivation_exact_value_for_empty_passphrase() {
    // Each lane of the empty derivation is the offset basis varied by the
    // lane number, written little-endian.
    let expected: [u8; KEY_SIZE] = [
        37, 35, 34, 132, 228, 156, 242, 203, 36, 35, 34, 132, 228, 156, 242, 203, 39, 35, 34,
        132, 228, 156, 242, 203, 38, 35, 34, 132, 228, 156, 242, 203,
    ];
    assert_eq!(generate_key_from_password(b""), expected);
}

#[test]
fn random_keys_differ() {
    let a = generate_key();
    let b = generate_key();
    assert_ne!(a, b);
}
