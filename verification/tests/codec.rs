use rdvault::client::Client;
use rdvault::codec::{decode, encode, encode_decode_roundtrip};
use rdvault::VaultError;

fn client(name: &str, ip: &str, password: &str) -> Client {
    Client::new(name.to_string(), ip.to_string(), password.to_string())
}

#[test]
fn empty_list_roundtrips() {
    let list: Vec<Client> = Vec::new();
    let bytes = encode(&list);
    assert_eq!(bytes, vec![0u8; 8]);
    let back = decode(&bytes).unwrap();
    assert!(back.is_empty());
}

#[test]
fn single_record_exact_bytes() {
    let list = vec![client("a", "b", "c")];
    let bytes = encode(&list);
    let expected: Vec<u8> = vec![
        1, 0, 0, 0, 0, 0, 0, 0, 1, 0, 0, 0, 0, 0, 0, 0, 97, 1, 0, 0, 0, 0, 0, 0, 0, 98, 1, 0,
        0, 0, 0, 0, 0, 0, 99,
    ];
    assert_eq!(bytes, expected);
}

#[test]
fn list_roundtrips_in_order() {
    let list = vec![
        client("alpha", "10.0.0.1", "pw one"),
        client("beta", "10.0.0.2", ""),
        client("alpha", "10.0.0.1", "pw one"),
    ];
    let back = decode(&encode(&list)).unwrap();
    assert_eq!(back, list);
}

#[test]
fn unicode_fields_roundtrip() {
    let list = vec![client("bureau \u{00fc}ber", "h\u{00f4}te", "\u{1F511} cl\u{00e9}")];
    let back = decode(&encode(&list)).unwrap();
    assert_eq!(back, list);
}

#[test]
fn roundtrip_helper_matches() {
    let list = vec![client("n", "i", "p")];
    let back = encode_decode_roundtrip(&list);
    assert_eq!(back, list);
}

#[test]
fn truncated_bytes_are_a_format_fault() {
    let list = vec![client("name", "addr", "pw")];
    let bytes = encode(&list);
    for cut in 0..bytes.len() {
        assert_eq!(decode(&bytes[..cut]).unwrap_err(), VaultError::Format);
    }
}

#[test]
fn trailing_bytes_are_a_format_fault() {
    let list = vec![client("name", "addr", "pw")];
    let mut bytes = encode(&list);
    bytes.push(0);
    assert_eq!(decode(&bytes).unwrap_err(), VaultError::Format);
}

#[test]
fn invalid_utf8_is_a_format_fault() {
    // One record whose single-byte name is not valid UTF-8.
    let mut bytes: Vec<u8> = Vec::new();
    bytes.extend_from_slice(&1u64.to_le_bytes());
    bytes.extend_from_slice(&1u64.to_le_bytes());
    bytes.push(0xff);
    bytes.extend_from_slice(&0u64.to_le_bytes());
    bytes.extend_from_slice(&0u64.to_le_bytes());
    assert_eq!(decode(&bytes).unwrap_err(), VaultError::Format);
}

#[test]
fn overlong_length_prefix_is_a_format_fault() {
    let mut bytes: Vec<u8> = Vec::new();
    bytes.extend_from_slice(&1u64.to_le_bytes());
    bytes.extend_from_slice(&u64::MAX.to_le_bytes());
    assert_eq!(decode(&bytes).unwrap_err(), VaultError::Format);
}
