use gif_store::codec::{decode_store, encode_store};
use gif_store::store::{add_gif, initialize, BaseAccount, Pubkey};

fn pk(b: u8) -> Pubkey {
    Pubkey { bytes: vec![b; 32] }
}

fn fresh(capacity: u32) -> BaseAccount {
    let mut store = BaseAccount { total_gifs: 0, gif_list: Vec::new(), capacity: 0 };
    initialize(&mut store, capacity);
    store
}

#[test]
fn encode_empty_store_is_the_bare_header() {
    let store = fresh(9000);
    let bytes = encode_store(&store);
    assert_eq!(bytes, vec![0u8; 12]);
}

#[test]
fn encode_one_entry_exact_bytes() {
    let mut store = fresh(9000);
    assert!(add_gif(&mut store, String::from("ab"), pk(7)).is_ok());
    let bytes = encode_store(&store);
    let mut expected: Vec<u8> = Vec::new();
    expected.extend_from_slice(&[1, 0, 0, 0, 0, 0, 0, 0]); // counter, little endian
    expected.extend_from_slice(&[1, 0, 0, 0]); // number of entries
    expected.extend_from_slice(&[2, 0, 0, 0]); // url byte length
    expected.extend_from_slice(b"ab");
    expected.extend_from_slice(&[7u8; 32]);
    assert_eq!(bytes, expected);
}

#[test]
fn encoding_matches_borsh_format() {
    let mut store = fresh(9000);
    assert!(add_gif(&mut store, String::from("https://a.test/1.gif"), pk(3)).is_ok());
    assert!(add_gif(&mut store, String::from("café"), pk(4)).is_ok());
    let entries: Vec<(String, [u8; 32])> = store
        .gif_list
        .iter()
        .map(|g| {
            let mut t = [0u8; 32];
            t.copy_from_slice(&g.user_address.bytes);
            (g.gif_url.clone(), t)
        })
        .collect();
    let reference = borsh::to_vec(&(store.total_gifs, entries)).unwrap();
    assert_eq!(encode_store(&store), reference);
}

#[test]
fn round_trip_reproduces_the_store() {
    let mut store = fresh(500);
    assert!(add_gif(&mut store, String::from("https://a.test/1.gif"), pk(0xaa)).is_ok());
    assert!(add_gif(&mut store, String::new(), pk(0)).is_ok());
    assert!(add_gif(&mut store, String::from("café/🎞.gif"), pk(0xff)).is_ok());
    let bytes = encode_store(&store);
    let decoded = decode_store(&bytes, 500).expect("a valid encoding must decode");
    assert_eq!(decoded, store);
}

#[test]
fn round_trip_empty_store() {
    let store = fresh(12);
    let bytes = encode_store(&store);
    let decoded = decode_store(&bytes, 12).expect("a valid encoding must decode");
    assert_eq!(decoded, store);
}

#[test]
fn decode_rejects_a_short_header() {
    assert!(decode_store(&vec![0u8; 11], 9000).is_none());
}

#[test]
fn decode_rejects_counter_and_list_length_disagreeing() {
    let mut bytes = vec![0u8; 12];
    bytes[0] = 1; // counter says one entry, list length says none
    assert!(decode_store(&bytes, 9000).is_none());
}

#[test]
fn decode_rejects_truncated_and_trailing_bytes() {
    let mut store = fresh(9000);
    assert!(add_gif(&mut store, String::from("ab"), pk(7)).is_ok());
    let bytes = encode_store(&store);
    let mut truncated = bytes.clone();
    truncated.pop();
    assert!(decode_store(&truncated, 9000).is_none());
    let mut trailing = bytes.clone();
    trailing.push(0);
    assert!(decode_store(&trailing, 9000).is_none());
}

#[test]
fn decode_rejects_bytes_beyond_capacity() {
    let mut store = fresh(9000);
    assert!(add_gif(&mut store, String::from("ab"), pk(7)).is_ok());
    let bytes = encode_store(&store);
    // 49 encoded bytes cannot sit in a 48-byte region
    assert_eq!(bytes.len(), 50);
    assert!(decode_store(&bytes, 49).is_none());
    assert!(decode_store(&bytes, 50).is_some());
}

#[test]
fn decode_rejects_a_url_that_is_not_utf8() {
    let mut bytes: Vec<u8> = Vec::new();
    bytes.extend_from_slice(&[1, 0, 0, 0, 0, 0, 0, 0]);
    bytes.extend_from_slice(&[1, 0, 0, 0]);
    bytes.extend_from_slice(&[2, 0, 0, 0]);
    bytes.extend_from_slice(&[0xff, 0xfe]); // not a UTF-8 sequence
    bytes.extend_from_slice(&[7u8; 32]);
    assert!(decode_store(&bytes, 9000).is_none());
}

#[test]
fn decode_restores_a_non_ascii_url_from_its_bytes() {
    let mut bytes: Vec<u8> = Vec::new();
    bytes.extend_from_slice(&[1, 0, 0, 0, 0, 0, 0, 0]);
    bytes.extend_from_slice(&[1, 0, 0, 0]);
    bytes.extend_from_slice(&[3, 0, 0, 0]);
    bytes.extend_from_slice(&[0xe2, 0x82, 0xac]); // three bytes, one character
    bytes.extend_from_slice(&[9u8; 32]);
    let decoded = decode_store(&bytes, 9000).expect("valid UTF-8 must decode");
    assert_eq!(decoded.total_gifs, 1);
    assert_eq!(decoded.gif_list[0].gif_url, "€");
    assert_eq!(decoded.gif_list[0].user_address, pk(9));
}
