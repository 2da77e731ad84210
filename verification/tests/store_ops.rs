use gif_store::store::{
    add_gif, encoded_len, initialize, BaseAccount, Gif, Pubkey, StoreError, ENTRY_OVERHEAD_LEN,
    STORE_HEADER_LEN,
};

fn pk(b: u8) -> Pubkey {
    Pubkey { bytes: vec![b; 32] }
}

fn fresh(capacity: u32) -> BaseAccount {
    let mut store = BaseAccount { total_gifs: 0, gif_list: Vec::new(), capacity: 0 };
    initialize(&mut store, capacity);
    store
}

#[test]
fn initialize_zeroes_any_prior_content() {
    let mut store = BaseAccount {
        total_gifs: 99,
        gif_list: vec![Gif { gif_url: String::from("left-over"), user_address: pk(1) }],
        capacity: 7,
    };
    initialize(&mut store, 9000);
    assert_eq!(store.total_gifs, 0);
    assert!(store.gif_list.is_empty());
    assert_eq!(store.capacity, 9000);
}

#[test]
fn append_two_records_in_order() {
    let mut store = fresh(9000);
    assert!(add_gif(&mut store, String::from("https://a.test/1.gif"), pk(0xaa)).is_ok());
    assert!(add_gif(&mut store, String::from("https://a.test/2.gif"), pk(0xbb)).is_ok());
    assert_eq!(store.total_gifs, 2);
    assert_eq!(store.gif_list.len(), 2);
    assert_eq!(store.gif_list[0].gif_url, "https://a.test/1.gif");
    assert_eq!(store.gif_list[0].user_address, pk(0xaa));
    assert_eq!(store.gif_list[1].gif_url, "https://a.test/2.gif");
    assert_eq!(store.gif_list[1].user_address, pk(0xbb));
}

#[test]
fn append_count_equals_number_of_appends() {
    let mut store = fresh(9000);
    for i in 0..10u8 {
        assert!(add_gif(&mut store, format!("https://a.test/{}.gif", i), pk(i)).is_ok());
        assert_eq!(store.total_gifs, (i + 1) as u64);
        assert_eq!(store.gif_list.len(), (i + 1) as usize);
    }
}

#[test]
fn append_preserves_earlier_entries() {
    let mut store = fresh(9000);
    assert!(add_gif(&mut store, String::from("https://a.test/1.gif"), pk(1)).is_ok());
    let first = store.gif_list[0].clone();
    assert!(add_gif(&mut store, String::from("https://a.test/2.gif"), pk(2)).is_ok());
    assert_eq!(store.gif_list[0], first);
}

#[test]
fn append_identical_records_is_not_idempotent() {
    let mut store = fresh(9000);
    assert!(add_gif(&mut store, String::from("https://a.test/same.gif"), pk(5)).is_ok());
    assert!(add_gif(&mut store, String::from("https://a.test/same.gif"), pk(5)).is_ok());
    assert_eq!(store.total_gifs, 2);
    assert_eq!(store.gif_list.len(), 2);
    assert_eq!(store.gif_list[0], store.gif_list[1]);
}

#[test]
fn append_accepts_empty_url() {
    let mut store = fresh(9000);
    assert!(add_gif(&mut store, String::new(), pk(0)).is_ok());
    assert_eq!(store.total_gifs, 1);
    assert_eq!(store.gif_list[0].gif_url, "");
}

#[test]
fn capacity_boundary_fails_only_past_the_last_fitting_entry() {
    // Each entry is 36 + 2 url bytes = 38 encoded bytes; the capacity holds
    // exactly two of them beyond the 12-byte header.
    let k = 2u64;
    let entry = ENTRY_OVERHEAD_LEN + 2;
    let capacity = (STORE_HEADER_LEN + k * entry) as u32;
    let mut store = fresh(capacity);
    assert!(add_gif(&mut store, String::from("g1"), pk(1)).is_ok());
    assert!(add_gif(&mut store, String::from("g2"), pk(2)).is_ok());
    assert_eq!(encoded_len(&store), capacity as u64);
    let before = store.clone();
    let r = add_gif(&mut store, String::from("g3"), pk(3));
    assert_eq!(r, Err(StoreError::CapacityExceeded));
    assert_eq!(store, before);
    assert_eq!(store.total_gifs, k);
}

#[test]
fn capacity_failure_leaves_store_untouched_for_huge_url() {
    let mut store = fresh(60);
    assert!(add_gif(&mut store, String::from("ab"), pk(1)).is_ok());
    let before = store.clone();
    let long_url = "x".repeat(1000);
    let r = add_gif(&mut store, long_url, pk(2));
    assert_eq!(r, Err(StoreError::CapacityExceeded));
    assert_eq!(store, before);
}

#[test]
fn encoded_len_counts_header_and_entries() {
    let mut store = fresh(9000);
    assert_eq!(encoded_len(&store), 12);
    assert!(add_gif(&mut store, String::from("ab"), pk(1)).is_ok());
    assert_eq!(encoded_len(&store), 12 + 38);
    // a two-byte character counts by its UTF-8 size
    assert!(add_gif(&mut store, String::from("é"), pk(2)).is_ok());
    assert_eq!(encoded_len(&store), 12 + 38 + 38);
}
