//! The store itself: one counter and one ordered, append-only list of
//! entries, bounded by the byte capacity reserved for the account.

use vstd::prelude::*;
use vstd::utf8::*;

verus! {

/// Number of bytes of an account region taken by the store's framing:
/// the 8-byte counter plus the 4-byte length prefix of the entry list.
pub const STORE_HEADER_LEN: u64 = 12;

/// Number of encoded bytes an entry occupies beyond its URL text:
/// the 4-byte length prefix of the URL plus the 32-byte submitter token.
pub const ENTRY_OVERHEAD_LEN: u64 = 36;

/// Number of bytes in a submitter identity token.
pub const PUBKEY_LEN: usize = 32;

/// Identity token of the principal that submitted an entry. The caller is
/// trusted to have verified it; the store only records it.
#[derive(Clone, Debug, PartialEq, Eq)]
pub struct Pubkey {
    pub bytes: Vec<u8>,
}

impl View for Pubkey {
    type V = Seq<u8>;

    open spec fn view(&self) -> Seq<u8> {
        self.bytes@
    }
}

/// One submitted record: the URL text and the identity that submitted it.
/// Once appended, an entry is never mutated or removed.
#[derive(Clone, Debug, PartialEq, Eq)]
pub struct Gif {
    pub gif_url: String,
    pub user_address: Pubkey,
}

/// The persistent account state: an authoritative counter, the entries in
/// insertion order, and the byte capacity reserved at creation time.
///
/// The capacity is a 32-bit byte budget: the encoding's length prefixes are
/// 32-bit, so a larger region could never be filled faithfully anyway.
#[derive(Clone, Debug, PartialEq, Eq)]
pub struct BaseAccount {
    pub total_gifs: u64,
    pub gif_list: Vec<Gif>,
    pub capacity: u32,
}

/// The sole failure of the store: an append whose encoded result would not
/// fit in the reserved capacity.
#[derive(Clone, Copy, Debug, PartialEq, Eq)]
pub enum StoreError {
    CapacityExceeded,
}

/// Number of bytes the URL of `g` occupies in the encoding (UTF-8).
pub open spec fn url_byte_len(g: Gif) -> int {
    encode_utf8(g.gif_url@).len() as int
}

/// Number of encoded bytes one entry occupies: a 4-byte URL length prefix,
/// the URL bytes, and the 32-byte submitter token.
pub open spec fn entry_encoded_len(g: Gif) -> int {
    36 + url_byte_len(g)
}

/// Number of encoded bytes a list of entries occupies.
pub open spec fn entries_encoded_len(s: Seq<Gif>) -> int
    decreases s.len(),
{
    if s.len() == 0 {
        0
    } else {
        entry_encoded_len(s[0]) + entries_encoded_len(s.drop_first())
    }
}

/// Number of encoded bytes the whole store occupies: the 12-byte header
/// (counter and list length) plus its entries.
pub open spec fn store_encoded_len(s: BaseAccount) -> int {
    12 + entries_encoded_len(s.gif_list@)
}

/// A well-formed entry carries a full 32-byte submitter token.
pub open spec fn gif_wf(g: Gif) -> bool {
    g.user_address@.len() == 32
}

pub open spec fn gifs_wf(s: Seq<Gif>) -> bool {
    forall|i: int| 0 <= i < s.len() ==> gif_wf(#[trigger] s[i])
}

/// The store's invariant, established by `initialize` and preserved by
/// `add_gif`: the counter equals the number of entries, every entry carries
/// a full submitter token, and the encoded store fits its capacity.
pub open spec fn well_formed(s: BaseAccount) -> bool {
    &&& s.total_gifs == s.gif_list@.len()
    &&& gifs_wf(s.gif_list@)
    &&& store_encoded_len(s) <= s.capacity
}

/// Two entries hold the same record: same URL text, same submitter token.
pub open spec fn gif_obs_eq(a: Gif, b: Gif) -> bool {
    a.gif_url@ == b.gif_url@ && a.user_address@ == b.user_address@
}

/// Two stores hold the same observable state: same counter, same capacity,
/// and the same records in the same order.
pub open spec fn store_obs_eq(a: BaseAccount, b: BaseAccount) -> bool {
    &&& a.total_gifs == b.total_gifs
    &&& a.capacity == b.capacity
    &&& a.gif_list@.len() == b.gif_list@.len()
    &&& forall|i: int|
        0 <= i < a.gif_list@.len() ==> gif_obs_eq(#[trigger] a.gif_list@[i], b.gif_list@[i])
}

/// The encoded length of a list of entries is never negative, and grows by
/// at least the fixed overhead for each entry present.
pub proof fn lemma_entries_encoded_len_bounds(s: Seq<Gif>)
    ensures
        entries_encoded_len(s) >= 36 * s.len(),
        entries_encoded_len(s) >= 0,
    decreases s.len(),
{
    if s.len() > 0 {
        lemma_entries_encoded_len_bounds(s.drop_first());
    }
}

/// Appending one entry to a list adds exactly that entry's encoded length.
pub proof fn lemma_entries_encoded_len_push(s: Seq<Gif>, g: Gif)
    ensures
        entries_encoded_len(s.push(g)) == entries_encoded_len(s) + entry_encoded_len(g),
    decreases s.len(),
{
    assert(entries_encoded_len(s.push(g)) == entry_encoded_len(s.push(g)[0])
        + entries_encoded_len(s.push(g).drop_first()));
    if s.len() == 0 {
        assert(s.push(g)[0] == g);
        assert(s.push(g).drop_first() =~= Seq::<Gif>::empty());
        assert(entries_encoded_len(Seq::<Gif>::empty()) == 0);
    } else {
        assert(s.push(g)[0] == s[0]);
        assert(s.push(g).drop_first() =~= s.drop_first().push(g));
        lemma_entries_encoded_len_push(s.drop_first(), g);
    }
}

/// The encoded length of a list splits at any index into the lengths of the
/// prefix and of the suffix.
pub proof fn lemma_entries_encoded_len_split(s: Seq<Gif>, k: int)
    requires
        0 <= k <= s.len(),
    ensures
        entries_encoded_len(s) == entries_encoded_len(s.take(k)) + entries_encoded_len(s.skip(k)),
    decreases k,
{
    if k == 0 {
        assert(s.take(0) =~= Seq::<Gif>::empty());
        assert(s.skip(0) =~= s);
    } else {
        assert(s.take(k)[0] == s[0]);
        assert(s.take(k).drop_first() =~= s.drop_first().take(k - 1));
        assert(s.skip(k) =~= s.drop_first().skip(k - 1));
        lemma_entries_encoded_len_split(s.drop_first(), k - 1);
    }
}

/// Each entry's encoded length is at most the whole list's encoded length.
pub proof fn lemma_entry_encoded_len_le(s: Seq<Gif>, i: int)
    requires
        0 <= i < s.len(),
    ensures
        entry_encoded_len(s[i]) <= entries_encoded_len(s),
{
    lemma_entries_encoded_len_split(s, i);
    lemma_entries_encoded_len_bounds(s.take(i));
    let suf = s.skip(i);
    assert(suf[0] == s[i]);
    lemma_entries_encoded_len_bounds(suf.drop_first());
}

/// In a well-formed store the entry count is far below `u64::MAX`, so the
/// counter can always be incremented.
pub proof fn lemma_wf_count_small(s: BaseAccount)
    requires
        well_formed(s),
    ensures
        s.gif_list@.len() < 0x1_0000_0000,
        s.total_gifs < 0x1_0000_0000,
{
    lemma_entries_encoded_len_bounds(s.gif_list@);
}

/// Zero the counter and the entry list of a freshly provisioned account,
/// recording the byte capacity its region was reserved with. Succeeds on any
/// prior content of `store`.
pub fn initialize(store: &mut BaseAccount, capacity: u32)
    ensures
        final(store).total_gifs == 0,
        final(store).gif_list@ =~= Seq::<Gif>::empty(),
        final(store).capacity == capacity,
        capacity >= 12 ==> well_formed(*final(store)),
{
    store.total_gifs = 0;
    store.gif_list = Vec::new();
    store.capacity = capacity;
}

/// Number of bytes the store occupies in encoded form.
pub fn encoded_len(store: &BaseAccount) -> (n: u64)
    requires
        well_formed(*store),
    ensures
        n == store_encoded_len(*store),
{
    let entries = &store.gif_list;
    let ghost all = entries@;
    let mut total: u64 = 12;
    let mut i: usize = 0;
    proof {
        assert(all.take(0) =~= Seq::<Gif>::empty());
    }
    while i < entries.len()
        invariant
            i <= all.len(),
            entries@ == all,
            total == 12 + entries_encoded_len(all.take(i as int)),
            store_encoded_len(*store) <= store.capacity,
            store.gif_list@ == all,
        decreases all.len() - i,
    {
        let url_bytes_here: u64 = entries[i].gif_url.as_str().as_bytes().len() as u64;
        proof {
            assert(all.take(i + 1) =~= all.take(i as int).push(all[i as int]));
            lemma_entries_encoded_len_push(all.take(i as int), all[i as int]);
            lemma_entries_encoded_len_split(all, i + 1);
            lemma_entries_encoded_len_bounds(all.skip(i + 1));
        }
        total = total + 36 + url_bytes_here;
        i = i + 1;
    }
    proof {
        assert(all.take(all.len() as int) =~= all);
    }
    total
}

/// Append one record: push a `Gif` holding the URL and the submitter, and
/// raise the counter by one, as a single atomic step. Fails with `CapacityExceeded`, mutating
/// nothing, exactly when the encoded store after the insertion would exceed
/// the reserved capacity. The URL is stored as given: no validation, no
/// deduplication.
pub fn add_gif(store: &mut BaseAccount, url: String, submitter: Pubkey) -> (r: Result<
    (),
    StoreError,
>)
    requires
        well_formed(*old(store)),
        submitter@.len() == 32,
    ensures
        well_formed(*final(store)),
        final(store).capacity == old(store).capacity,
        r is Ok <==> store_encoded_len(*old(store)) + 36 + encode_utf8(url@).len()
            <= old(store).capacity,
        r is Ok ==> final(store).total_gifs == old(store).total_gifs + 1
            && final(store).gif_list@ == old(store).gif_list@.push(
            (Gif { gif_url: url, user_address: submitter }),
        ),
        r is Err ==> *final(store) == *old(store) && r == Err::<(), StoreError>(
            StoreError::CapacityExceeded,
        ),
{
    let used: u64 = encoded_len(store);
    let url_len: u64 = url.as_str().as_bytes().len() as u64;
    let cap: u64 = store.capacity as u64;
    proof {
        lemma_entries_encoded_len_bounds(store.gif_list@);
    }
    if url_len > cap || used + 36 + url_len > cap {
        return Err(StoreError::CapacityExceeded);
    }
    let item = Gif { gif_url: url, user_address: submitter };
    proof {
        lemma_wf_count_small(*store);
        lemma_entries_encoded_len_push(store.gif_list@, item);
    }
    store.gif_list.push(item);
    store.total_gifs = store.total_gifs + 1;
    Ok(())
}

/// Law: an append never mutates or moves what was already stored — after one
/// entry is pushed, every previously stored entry keeps its value and its
/// position, and the new entry stands last.
pub proof fn lemma_append_preserves_entries(before: Seq<Gif>, after: Seq<Gif>, g: Gif)
    requires
        after == before.push(g),
    ensures
        after.len() == before.len() + 1,
        forall|i: int| 0 <= i < before.len() ==> after[i] == before[i],
        after[before.len() as int] == g,
{
}

/// Law: appending is not idempotent. Two successful appends of the same
/// record, witnessed by the relations `add_gif` ensures, raise the counter by
/// two and store the record at two distinct positions.
pub proof fn lemma_append_twice_not_idempotent(
    s0: BaseAccount,
    s1: BaseAccount,
    s2: BaseAccount,
    g: Gif,
)
    requires
        s1.total_gifs == s0.total_gifs + 1,
        s1.gif_list@ == s0.gif_list@.push(g),
        s2.total_gifs == s1.total_gifs + 1,
        s2.gif_list@ == s1.gif_list@.push(g),
    ensures
        s2.total_gifs == s0.total_gifs + 2,
        s2.gif_list@.len() == s0.gif_list@.len() + 2,
        s2.gif_list@[s0.gif_list@.len() as int] == g,
        s2.gif_list@[s0.gif_list@.len() as int + 1] == g,
{
}

/// Entries appended one at a time, in order, onto an existing list.
pub open spec fn push_all(s: Seq<Gif>, gs: Seq<Gif>) -> Seq<Gif>
    decreases gs.len(),
{
    if gs.len() == 0 {
        s
    } else {
        push_all(s.push(gs[0]), gs.drop_first())
    }
}

/// Law: N appends applied in order to a list leave exactly the old entries
/// followed by the N appended ones; on a freshly initialized store the list
/// is then exactly the appended records, N of them, in call order — and with
/// `well_formed` the counter equals N.
pub proof fn lemma_appends_in_order(s: Seq<Gif>, gs: Seq<Gif>)
    ensures
        push_all(s, gs) =~= s + gs,
        push_all(Seq::<Gif>::empty(), gs) =~= gs,
    decreases gs.len(),
{
    if gs.len() == 0 {
        assert(s + gs =~= s);
        assert(Seq::<Gif>::empty() + gs =~= gs);
    } else {
        lemma_appends_in_order(s.push(gs[0]), gs.drop_first());
        assert(s.push(gs[0]) + gs.drop_first() =~= s + gs);
        lemma_appends_in_order(Seq::<Gif>::empty().push(gs[0]), gs.drop_first());
        assert(Seq::<Gif>::empty().push(gs[0]) + gs.drop_first() =~= gs);
    }
}

} // verus!
