//! Byte-level encoding of a store, used to persist it in its fixed-capacity
//! account region: the 8-byte little-endian counter, the 4-byte little-endian
//! entry count, then each entry as a 4-byte little-endian URL byte length,
//! the URL's UTF-8 bytes, and the 32-byte submitter token.

use vstd::bytes::*;
use vstd::prelude::*;
use vstd::slice::{slice_subrange, slice_to_vec};
use vstd::utf8::*;

use crate::store::{
    entries_encoded_len, entry_encoded_len, gif_obs_eq, gif_wf, gifs_wf,
    lemma_entries_encoded_len_bounds, lemma_entry_encoded_len_le, lemma_wf_count_small,
    store_encoded_len, store_obs_eq, url_byte_len, well_formed, BaseAccount, Gif, Pubkey,
};

verus! {

/// The encoded bytes of one entry.
pub open spec fn spec_encode_entry(g: Gif) -> Seq<u8> {
    spec_u32_to_le_bytes(url_byte_len(g) as u32) + encode_utf8(g.gif_url@) + g.user_address@
}

/// The encoded bytes of a list of entries, in order.
pub open spec fn spec_encode_entries(s: Seq<Gif>) -> Seq<u8>
    decreases s.len(),
{
    if s.len() == 0 {
        Seq::empty()
    } else {
        spec_encode_entry(s[0]) + spec_encode_entries(s.drop_first())
    }
}

/// A well-formed entry encodes to exactly its encoded length.
pub proof fn lemma_encode_entry_len(g: Gif)
    requires
        gif_wf(g),
    ensures
        spec_encode_entry(g).len() == entry_encoded_len(g),
{
    lemma_auto_spec_u32_to_from_le_bytes();
}

/// A well-formed entry list encodes to exactly its encoded length.
pub proof fn lemma_encode_entries_len(s: Seq<Gif>)
    requires
        gifs_wf(s),
    ensures
        spec_encode_entries(s).len() == entries_encoded_len(s),
    decreases s.len(),
{
    if s.len() > 0 {
        lemma_encode_entry_len(s[0]);
        assert(gifs_wf(s.drop_first()));
        lemma_encode_entries_len(s.drop_first());
    }
}

/// The encoded bytes of the whole store: the 8-byte counter, the 4-byte
/// entry count, then the entries in order.
pub open spec fn spec_encode_store(s: BaseAccount) -> Seq<u8> {
    spec_u64_to_le_bytes(s.total_gifs) + spec_u32_to_le_bytes(s.gif_list@.len() as u32)
        + spec_encode_entries(s.gif_list@)
}

/// A store with well-formed entries encodes to exactly its encoded length.
pub proof fn lemma_encode_store_len(s: BaseAccount)
    requires
        gifs_wf(s.gif_list@),
    ensures
        spec_encode_store(s).len() == store_encoded_len(s),
{
    lemma_auto_spec_u64_to_from_le_bytes();
    lemma_auto_spec_u32_to_from_le_bytes();
    lemma_encode_entries_len(s.gif_list@);
}

/// Appending one entry to a list appends exactly that entry's bytes to the
/// list's encoding.
pub proof fn lemma_encode_entries_push(s: Seq<Gif>, g: Gif)
    ensures
        spec_encode_entries(s.push(g)) == spec_encode_entries(s) + spec_encode_entry(g),
    decreases s.len(),
{
    assert(spec_encode_entries(s.push(g)) == spec_encode_entry(s.push(g)[0])
        + spec_encode_entries(s.push(g).drop_first()));
    if s.len() == 0 {
        assert(s.push(g)[0] == g);
        assert(s.push(g).drop_first() =~= Seq::<Gif>::empty());
        assert(spec_encode_entries(s) + spec_encode_entry(g) =~= spec_encode_entry(g));
    } else {
        assert(s.push(g)[0] == s[0]);
        assert(s.push(g).drop_first() =~= s.drop_first().push(g));
        lemma_encode_entries_push(s.drop_first(), g);
        assert(spec_encode_entry(s[0]) + (spec_encode_entries(s.drop_first())
            + spec_encode_entry(g)) =~= (spec_encode_entry(s[0]) + spec_encode_entries(
            s.drop_first(),
        )) + spec_encode_entry(g));
    }
}

/// Encode the store for persistence in its account region.
pub fn encode_store(store: &BaseAccount) -> (r: Vec<u8>)
    requires
        well_formed(*store),
    ensures
        r@ == spec_encode_store(*store),
        r@.len() == store_encoded_len(*store),
{
    let ghost all = store.gif_list@;
    proof {
        lemma_wf_count_small(*store);
    }
    let n: u32 = store.gif_list.len() as u32;
    let mut out: Vec<u8> = u64_to_le_bytes(store.total_gifs);
    let mut nb: Vec<u8> = u32_to_le_bytes(n);
    out.append(&mut nb);
    let ghost header = spec_u64_to_le_bytes(store.total_gifs) + spec_u32_to_le_bytes(
        all.len() as u32,
    );
    proof {
        assert(all.take(0) =~= Seq::<Gif>::empty());
        assert(out@ =~= header + spec_encode_entries(all.take(0)));
    }
    let mut i: usize = 0;
    while i < store.gif_list.len()
        invariant
            i <= all.len(),
            store.gif_list@ == all,
            well_formed(*store),
            out@ == header + spec_encode_entries(all.take(i as int)),
        decreases all.len() - i,
    {
        let g = &store.gif_list[i];
        let ghost gg = all[i as int];
        let url_slice = g.gif_url.as_str().as_bytes();
        proof {
            lemma_entry_encoded_len_le(all, i as int);
            lemma_entries_encoded_len_bounds(all);
            assert(url_slice@.len() < 0x1_0000_0000);
        }
        let ulen: u32 = url_slice.len() as u32;
        let mut lb: Vec<u8> = u32_to_le_bytes(ulen);
        out.append(&mut lb);
        let mut ub: Vec<u8> = slice_to_vec(url_slice);
        out.append(&mut ub);
        let mut pb: Vec<u8> = slice_to_vec(g.user_address.bytes.as_slice());
        out.append(&mut pb);
        proof {
            assert(all.take(i + 1) =~= all.take(i as int).push(gg));
            lemma_encode_entries_push(all.take(i as int), gg);
            assert(out@ =~= header + spec_encode_entries(all.take(i + 1)));
        }
        i = i + 1;
    }
    proof {
        assert(all.take(all.len() as int) =~= all);
        lemma_encode_store_len(*store);
    }
    out
}

/// True when `bytes` is the encoding of the well-formed store `s`, reserved
/// with `capacity` bytes.
pub open spec fn encodes(s: BaseAccount, bytes: Seq<u8>, capacity: u32) -> bool {
    well_formed(s) && s.capacity == capacity && spec_encode_store(s) == bytes
}

/// The encoding of a store splits into the counter bytes, the entry-count
/// bytes, and the entries' bytes.
pub proof fn lemma_encode_store_parts(s: BaseAccount)
    requires
        gifs_wf(s.gif_list@),
    ensures
        spec_encode_store(s).len() == store_encoded_len(s),
        spec_encode_store(s).subrange(0, 8) == spec_u64_to_le_bytes(s.total_gifs),
        spec_encode_store(s).subrange(8, 12) == spec_u32_to_le_bytes(s.gif_list@.len() as u32),
        spec_encode_store(s).skip(12) == spec_encode_entries(s.gif_list@),
{
    lemma_auto_spec_u64_to_from_le_bytes();
    lemma_auto_spec_u32_to_from_le_bytes();
    lemma_encode_entries_len(s.gif_list@);
    assert(spec_encode_store(s).subrange(0, 8) =~= spec_u64_to_le_bytes(s.total_gifs));
    assert(spec_encode_store(s).subrange(8, 12) =~= spec_u32_to_le_bytes(
        s.gif_list@.len() as u32,
    ));
    assert(spec_encode_store(s).skip(12) =~= spec_encode_entries(s.gif_list@));
}

/// The encoding of a non-empty entry list splits into the first entry's URL
/// length prefix, URL bytes and submitter token, followed by the encoding of
/// the remaining entries.
pub proof fn lemma_encode_entries_first(s: Seq<Gif>)
    requires
        s.len() > 0,
        gifs_wf(s),
    ensures
        spec_encode_entries(s).len() == entries_encoded_len(s),
        spec_encode_entries(s).subrange(0, 4) == spec_u32_to_le_bytes(url_byte_len(s[0]) as u32),
        spec_encode_entries(s).subrange(4, 4 + url_byte_len(s[0])) == encode_utf8(s[0].gif_url@),
        spec_encode_entries(s).subrange(4 + url_byte_len(s[0]), entry_encoded_len(s[0]))
            == s[0].user_address@,
        spec_encode_entries(s).skip(entry_encoded_len(s[0])) == spec_encode_entries(
            s.drop_first(),
        ),
{
    lemma_auto_spec_u32_to_from_le_bytes();
    lemma_encode_entries_len(s);
    lemma_encode_entry_len(s[0]);
    assert(spec_encode_entries(s).subrange(0, 4) =~= spec_u32_to_le_bytes(
        url_byte_len(s[0]) as u32,
    ));
    assert(spec_encode_entries(s).subrange(4, 4 + url_byte_len(s[0])) =~= encode_utf8(
        s[0].gif_url@,
    ));
    assert(spec_encode_entries(s).subrange(4 + url_byte_len(s[0]), entry_encoded_len(s[0]))
        =~= s[0].user_address@);
    assert(spec_encode_entries(s).skip(entry_encoded_len(s[0])) =~= spec_encode_entries(
        s.drop_first(),
    ));
}

/// Relies on `String::from_utf8`: it succeeds exactly when the bytes are
/// valid UTF-8, and the string it returns decodes those bytes, so that its
/// own UTF-8 bytes are the input bytes.
#[verifier::external_body]
fn string_from_utf8(bytes: Vec<u8>) -> (r: Option<String>)
    ensures
        r is Some <==> valid_utf8(bytes@),
        r matches Some(u) ==> u@ == decode_utf8(bytes@) && encode_utf8(u@) == bytes@,
{
    String::from_utf8(bytes).ok()
}

/// What a decode under way has pinned down about any store `s` whose
/// encoding the input could be: the header fields, that the `done` entries
/// already parsed match the front of `s`, and that the bytes not yet parsed
/// are the encoding of the rest of `s`.
spec fn decode_matches(
    s: BaseAccount,
    bs: Seq<u8>,
    total: u64,
    n: u32,
    done: Seq<Gif>,
    pos: int,
) -> bool {
    &&& s.total_gifs == total
    &&& s.gif_list@.len() == n as int
    &&& done.len() <= n as int
    &&& (forall|j: int| 0 <= j < done.len() ==> gif_obs_eq(#[trigger] s.gif_list@[j], done[j]))
    &&& bs.skip(pos) == spec_encode_entries(s.gif_list@.skip(done.len() as int))
}

/// Decode the content of an account region reserved with `capacity` bytes.
///
/// Whatever decodes is a well-formed store that encodes back to exactly the
/// input bytes; and the encoding of any well-formed store of this capacity
/// decodes to a store holding the same counter and the same records in the
/// same order — encoding then decoding reproduces the store.
pub fn decode_store(bytes: &Vec<u8>, capacity: u32) -> (r: Option<BaseAccount>)
    ensures
        r matches Some(t) ==> encodes(t, bytes@, capacity),
        forall|s: BaseAccount|
            encodes(s, bytes@, capacity) ==> r is Some && store_obs_eq(r.unwrap(), s),
{
    let ghost bs = bytes@;
    let len: usize = bytes.len();
    proof {
        assert forall|s: BaseAccount| encodes(s, bs, capacity) implies bs.len()
            == store_encoded_len(s) && bs.len() >= 12 && bs.len() <= capacity by {
            lemma_encode_store_len(s);
            lemma_entries_encoded_len_bounds(s.gif_list@);
        }
    }
    if len < 12 {
        return None;
    }
    if (len as u64) > (capacity as u64) {
        return None;
    }
    let bslice = bytes.as_slice();
    let total: u64 = u64_from_le_bytes(slice_subrange(bslice, 0, 8));
    let n: u32 = u32_from_le_bytes(slice_subrange(bslice, 8, 12));
    proof {
        assert forall|s: BaseAccount| encodes(s, bs, capacity) implies s.total_gifs == total
            && s.gif_list@.len() == n as int by {
            lemma_encode_store_parts(s);
            lemma_auto_spec_u64_to_from_le_bytes();
            lemma_auto_spec_u32_to_from_le_bytes();
            lemma_wf_count_small(s);
        }
    }
    if total != n as u64 {
        return None;
    }
    let mut gifs: Vec<Gif> = Vec::new();
    let mut pos: usize = 12;
    let mut k: u32 = 0;
    proof {
        assert(spec_encode_entries(gifs@) =~= bs.subrange(12, 12));
        assert forall|s: BaseAccount| encodes(s, bs, capacity) implies decode_matches(
            s,
            bs,
            total,
            n,
            gifs@,
            pos as int,
        ) by {
            lemma_encode_store_parts(s);
            assert(s.gif_list@.skip(0) =~= s.gif_list@);
        }
    }
    while k < n
        invariant
            bytes@ == bs,
            bslice@ == bs,
            bs.len() == len,
            12 <= pos <= len,
            len as u64 <= capacity as u64,
            gifs@.len() == k as int,
            k <= n,
            gifs_wf(gifs@),
            spec_encode_entries(gifs@) == bs.subrange(12, pos as int),
            forall|s: BaseAccount|
                encodes(s, bs, capacity) ==> decode_matches(s, bs, total, n, gifs@, pos as int),
        decreases n - k,
    {
        let ghost pre = gifs@;
        let rem: usize = len - pos;
        proof {
            assert forall|s: BaseAccount| encodes(s, bs, capacity) implies rem as int >= 36
                + url_byte_len(s.gif_list@[k as int]) && url_byte_len(s.gif_list@[k as int])
                < 0x1_0000_0000 && bs.subrange(pos as int, pos + 4) == spec_u32_to_le_bytes(
                url_byte_len(s.gif_list@[k as int]) as u32,
            ) by {
                let suffix = s.gif_list@.skip(k as int);
                assert(gifs_wf(suffix)) by {
                    assert(forall|i: int|
                        0 <= i < suffix.len() ==> #[trigger] suffix[i] == s.gif_list@[i + k]);
                }
                lemma_encode_entries_first(suffix);
                lemma_entries_encoded_len_bounds(suffix.drop_first());
                assert(bs.skip(pos as int).len() == rem);
                assert(bs.subrange(pos as int, pos + 4) =~= bs.skip(pos as int).subrange(0, 4));
            }
        }
        if rem < 4 {
            return None;
        }
        let ulen: u32 = u32_from_le_bytes(slice_subrange(bslice, pos, pos + 4));
        proof {
            assert forall|s: BaseAccount| encodes(s, bs, capacity) implies ulen as int
                == url_byte_len(s.gif_list@[k as int]) by {
                lemma_auto_spec_u32_to_from_le_bytes();
            }
        }
        if (rem as u64) < 4 + (ulen as u64) + 32 {
            return None;
        }
        let url_end: usize = pos + 4 + (ulen as usize);
        let url_vec: Vec<u8> = slice_to_vec(slice_subrange(bslice, pos + 4, url_end));
        proof {
            assert forall|s: BaseAccount| encodes(s, bs, capacity) implies valid_utf8(
                url_vec@,
            ) by {
                let suffix = s.gif_list@.skip(k as int);
                assert(gifs_wf(suffix)) by {
                    assert(forall|i: int|
                        0 <= i < suffix.len() ==> #[trigger] suffix[i] == s.gif_list@[i + k]);
                }
                lemma_encode_entries_first(suffix);
                assert(url_vec@ =~= bs.skip(pos as int).subrange(4, 4 + ulen));
                encode_utf8_valid_utf8(suffix[0].gif_url@);
            }
        }
        let url = match string_from_utf8(url_vec) {
            Some(u) => u,
            None => {
                return None;
            },
        };
        let pk_vec: Vec<u8> = slice_to_vec(slice_subrange(bslice, url_end, url_end + 32));
        let gif = Gif { gif_url: url, user_address: Pubkey { bytes: pk_vec } };
        proof {
            lemma_auto_spec_u32_to_from_le_bytes();
            assert(url_byte_len(gif) == ulen as int);
            assert(spec_encode_entry(gif) =~= bs.subrange(pos as int, url_end + 32));
            lemma_encode_entries_push(pre, gif);
            assert(spec_encode_entries(pre.push(gif)) =~= bs.subrange(12, url_end + 32));
            assert forall|s: BaseAccount| encodes(s, bs, capacity) implies decode_matches(
                s,
                bs,
                total,
                n,
                pre.push(gif),
                url_end + 32,
            ) by {
                let suffix = s.gif_list@.skip(k as int);
                assert(gifs_wf(suffix)) by {
                    assert(forall|i: int|
                        0 <= i < suffix.len() ==> #[trigger] suffix[i] == s.gif_list@[i + k]);
                }
                lemma_encode_entries_first(suffix);
                let e = s.gif_list@[k as int];
                assert(url_vec@ =~= bs.skip(pos as int).subrange(4, 4 + ulen));
                assert(encode_utf8(e.gif_url@) =~= bs.skip(pos as int).subrange(4, 4 + ulen));
                encode_utf8_decode_utf8(e.gif_url@);
                assert(gif.gif_url@ == e.gif_url@);
                assert(gif.user_address@ =~= bs.skip(pos as int).subrange(
                    4 + ulen,
                    36 + ulen,
                ));
                assert(e.user_address@ == bs.skip(pos as int).subrange(4 + ulen, 36 + ulen));
                assert(gif_obs_eq(e, gif));
                assert(suffix.drop_first() =~= s.gif_list@.skip(k + 1));
                assert(bs.skip(url_end + 32) =~= bs.skip(pos as int).skip(36 + ulen));
                assert(forall|j: int|
                    0 <= j < pre.len() ==> gif_obs_eq(#[trigger] s.gif_list@[j], pre[j]));
                assert(forall|j: int|
                    0 <= j < pre.push(gif).len() ==> gif_obs_eq(
                        #[trigger] s.gif_list@[j],
                        pre.push(gif)[j],
                    ));
            }
        }
        gifs.push(gif);
        pos = url_end + 32;
        k = k + 1;
    }
    if pos != len {
        proof {
            assert forall|s: BaseAccount| encodes(s, bs, capacity) implies false by {
                assert(s.gif_list@.skip(n as int) =~= Seq::<Gif>::empty());
                assert(bs.skip(pos as int).len() == 0);
            }
        }
        return None;
    }
    let result = BaseAccount { total_gifs: total, gif_list: gifs, capacity };
    proof {
        lemma_auto_spec_u64_to_from_le_bytes();
        lemma_auto_spec_u32_to_from_le_bytes();
        lemma_encode_entries_len(gifs@);
        assert(bs.subrange(12, len as int) =~= bs.skip(12));
        assert(spec_encode_store(result) =~= bs);
        assert(well_formed(result));
        assert forall|s: BaseAccount| encodes(s, bs, capacity) implies store_obs_eq(
            result,
            s,
        ) by {
            assert(forall|j: int|
                0 <= j < n as int ==> gif_obs_eq(#[trigger] s.gif_list@[j], gifs@[j]));
        }
    }
    Some(result)
}

} // verus!
