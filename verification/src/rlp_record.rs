//! Reading the items of an encoded record: a list whose first `n` items
//! stand under the list header, possibly followed by further items.

use vstd::prelude::*;
use vstd::utf8::{decode_utf8, valid_utf8};
use rlp::{DecoderError, Rlp};
use crate::rlp_io::{
    rlp_bytes, rlp_cursor, rlp_error_kind, rlp_string_at, rlp_u64_at, rlp_val_at_string,
    rlp_val_at_u64, RlpError,
};
use crate::rlp_spec::{
    be_min, concat_items, item_offset, lemma_concat_split, lemma_list_header_starts_list,
    lemma_record_layout, lemma_rlp_string_len, opens_list, rlp_list, rlp_list_header, rlp_string,
    rlp_u64, stands_at, starts_list,
};

verus! {

/// The RLP encodings of the byte strings `ps`, one item each.
pub open spec fn encoded_items(ps: Seq<Seq<u8>>) -> Seq<Seq<u8>> {
    ps.map_values(|p: Seq<u8>| rlp_string(p))
}

/// The minimal big-endian bytes of a `u64`.
pub open spec fn u64_bytes(v: u64) -> Seq<u8> {
    be_min(v as nat)
}

/// Whether `bytes` holds the byte strings `ps` as a record: a list header
/// for the first `n` of them, then all of them encoded one after the other,
/// each shorter than 2^32 bytes, the list payload too.
pub closed spec fn lays_out(bytes: Seq<u8>, ps: Seq<Seq<u8>>, n: nat) -> bool {
    &&& 1 <= n <= ps.len()
    &&& forall|k: int| 0 <= k < ps.len() ==> (#[trigger] ps[k]).len() < 4294967296
    &&& item_offset(encoded_items(ps), n as int) < 4294967296
    &&& bytes == rlp_list_header(item_offset(encoded_items(ps), n as int)) + concat_items(
        encoded_items(ps),
    )
}

/// The position an `Rlp` keeps after reading item `i` of such a record.
pub closed spec fn item_kept(ps: Seq<Seq<u8>>, n: nat, i: nat) -> Option<(nat, nat)> {
    Some(
        (
            i,
            rlp_list_header(item_offset(encoded_items(ps), n as int)).len() + item_offset(
                encoded_items(ps),
                i as int,
            ),
        ),
    )
}

/// The position an `Rlp` keeps before item `i` of such a record is read in
/// order: none before the first, else that of the item before.
pub open spec fn kept_before_item(ps: Seq<Seq<u8>>, n: nat, i: nat) -> Option<(nat, nat)> {
    if i == 0 {
        None
    } else {
        item_kept(ps, n, (i - 1) as nat)
    }
}

/// A record is laid out as its parts say.
pub proof fn lemma_lays_out(bytes: Seq<u8>, ps: Seq<Seq<u8>>, n: nat)
    requires
        1 <= n <= ps.len(),
        forall|k: int| 0 <= k < ps.len() ==> (#[trigger] ps[k]).len() < 4294967296,
        item_offset(encoded_items(ps), n as int) < 4294967296,
        bytes == rlp_list_header(item_offset(encoded_items(ps), n as int)) + concat_items(
            encoded_items(ps),
        ),
    ensures
        lays_out(bytes, ps, n),
{
}

/// Bytes made of a list of the encodings of the first `n` byte strings of
/// `ps`, followed by the encodings of the rest, lay out `ps` as a record,
/// where the list payload and each string after it are shorter than 2^32
/// bytes.
pub proof fn lemma_record_lays_out(bytes: Seq<u8>, ps: Seq<Seq<u8>>, n: nat)
    requires
        1 <= n <= ps.len(),
        concat_items(encoded_items(ps).take(n as int)).len() < 4294967296,
        forall|k: int| n <= k < ps.len() ==> (#[trigger] ps[k]).len() < 4294967296,
        bytes == rlp_list(concat_items(encoded_items(ps).take(n as int))) + concat_items(
            encoded_items(ps).skip(n as int),
        ),
    ensures
        lays_out(bytes, ps, n),
{
    let its = encoded_items(ps);
    lemma_concat_split(its, n as int);
    assert(bytes =~= rlp_list_header(item_offset(its, n as int)) + concat_items(its));
    assert forall|k: int| 0 <= k < ps.len() implies (#[trigger] ps[k]).len() < 4294967296 by {
        if k < n {
            lemma_rlp_string_len(ps[k]);
            assert(its[k] == rlp_string(ps[k]));
            lemma_record_layout(bytes, its, n as int, k);
        }
    }
    lemma_lays_out(bytes, ps, n);
}

/// Where item `i` of a record stands, and where the one after it.
proof fn lemma_item_stands(bytes: Seq<u8>, ps: Seq<Seq<u8>>, n: nat, i: nat)
    requires
        lays_out(bytes, ps, n),
        i < ps.len(),
    ensures
        ({
            let its = encoded_items(ps);
            let len = item_offset(its, n as int);
            let hl = rlp_list_header(len).len();
            &&& its[i as int] == rlp_string(ps[i as int])
            &&& opens_list(bytes, len)
            &&& starts_list(bytes)
            &&& rlp_string(ps[0]).len() <= len
            &&& stands_at(bytes, hl, rlp_string(ps[0]))
            &&& item_offset(its, i + 1int) == item_offset(its, i as int) + rlp_string(ps[i as int]).len()
            &&& i + 1 < ps.len() ==> stands_at(
                bytes,
                hl + item_offset(its, i as int),
                rlp_string(ps[i as int]) + rlp_string(ps[i + 1int]),
            )
        }),
{
    let its = encoded_items(ps);
    lemma_record_layout(bytes, its, n as int, i as int);
    let len = item_offset(its, n as int);
    lemma_list_header_starts_list(len);
    assert(bytes[0] == rlp_list_header(len)[0]);
    assert(its[0] == rlp_string(ps[0]));
    if i + 1 < ps.len() {
        assert(its[i + 1int] == rlp_string(ps[i + 1int]));
    }
}

/// Reads the string item at `index` of the list that `rlp` reads. Read in
/// order from the start of a record laid out as `ps`, it gives item `index`
/// as UTF-8 and keeps its position.
pub fn read_string_item(rlp: &mut Rlp, index: usize) -> (res: Result<String, RlpError>)
    ensures
        rlp_bytes(*final(rlp)) == rlp_bytes(*old(rlp)),
        rlp_cursor(*final(rlp)) == rlp_string_at(rlp_bytes(*old(rlp)), rlp_cursor(*old(rlp)), index as nat).1,
        match res {
            Ok(s) => rlp_string_at(rlp_bytes(*old(rlp)), rlp_cursor(*old(rlp)), index as nat).0 == Ok::<
                Seq<char>,
                RlpError,
            >(s@),
            Err(k) => rlp_string_at(rlp_bytes(*old(rlp)), rlp_cursor(*old(rlp)), index as nat).0 == Err::<
                Seq<char>,
                RlpError,
            >(k),
        },
        forall|ps: Seq<Seq<u8>>, n: nat|
            #![trigger lays_out(rlp_bytes(*old(rlp)), ps, n)]
            lays_out(rlp_bytes(*old(rlp)), ps, n) && index < ps.len() && rlp_cursor(*old(rlp))
                == kept_before_item(ps, n, index as nat) ==> rlp_cursor(*final(rlp)) == item_kept(
                ps,
                n,
                index as nat,
            ) && match res {
                Ok(s) => valid_utf8(ps[index as int]) && s@ == decode_utf8(ps[index as int]),
                Err(_) => !valid_utf8(ps[index as int]),
            },
{
    let ghost bytes = rlp_bytes(*rlp);
    let ghost c0 = rlp_cursor(*rlp);
    let read = rlp_val_at_string(rlp, index);
    proof {
        assert forall|ps: Seq<Seq<u8>>, n: nat|
            #![trigger lays_out(bytes, ps, n)]
            lays_out(bytes, ps, n) && index < ps.len() && c0 == kept_before_item(ps, n, index as nat)
            implies rlp_cursor(*rlp) == item_kept(ps, n, index as nat) && match read {
                Ok(s) => valid_utf8(ps[index as int]) && s@ == decode_utf8(ps[index as int]),
                Err(_) => !valid_utf8(ps[index as int]),
            } by {
            let its = encoded_items(ps);
            let len = item_offset(its, n as int);
            let hl = rlp_list_header(len).len();
            lemma_item_stands(bytes, ps, n, index as nat);
            if index == 0 {
                assert(its.take(0) =~= Seq::<Seq<u8>>::empty());
                assert(ps[0].len() < 4294967296);
                assert(opens_list(bytes, len) && stands_at(bytes, hl, rlp_string(ps[0])));
            } else {
                let j = (index - 1) as nat;
                lemma_item_stands(bytes, ps, n, j);
                assert(ps[j as int].len() < 4294967296);
                assert(ps[index as int].len() < 4294967296);
                assert(stands_at(
                    bytes,
                    hl + item_offset(its, j as int),
                    rlp_string(ps[j as int]) + rlp_string(ps[index as int]),
                ));
            }
        }
    }
    match read {
        Ok(v) => Ok(v),
        Err(e) => Err(rlp_error_kind(e)),
    }
}

/// Reads the integer item at `index` of the list that `rlp` reads. Read in
/// order from the start of a record laid out as `ps`, where item `index` is
/// the minimal big-endian bytes of `v`, it gives `v` and keeps its position.
pub fn read_u64_item(rlp: &mut Rlp, index: usize) -> (res: Result<u64, RlpError>)
    ensures
        rlp_bytes(*final(rlp)) == rlp_bytes(*old(rlp)),
        rlp_cursor(*final(rlp)) == rlp_u64_at(rlp_bytes(*old(rlp)), rlp_cursor(*old(rlp)), index as nat).1,
        match res {
            Ok(v) => rlp_u64_at(rlp_bytes(*old(rlp)), rlp_cursor(*old(rlp)), index as nat).0 == Ok::<
                u64,
                RlpError,
            >(v),
            Err(k) => rlp_u64_at(rlp_bytes(*old(rlp)), rlp_cursor(*old(rlp)), index as nat).0 == Err::<
                u64,
                RlpError,
            >(k),
        },
        forall|ps: Seq<Seq<u8>>, n: nat, v: u64|
            #![trigger lays_out(rlp_bytes(*old(rlp)), ps, n), u64_bytes(v)]
            lays_out(rlp_bytes(*old(rlp)), ps, n) && index < ps.len() && ps[index as int] == u64_bytes(v)
                && rlp_cursor(*old(rlp)) == kept_before_item(ps, n, index as nat) ==> rlp_cursor(
                *final(rlp),
            ) == item_kept(ps, n, index as nat) && res == Ok::<u64, RlpError>(v),
{
    let ghost bytes = rlp_bytes(*rlp);
    let ghost c0 = rlp_cursor(*rlp);
    let read = rlp_val_at_u64(rlp, index);
    proof {
        assert forall|ps: Seq<Seq<u8>>, n: nat, v: u64|
            #![trigger lays_out(bytes, ps, n), u64_bytes(v)]
            lays_out(bytes, ps, n) && index < ps.len() && ps[index as int] == u64_bytes(v) && c0
                == kept_before_item(ps, n, index as nat) implies rlp_cursor(*rlp) == item_kept(
                ps,
                n,
                index as nat,
            ) && read == Ok::<u64, DecoderError>(v) by {
            let its = encoded_items(ps);
            let len = item_offset(its, n as int);
            let hl = rlp_list_header(len).len();
            lemma_item_stands(bytes, ps, n, index as nat);
            assert(rlp_string(ps[index as int]) == rlp_u64(v));
            if index == 0 {
                assert(its.take(0) =~= Seq::<Seq<u8>>::empty());
                assert(opens_list(bytes, len) && stands_at(bytes, hl, rlp_u64(v)));
            } else {
                let j = (index - 1) as nat;
                lemma_item_stands(bytes, ps, n, j);
                assert(ps[j as int].len() < 4294967296);
                assert(stands_at(
                    bytes,
                    hl + item_offset(its, j as int),
                    rlp_string(ps[j as int]) + rlp_u64(v),
                ));
            }
        }
    }
    match read {
        Ok(v) => Ok(v),
        Err(e) => Err(rlp_error_kind(e)),
    }
}

} // verus!
