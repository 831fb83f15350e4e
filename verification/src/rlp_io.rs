//! The calls into the `rlp` crate: an `RlpStream` that builds an encoding,
//! an `Rlp` view that reads one, and its errors.

use vstd::prelude::*;
use vstd::utf8::{decode_utf8, valid_utf8};
use rlp::{DecoderError, Rlp, RlpStream};
use crate::rlp_spec::{
    opens_list, rlp_list, rlp_list_header, rlp_string, rlp_str, rlp_u64, stands_at, starts_list,
};

verus! {

#[verifier::external_type_specification]
#[verifier::external_body]
pub struct ExRlpStream(RlpStream);

#[verifier::external_type_specification]
#[verifier::external_body]
pub struct ExRlp<'a>(Rlp<'a>);

#[verifier::external_type_specification]
#[verifier::external_body]
pub struct ExDecoderError(DecoderError);

/// The bytes that an `RlpStream` holds complete: everything appended
/// outside the unfinished lists, with each finished list in encoded form.
pub uninterp spec fn rlp_stream_output(s: RlpStream) -> Seq<u8>;

/// The unfinished lists of an `RlpStream`, innermost last: for each, how
/// many items it still expects and the encoded items appended to it so far.
pub uninterp spec fn rlp_stream_lists(s: RlpStream) -> Seq<(nat, Seq<u8>)>;

/// Where the encoded item `e` goes in a stream with output `out` and
/// unfinished lists `lists`: to the innermost list, which, with all its
/// items, is finished and goes on as one item to the list around it; with
/// no list open, to the output.
pub open spec fn rlp_appended(out: Seq<u8>, lists: Seq<(nat, Seq<u8>)>, e: Seq<u8>) -> (
    Seq<u8>,
    Seq<(nat, Seq<u8>)>,
)
    decreases lists.len(),
{
    if lists.len() == 0 {
        (out + e, lists)
    } else {
        let (rem, pay) = lists.last();
        if rem > 1 {
            (out, lists.drop_last().push(((rem - 1) as nat, pay + e)))
        } else {
            rlp_appended(out, lists.drop_last(), rlp_list(pay + e))
        }
    }
}

/// Appending an item to a stream whose innermost list still expects `rem`
/// items: it joins that list, which is finished with its last item.
pub proof fn lemma_appended_push(
    out: Seq<u8>,
    lists: Seq<(nat, Seq<u8>)>,
    rem: nat,
    pay: Seq<u8>,
    e: Seq<u8>,
)
    requires
        rem >= 1,
    ensures
        rlp_appended(out, lists.push((rem, pay)), e) == if rem > 1 {
            (out, lists.push(((rem - 1) as nat, pay + e)))
        } else {
            rlp_appended(out, lists, rlp_list(pay + e))
        },
{
    assert(lists.push((rem, pay)).drop_last() =~= lists);
}

/// `RlpStream::new` of `rlp`: an empty stream, with no list open.
#[verifier::external_body]
pub(crate) fn rlp_stream_new() -> (s: RlpStream)
    ensures
        rlp_stream_output(s) == Seq::<u8>::empty(),
        rlp_stream_lists(s) == Seq::<(nat, Seq<u8>)>::empty(),
{
    RlpStream::new()
}

/// `RlpStream::begin_list` of `rlp`: a list of no item is appended at once
/// as the item `0xc0`; any other is opened, empty, inside the lists open.
#[verifier::external_body]
pub(crate) fn rlp_stream_begin_list(s: &mut RlpStream, len: usize)
    ensures
        len == 0 ==> (rlp_stream_output(*final(s)), rlp_stream_lists(*final(s))) == rlp_appended(
            rlp_stream_output(*old(s)),
            rlp_stream_lists(*old(s)),
            seq![0xc0u8],
        ),
        len > 0 ==> rlp_stream_output(*final(s)) == rlp_stream_output(*old(s))
            && rlp_stream_lists(*final(s)) == rlp_stream_lists(*old(s)).push(
            (len as nat, Seq::<u8>::empty()),
        ),
{
    s.begin_list(len);
}

/// `RlpStream::append` of `rlp` for a `String`: its UTF-8 bytes, encoded as
/// a byte string, are appended as one item.
#[verifier::external_body]
pub(crate) fn rlp_stream_append_string(s: &mut RlpStream, v: &String)
    ensures
        (rlp_stream_output(*final(s)), rlp_stream_lists(*final(s))) == rlp_appended(
            rlp_stream_output(*old(s)),
            rlp_stream_lists(*old(s)),
            rlp_str(v@),
        ),
{
    s.append(v);
}

/// `RlpStream::append` of `rlp` for a `u64`: its minimal big-endian bytes,
/// encoded as a byte string, are appended as one item.
#[verifier::external_body]
pub(crate) fn rlp_stream_append_u64(s: &mut RlpStream, v: &u64)
    ensures
        (rlp_stream_output(*final(s)), rlp_stream_lists(*final(s))) == rlp_appended(
            rlp_stream_output(*old(s)),
            rlp_stream_lists(*old(s)),
            rlp_u64(*v),
        ),
{
    s.append(v);
}

/// `RlpStream::out` of `rlp`, on a stream with no list open (it panics
/// otherwise): the bytes written out.
#[verifier::external_body]
pub(crate) fn rlp_stream_out(s: RlpStream) -> (out: Vec<u8>)
    requires
        rlp_stream_lists(s).len() == 0,
    ensures
        out@ == rlp_stream_output(s),
{
    s.out().to_vec()
}

/// The bytes that an `Rlp` reads.
pub uninterp spec fn rlp_bytes(r: Rlp) -> Seq<u8>;

/// The position that an `Rlp` keeps of the item of a list it found last:
/// the item's index and its offset in the bytes.
pub uninterp spec fn rlp_cursor(r: Rlp) -> Option<(nat, nat)>;

/// What `Rlp::val_at::<String>` of `rlp` gives, on the bytes and the kept
/// position of an `Rlp`, for an index: the characters, or the variant of
/// the `DecoderError` it fails with, and the position it keeps afterwards.
pub uninterp spec fn rlp_string_at(bytes: Seq<u8>, cursor: Option<(nat, nat)>, index: nat) -> (
    Result<Seq<char>, RlpError>,
    Option<(nat, nat)>,
);

/// What `Rlp::val_at::<u64>` of `rlp` gives, on the bytes and the kept
/// position of an `Rlp`, for an index: the integer, or the variant of the
/// `DecoderError` it fails with, and the position it keeps afterwards.
pub uninterp spec fn rlp_u64_at(bytes: Seq<u8>, cursor: Option<(nat, nat)>, index: nat) -> (
    Result<u64, RlpError>,
    Option<(nat, nat)>,
);

/// The `RlpError` that has the variant (and message) of the `rlp` error `e`.
pub uninterp spec fn rlp_error_of(e: DecoderError) -> RlpError;

/// Whether a kept position is that of the item just before `index`.
pub open spec fn kept_before(cursor: Option<(nat, nat)>, index: nat) -> bool {
    cursor matches Some((j, _)) && j + 1 == index
}

/// The offset of a kept position.
pub open spec fn kept_offset(cursor: Option<(nat, nat)>) -> nat {
    match cursor {
        Some((_, o)) => o,
        None => 0,
    }
}

/// `Rlp::new` of `rlp`: a view onto `bytes`, with no position kept.
#[verifier::external_body]
pub(crate) fn rlp_new<'a>(bytes: &'a [u8]) -> (r: Rlp<'a>)
    ensures
        rlp_bytes(r) == bytes@,
        rlp_cursor(r) is None,
{
    Rlp::new(bytes)
}

/// `Rlp::val_at::<String>` of `rlp`: the string item at `index` of the list
/// that `r` reads. Its result is named by `rlp_string_at`; it goes through
/// `&mut` because the call updates the position that `r` keeps in a `Cell`.
/// Beside the name stand the two facts that the source shows of canonical
/// encodings: with no position kept, item 0 is read from the list's
/// payload; with item `index - 1` kept, and the bytes starting a list, the
/// item that follows it in the bytes is read. The characters are those of the item's bytes read as
/// UTF-8, which fails where they are no UTF-8. What it gives on any other
/// bytes is left to the name.
#[verifier::external_body]
pub(crate) fn rlp_val_at_string(r: &mut Rlp, index: usize) -> (res: Result<String, DecoderError>)
    ensures
        rlp_bytes(*final(r)) == rlp_bytes(*old(r)),
        rlp_cursor(*final(r)) == rlp_string_at(rlp_bytes(*old(r)), rlp_cursor(*old(r)), index as nat).1,
        match res {
            Ok(s) => rlp_string_at(rlp_bytes(*old(r)), rlp_cursor(*old(r)), index as nat).0 matches Ok(t)
                && t == s@,
            Err(e) => rlp_string_at(rlp_bytes(*old(r)), rlp_cursor(*old(r)), index as nat).0 matches Err(
                k,
            ) && k == rlp_error_of(e),
        },
        forall|len: nat, p: Seq<u8>|
            #![trigger rlp_list_header(len), rlp_string(p)]
            index == 0 && rlp_cursor(*old(r)) is None && opens_list(rlp_bytes(*old(r)), len)
                && p.len() < 4294967296 && rlp_string(p).len() <= len && stands_at(
                rlp_bytes(*old(r)),
                rlp_list_header(len).len(),
                rlp_string(p),
            ) ==> match res {
                Ok(s) => valid_utf8(p) && s@ == decode_utf8(p) && rlp_cursor(*final(r)) == Some(
                    (0nat, rlp_list_header(len).len()),
                ),
                Err(_) => !valid_utf8(p) && rlp_cursor(*final(r)) == Some(
                    (0nat, rlp_list_header(len).len()),
                ),
            },
        forall|p1: Seq<u8>, p: Seq<u8>|
            #![trigger rlp_string(p1), rlp_string(p)]
            (kept_before(rlp_cursor(*old(r)), index as nat) && starts_list(rlp_bytes(*old(r)))
                && p1.len() < 4294967296 && p.len() < 4294967296 && stands_at(
                rlp_bytes(*old(r)),
                kept_offset(rlp_cursor(*old(r))),
                rlp_string(p1) + rlp_string(p),
            )) ==> match res {
                Ok(s) => valid_utf8(p) && s@ == decode_utf8(p) && rlp_cursor(*final(r)) == Some(
                    (index as nat, kept_offset(rlp_cursor(*old(r))) + rlp_string(p1).len()),
                ),
                Err(_) => !valid_utf8(p) && rlp_cursor(*final(r)) == Some(
                    (index as nat, kept_offset(rlp_cursor(*old(r))) + rlp_string(p1).len()),
                ),
            },
{
    r.val_at::<String>(index)
}

/// `Rlp::val_at::<u64>` of `rlp`: the integer item at `index` of the list
/// that `r` reads. Its result is named by `rlp_u64_at`; it goes through
/// `&mut` because the call updates the position that `r` keeps in a `Cell`.
/// Beside the name stand the two facts that the source shows of canonical
/// encodings: with no position kept, item 0 is read from the list's
/// payload; with item `index - 1` kept, and the bytes starting a list, the
/// item that follows it in the bytes is read. What it gives on any other bytes is left to the name.
#[verifier::external_body]
pub(crate) fn rlp_val_at_u64(r: &mut Rlp, index: usize) -> (res: Result<u64, DecoderError>)
    ensures
        rlp_bytes(*final(r)) == rlp_bytes(*old(r)),
        rlp_cursor(*final(r)) == rlp_u64_at(rlp_bytes(*old(r)), rlp_cursor(*old(r)), index as nat).1,
        match res {
            Ok(v) => rlp_u64_at(rlp_bytes(*old(r)), rlp_cursor(*old(r)), index as nat).0 matches Ok(t)
                && t == v,
            Err(e) => rlp_u64_at(rlp_bytes(*old(r)), rlp_cursor(*old(r)), index as nat).0 matches Err(
                k,
            ) && k == rlp_error_of(e),
        },
        forall|len: nat, v: u64|
            #![trigger rlp_list_header(len), rlp_u64(v)]
            index == 0 && rlp_cursor(*old(r)) is None && opens_list(rlp_bytes(*old(r)), len)
                && rlp_u64(v).len() <= len && stands_at(
                rlp_bytes(*old(r)),
                rlp_list_header(len).len(),
                rlp_u64(v),
            ) ==> match res {
                Ok(x) => x == v && rlp_cursor(*final(r)) == Some((0nat, rlp_list_header(len).len())),
                Err(_) => false,
            },
        forall|p1: Seq<u8>, v: u64|
            #![trigger rlp_string(p1), rlp_u64(v)]
            (kept_before(rlp_cursor(*old(r)), index as nat) && starts_list(rlp_bytes(*old(r)))
                && p1.len() < 4294967296 && stands_at(
                rlp_bytes(*old(r)),
                kept_offset(rlp_cursor(*old(r))),
                rlp_string(p1) + rlp_u64(v),
            )) ==> match res {
                Ok(x) => x == v && rlp_cursor(*final(r)) == Some(
                    (index as nat, kept_offset(rlp_cursor(*old(r))) + rlp_string(p1).len()),
                ),
                Err(_) => false,
            },
{
    r.val_at::<u64>(index)
}

/// The errors of RLP decoding.
#[derive(Debug, Clone, PartialEq, Eq)]
pub enum RlpError {
    RlpIsTooBig,
    RlpIsTooShort,
    RlpExpectedToBeList,
    RlpExpectedToBeData,
    RlpIncorrectListLen,
    RlpDataLenWithZeroPrefix,
    RlpListLenWithZeroPrefix,
    RlpInvalidIndirection,
    RlpInconsistentLengthAndData,
    RlpInvalidLength,
    Custom(&'static str),
}

/// The variant of `rlp::DecoderError` that `e` is, as an `RlpError`.
#[verifier::external_body]
pub(crate) fn rlp_error_kind(e: DecoderError) -> (k: RlpError)
    ensures
        k == rlp_error_of(e),
{
    match e {
        DecoderError::RlpIsTooBig => RlpError::RlpIsTooBig,
        DecoderError::RlpIsTooShort => RlpError::RlpIsTooShort,
        DecoderError::RlpExpectedToBeList => RlpError::RlpExpectedToBeList,
        DecoderError::RlpExpectedToBeData => RlpError::RlpExpectedToBeData,
        DecoderError::RlpIncorrectListLen => RlpError::RlpIncorrectListLen,
        DecoderError::RlpDataLenWithZeroPrefix => RlpError::RlpDataLenWithZeroPrefix,
        DecoderError::RlpListLenWithZeroPrefix => RlpError::RlpListLenWithZeroPrefix,
        DecoderError::RlpInvalidIndirection => RlpError::RlpInvalidIndirection,
        DecoderError::RlpInconsistentLengthAndData => RlpError::RlpInconsistentLengthAndData,
        DecoderError::RlpInvalidLength => RlpError::RlpInvalidLength,
        DecoderError::Custom(s) => RlpError::Custom(s),
    }
}

} // verus!
