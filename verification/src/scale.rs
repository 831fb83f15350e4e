//! SCALE encodings that the node codec relies on: the compact encoding of a
//! `u32`, length-prefixed byte slices, and little-endian `u16`.
//! The encoding and decoding themselves are done by `parity_scale_codec`.

use vstd::prelude::*;
use parity_scale_codec::{Compact, Decode, Encode};

verus! {

/// The four little-endian bytes of `x` (taken modulo 2^32).
pub open spec fn le_bytes_u32(x: nat) -> Seq<u8> {
    seq![
        (x % 256) as u8,
        ((x / 256) % 256) as u8,
        ((x / 65536) % 256) as u8,
        ((x / 16777216) % 256) as u8,
    ]
}

/// The value of the first four bytes of `s`, read little-endian.
pub open spec fn le_u32_value(s: Seq<u8>) -> nat
    recommends
        s.len() >= 4,
{
    (s[0] + 256 * s[1] + 65536 * s[2] + 16777216 * s[3]) as nat
}

/// The SCALE compact encoding of a `u32`.
pub open spec fn compact_u32(v: u32) -> Seq<u8> {
    if v < 64 {
        seq![(4 * v) as u8]
    } else if v < 16384 {
        let x = 4 * v + 1;
        seq![(x % 256) as u8, (x / 256) as u8]
    } else if v < 1073741824 {
        le_bytes_u32((4 * v + 2) as nat)
    } else {
        seq![3u8] + le_bytes_u32(v as nat)
    }
}

/// What decoding a compact `u32` from the front of `s` gives: the value and
/// the number of bytes it took, or `None` where `s` holds no canonical one.
pub open spec fn compact_u32_decode(s: Seq<u8>) -> Option<(u32, nat)> {
    if s.len() == 0 {
        None
    } else {
        let p = s[0];
        if p % 4 == 0 {
            Some(((p / 4) as u32, 1nat))
        } else if p % 4 == 1 {
            if s.len() < 2 {
                None
            } else {
                let x = (p + 256 * s[1]) / 4;
                if 64 <= x {
                    Some((x as u32, 2nat))
                } else {
                    None
                }
            }
        } else if p % 4 == 2 {
            if s.len() < 4 {
                None
            } else {
                let x = le_u32_value(s) / 4;
                if 16384 <= x {
                    Some((x as u32, 4nat))
                } else {
                    None
                }
            }
        } else if p == 3 && s.len() >= 5 {
            let x = le_u32_value(s.subrange(1, 5));
            if x >= 1073741824 {
                Some((x as u32, 5nat))
            } else {
                None
            }
        } else {
            None
        }
    }
}

/// How many bytes a compact `u32` takes that starts with the byte `p`, or
/// `None` where no compact `u32` starts with `p`.
pub open spec fn compact_u32_width(p: u8) -> Option<nat> {
    if p % 4 == 0 {
        Some(1)
    } else if p % 4 == 1 {
        Some(2)
    } else if p % 4 == 2 {
        Some(4)
    } else if p == 3 {
        Some(5)
    } else {
        None
    }
}

/// The SCALE encoding of a byte slice: its length as a compact `u32`, then the bytes.
pub open spec fn scale_bytes(b: Seq<u8>) -> Seq<u8> {
    compact_u32(b.len() as u32) + b
}

proof fn lemma_le_bytes_u32_value(x: nat, rest: Seq<u8>)
    requires
        x < 4294967296,
    ensures
        le_u32_value(le_bytes_u32(x) + rest) == x,
        (le_bytes_u32(x) + rest).subrange(0, 4) == le_bytes_u32(x),
{
    let s = le_bytes_u32(x) + rest;
    assert(s[0] == (x % 256) as u8);
    assert(s[1] == ((x / 256) % 256) as u8);
    assert(s[2] == ((x / 65536) % 256) as u8);
    assert(s[3] == ((x / 16777216) % 256) as u8);
    assert(x == x % 256 + 256 * ((x / 256) % 256) + 65536 * ((x / 65536) % 256) + 16777216 * ((x
        / 16777216) % 256)) by (nonlinear_arith)
        requires
            x < 4294967296,
    ;
    assert(s.subrange(0, 4) =~= le_bytes_u32(x));
}

/// Decoding the compact encoding of `v`, whatever follows it, gives back `v`
/// and the length of the encoding.
pub proof fn lemma_compact_u32_roundtrip(v: u32, rest: Seq<u8>)
    ensures
        compact_u32_decode(compact_u32(v) + rest) == Some((v, compact_u32(v).len())),
        1 <= compact_u32(v).len() <= 5,
        compact_u32_width((compact_u32(v) + rest)[0]) == Some(compact_u32(v).len()),
{
    let s = compact_u32(v) + rest;
    if v < 64 {
        assert(s[0] == (4 * v) as u8);
    } else if v < 16384 {
        let x = 4 * v + 1;
        assert(s[0] == (x % 256) as u8);
        assert(s[1] == (x / 256) as u8);
        assert((x % 256) % 4 == 1);
        assert(((x % 256) + 256 * (x / 256)) / 4 == v);
    } else if v < 1073741824 {
        let x = (4 * v + 2) as nat;
        lemma_le_bytes_u32_value(x, rest);
        assert(s[0] == (x % 256) as u8);
        assert((x % 256) % 4 == 2);
    } else {
        lemma_le_bytes_u32_value(v as nat, rest);
        assert(s.subrange(1, 5) =~= le_bytes_u32(v as nat) + rest.subrange(0, 0));
        assert(le_bytes_u32(v as nat) + rest.subrange(0, 0) =~= le_bytes_u32(v as nat));
        lemma_le_bytes_u32_value(v as nat, Seq::empty());
        assert(le_bytes_u32(v as nat) + Seq::<u8>::empty() =~= le_bytes_u32(v as nat));
        assert(s[0] == 3u8);
    }
}

/// `Compact(v).encode_to(out)` of `parity_scale_codec`: appends the compact
/// encoding of `v` to `out`.
#[verifier::external_body]
pub(crate) fn compact_u32_encode_to(v: u32, out: &mut Vec<u8>)
    ensures
        final(out)@ == old(out)@ + compact_u32(v),
{
    Compact(v).encode_to(out)
}

/// `<[u8] as Encode>::encode_to` of `parity_scale_codec`: appends the length
/// of `b` as a compact `u32`, then the bytes of `b`. It panics on slices
/// longer than `u32::MAX`, which `requires` leaves out.
#[verifier::external_body]
pub(crate) fn bytes_encode_to(b: &[u8], out: &mut Vec<u8>)
    requires
        b.len() <= u32::MAX,
    ensures
        final(out)@ == old(out)@ + scale_bytes(b@),
{
    b.encode_to(out)
}

/// `<Compact<u32> as Decode>::decode` of `parity_scale_codec`, on a byte
/// slice as its input: decodes a compact `u32` from the front of `data` and
/// returns it with the bytes that follow it. It fails exactly where the
/// front of `data` is no canonical compact `u32`; the error's message is
/// left unsaid.
#[verifier::external_body]
pub(crate) fn compact_u32_decode_from(data: &[u8]) -> (res: Result<
    (u32, &[u8]),
    parity_scale_codec::Error,
>)
    ensures
        match compact_u32_decode(data@) {
            Some((v, n)) => res matches Ok((x, rest)) && x == v && rest@ == data@.skip(n as int),
            None => res is Err,
        },
{
    let mut rest = data;
    match Compact::<u32>::decode(&mut rest) {
        Ok(c) => Ok((c.0, rest)),
        Err(e) => Err(e),
    }
}

/// `<u16 as Decode>::decode` of `parity_scale_codec`, on a byte slice as its
/// input: the first two bytes of `data`, read little-endian; it fails where
/// `data` has fewer than two bytes. The error's message is left unsaid.
#[verifier::external_body]
pub(crate) fn u16_decode_from(data: &[u8]) -> (res: Result<
    u16,
    parity_scale_codec::Error,
>)
    ensures
        res matches Ok(x) ==> data.len() >= 2 && x == data[0] + 256 * data[1],
        res is Err <== data.len() < 2,
        data.len() >= 2 ==> res is Ok,
{
    u16::decode(&mut &data[..])
}

#[verifier::external_type_specification]
#[verifier::external_body]
pub struct ExScaleError(parity_scale_codec::Error);

} // verus!
