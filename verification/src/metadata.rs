//! The RLP encoding of metadata: a list of its seven fields in order.

use vstd::prelude::*;
use vstd::utf8::{encode_utf8, encode_utf8_decode_utf8, encode_utf8_valid_utf8, valid_utf8};
use rlp::{Rlp, RlpStream};
use crate::rlp_io::{
    lemma_appended_push, rlp_appended, rlp_bytes, rlp_cursor,
    rlp_stream_append_string, rlp_stream_append_u64, rlp_stream_begin_list, rlp_stream_lists,
    rlp_stream_output, rlp_string_at, rlp_u64_at, RlpError,
};
use crate::rlp_record::{
    encoded_items, lays_out, lemma_record_lays_out, read_string_item, read_u64_item, u64_bytes,
};
use crate::rlp_spec::{
    concat_items, lemma_concat_push, rlp_list, rlp_str, rlp_u64,
};
use crate::state::{Metadata, MetadataView};

verus! {

/// The encoded fields of metadata that its list holds, in order.
pub open spec fn metadata_payload(m: MetadataView) -> Seq<u8> {
    rlp_str(m.data_key)
        + rlp_str(m.program_id)
        + rlp_str(m.alias)
        + rlp_str(m.version)
        + rlp_str(m.cid)
        + rlp_str(m.public_key)
        + rlp_u64(m.loose)
}

/// The RLP encoding of metadata.
#[verifier::opaque]
pub open spec fn metadata_rlp(m: MetadataView) -> Seq<u8> {
    rlp_list(metadata_payload(m))
}

/// Whether the encoding of metadata stays within the lengths that an RLP
/// header of four length bytes can give: the list payload, and each field
/// behind the list, shorter than 2^32 bytes.
#[verifier::opaque]
pub open spec fn metadata_fits(m: MetadataView) -> bool {
    metadata_payload(m).len() < 4294967296
}

/// The fields of metadata as the byte strings that its encoding holds.
pub open spec fn metadata_payloads(m: MetadataView) -> Seq<Seq<u8>> {
    seq![
        encode_utf8(m.data_key),
        encode_utf8(m.program_id),
        encode_utf8(m.alias),
        encode_utf8(m.version),
        encode_utf8(m.cid),
        encode_utf8(m.public_key),
        u64_bytes(m.loose),
    ]
}

/// What decoding metadata from the list that `bytes` holds gives, reading
/// its items in order from the kept position `c0`: the record, or the
/// error of the first item that fails.
pub open spec fn metadata_decoded(
    bytes: Seq<u8>,
    c0: Option<(nat, nat)>,
) -> Result<MetadataView, RlpError> {
    let (data_key, c1) = rlp_string_at(bytes, c0, 0);
    let (program_id, c2) = rlp_string_at(bytes, c1, 1);
    let (alias, c3) = rlp_string_at(bytes, c2, 2);
    let (version, c4) = rlp_string_at(bytes, c3, 3);
    let (cid, c5) = rlp_string_at(bytes, c4, 4);
    let (public_key, c6) = rlp_string_at(bytes, c5, 5);
    let (loose, c7) = rlp_u64_at(bytes, c6, 6);
    if data_key is Err {
        Err(data_key->Err_0)
    } else if program_id is Err {
        Err(program_id->Err_0)
    } else if alias is Err {
        Err(alias->Err_0)
    } else if version is Err {
        Err(version->Err_0)
    } else if cid is Err {
        Err(cid->Err_0)
    } else if public_key is Err {
        Err(public_key->Err_0)
    } else if loose is Err {
        Err(loose->Err_0)
    } else {
        Ok(MetadataView {
            data_key: data_key->Ok_0,
            program_id: program_id->Ok_0,
            alias: alias->Ok_0,
            version: version->Ok_0,
            cid: cid->Ok_0,
            public_key: public_key->Ok_0,
            loose: loose->Ok_0,
        })
    }
}

/// The encoding of metadata lays out its fields as a record of 7 listed items.
pub proof fn lemma_metadata_layout(m: MetadataView)
    requires
        metadata_fits(m),
    ensures
        lays_out(metadata_rlp(m), metadata_payloads(m), 7),
{
    reveal(metadata_rlp);
    reveal(metadata_fits);
    broadcast use lemma_concat_push;
    let ps = metadata_payloads(m);
    let its = encoded_items(ps);
    let listed = Seq::<Seq<u8>>::empty()
        .push(rlp_str(m.data_key))
        .push(rlp_str(m.program_id))
        .push(rlp_str(m.alias))
        .push(rlp_str(m.version))
        .push(rlp_str(m.cid))
        .push(rlp_str(m.public_key))
        .push(rlp_u64(m.loose));
    assert(its.take(7) =~= listed);
    assert(its.skip(7) =~= seq![]);
    assert(Seq::<u8>::empty() + rlp_str(m.data_key) =~= rlp_str(m.data_key));
    assert(concat_items(listed) =~= metadata_payload(m));
    assert(concat_items(its.skip(7)) =~= Seq::<u8>::empty());
    lemma_record_lays_out(metadata_rlp(m), ps, 7);
}

impl Metadata {
    /// Appends the RLP encoding of metadata to `s`: the list of its fields,
    /// as one item.
    pub fn rlp_append(&self, s: &mut RlpStream)
        ensures
            (rlp_stream_output(*final(s)), rlp_stream_lists(*final(s))) == rlp_appended(
                rlp_stream_output(*old(s)),
                rlp_stream_lists(*old(s)),
                metadata_rlp(self@),
            ),
    {
        reveal(metadata_rlp);
        let ghost out0 = rlp_stream_output(*s);
        let ghost lists0 = rlp_stream_lists(*s);
        rlp_stream_begin_list(s, 7);
        assert(Seq::<u8>::empty() + rlp_str(self@.data_key) =~= rlp_str(self@.data_key));
        let ghost mut payload = Seq::<u8>::empty();
        proof {
            lemma_appended_push(out0, lists0, 7nat, payload, rlp_str(self@.data_key));
            payload = payload + rlp_str(self@.data_key);
        }
        rlp_stream_append_string(s, &self.data_key);
        proof {
            lemma_appended_push(out0, lists0, 6nat, payload, rlp_str(self@.program_id));
            payload = payload + rlp_str(self@.program_id);
        }
        rlp_stream_append_string(s, &self.program_id);
        proof {
            lemma_appended_push(out0, lists0, 5nat, payload, rlp_str(self@.alias));
            payload = payload + rlp_str(self@.alias);
        }
        rlp_stream_append_string(s, &self.alias);
        proof {
            lemma_appended_push(out0, lists0, 4nat, payload, rlp_str(self@.version));
            payload = payload + rlp_str(self@.version);
        }
        rlp_stream_append_string(s, &self.version);
        proof {
            lemma_appended_push(out0, lists0, 3nat, payload, rlp_str(self@.cid));
            payload = payload + rlp_str(self@.cid);
        }
        rlp_stream_append_string(s, &self.cid);
        proof {
            lemma_appended_push(out0, lists0, 2nat, payload, rlp_str(self@.public_key));
            payload = payload + rlp_str(self@.public_key);
        }
        rlp_stream_append_string(s, &self.public_key);
        proof {
            lemma_appended_push(out0, lists0, 1nat, payload, rlp_u64(self@.loose));
            payload = payload + rlp_u64(self@.loose);
        }
        rlp_stream_append_u64(s, &self.loose);
    }

    /// Decodes metadata from the list that `rlp` reads: its items 0 to 6,
    /// in order. On the RLP encoding of metadata `m` it gives back `m`.
    pub fn decode(rlp: &mut Rlp) -> (res: Result<Metadata, RlpError>)
        ensures
            rlp_bytes(*final(rlp)) == rlp_bytes(*old(rlp)),
            match metadata_decoded(rlp_bytes(*old(rlp)), rlp_cursor(*old(rlp))) {
                Ok(m) => res matches Ok(x) && x@ == m,
                Err(k) => res matches Err(j) && j == k,
            },
            forall|m: MetadataView|
                #![trigger metadata_rlp(m)]
                rlp_cursor(*old(rlp)) is None && rlp_bytes(*old(rlp)) == metadata_rlp(m)
                    && metadata_fits(m) ==> (res matches Ok(x) && x@ == m),
    {
        let ghost bytes = rlp_bytes(*rlp);
        let ghost c0 = rlp_cursor(*rlp);
        // The record that the bytes encode, where they encode one: reading its
        // items in order cannot fail, by the layout of its items.
        let ghost target = choose|m: MetadataView|
            c0 is None && bytes == metadata_rlp(m) && metadata_fits(m);
        proof {
            if c0 is None && bytes == metadata_rlp(target)
                && metadata_fits(target) {
                lemma_metadata_layout(target);
                let ps = metadata_payloads(target);
                encode_utf8_valid_utf8(target.data_key);
                assert(valid_utf8(ps[0]));
                encode_utf8_valid_utf8(target.program_id);
                assert(valid_utf8(ps[1]));
                encode_utf8_valid_utf8(target.alias);
                assert(valid_utf8(ps[2]));
                encode_utf8_valid_utf8(target.version);
                assert(valid_utf8(ps[3]));
                encode_utf8_valid_utf8(target.cid);
                assert(valid_utf8(ps[4]));
                encode_utf8_valid_utf8(target.public_key);
                assert(valid_utf8(ps[5]));
                assert(ps[6] == u64_bytes(target.loose));
            }
        }
        let data_key = read_string_item(rlp, 0)?;
        let program_id = read_string_item(rlp, 1)?;
        let alias = read_string_item(rlp, 2)?;
        let version = read_string_item(rlp, 3)?;
        let cid = read_string_item(rlp, 4)?;
        let public_key = read_string_item(rlp, 5)?;
        let loose = read_u64_item(rlp, 6)?;
        proof {
            assert forall|m: MetadataView|
                #![trigger metadata_rlp(m)]
                c0 is None && bytes == metadata_rlp(m) && metadata_fits(m)
                implies (Metadata {
                data_key,
                program_id,
                alias,
                version,
                cid,
                public_key,
                loose,
            })@ == m by {
                lemma_metadata_layout(m);
                broadcast use encode_utf8_decode_utf8;
            }
        }
        Ok(Metadata { data_key, program_id, alias, version, cid, public_key, loose })
    }
}

} // verus!
