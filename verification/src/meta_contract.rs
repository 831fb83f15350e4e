//! The RLP encoding of a meta contract: a list of its three fields in order.

use vstd::prelude::*;
use vstd::utf8::{encode_utf8, encode_utf8_decode_utf8, encode_utf8_valid_utf8, valid_utf8};
use rlp::{Rlp, RlpStream};
use crate::rlp_io::{
    lemma_appended_push, rlp_appended, rlp_bytes, rlp_cursor,
    rlp_stream_append_string, rlp_stream_begin_list, rlp_stream_lists, rlp_stream_output,
    rlp_string_at, RlpError,
};
use crate::rlp_record::{encoded_items, lays_out, lemma_record_lays_out, read_string_item};
use crate::rlp_spec::{
    concat_items, lemma_concat_push, rlp_list, rlp_str,
};
use crate::state::{MetaContract, MetaContractView};

verus! {

/// The encoded fields of a meta contract that its list holds, in order.
pub open spec fn meta_contract_payload(m: MetaContractView) -> Seq<u8> {
    rlp_str(m.program_id)
        + rlp_str(m.public_key)
        + rlp_str(m.cid)
}

/// The RLP encoding of a meta contract.
#[verifier::opaque]
pub open spec fn meta_contract_rlp(m: MetaContractView) -> Seq<u8> {
    rlp_list(meta_contract_payload(m))
}

/// Whether the encoding of a meta contract stays within the lengths that an RLP
/// header of four length bytes can give: the list payload, and each field
/// behind the list, shorter than 2^32 bytes.
#[verifier::opaque]
pub open spec fn meta_contract_fits(m: MetaContractView) -> bool {
    meta_contract_payload(m).len() < 4294967296
}

/// The fields of a meta contract as the byte strings that its encoding holds.
pub open spec fn meta_contract_payloads(m: MetaContractView) -> Seq<Seq<u8>> {
    seq![
        encode_utf8(m.program_id),
        encode_utf8(m.public_key),
        encode_utf8(m.cid),
    ]
}

/// What decoding a meta contract from the list that `bytes` holds gives, reading
/// its items in order from the kept position `c0`: the record, or the
/// error of the first item that fails.
pub open spec fn meta_contract_decoded(
    bytes: Seq<u8>,
    c0: Option<(nat, nat)>,
) -> Result<MetaContractView, RlpError> {
    let (program_id, c1) = rlp_string_at(bytes, c0, 0);
    let (public_key, c2) = rlp_string_at(bytes, c1, 1);
    let (cid, c3) = rlp_string_at(bytes, c2, 2);
    if program_id is Err {
        Err(program_id->Err_0)
    } else if public_key is Err {
        Err(public_key->Err_0)
    } else if cid is Err {
        Err(cid->Err_0)
    } else {
        Ok(MetaContractView {
            program_id: program_id->Ok_0,
            public_key: public_key->Ok_0,
            cid: cid->Ok_0,
        })
    }
}

/// The encoding of a meta contract lays out its fields as a record of 3 listed items.
pub proof fn lemma_meta_contract_layout(m: MetaContractView)
    requires
        meta_contract_fits(m),
    ensures
        lays_out(meta_contract_rlp(m), meta_contract_payloads(m), 3),
{
    reveal(meta_contract_rlp);
    reveal(meta_contract_fits);
    broadcast use lemma_concat_push;
    let ps = meta_contract_payloads(m);
    let its = encoded_items(ps);
    let listed = Seq::<Seq<u8>>::empty()
        .push(rlp_str(m.program_id))
        .push(rlp_str(m.public_key))
        .push(rlp_str(m.cid));
    assert(its.take(3) =~= listed);
    assert(its.skip(3) =~= seq![]);
    assert(Seq::<u8>::empty() + rlp_str(m.program_id) =~= rlp_str(m.program_id));
    assert(concat_items(listed) =~= meta_contract_payload(m));
    assert(concat_items(its.skip(3)) =~= Seq::<u8>::empty());
    lemma_record_lays_out(meta_contract_rlp(m), ps, 3);
}

impl MetaContract {
    /// Appends the RLP encoding of a meta contract to `s`: the list of its fields,
    /// as one item.
    pub fn rlp_append(&self, s: &mut RlpStream)
        ensures
            (rlp_stream_output(*final(s)), rlp_stream_lists(*final(s))) == rlp_appended(
                rlp_stream_output(*old(s)),
                rlp_stream_lists(*old(s)),
                meta_contract_rlp(self@),
            ),
    {
        reveal(meta_contract_rlp);
        let ghost out0 = rlp_stream_output(*s);
        let ghost lists0 = rlp_stream_lists(*s);
        rlp_stream_begin_list(s, 3);
        assert(Seq::<u8>::empty() + rlp_str(self@.program_id) =~= rlp_str(self@.program_id));
        let ghost mut payload = Seq::<u8>::empty();
        proof {
            lemma_appended_push(out0, lists0, 3nat, payload, rlp_str(self@.program_id));
            payload = payload + rlp_str(self@.program_id);
        }
        rlp_stream_append_string(s, &self.program_id);
        proof {
            lemma_appended_push(out0, lists0, 2nat, payload, rlp_str(self@.public_key));
            payload = payload + rlp_str(self@.public_key);
        }
        rlp_stream_append_string(s, &self.public_key);
        proof {
            lemma_appended_push(out0, lists0, 1nat, payload, rlp_str(self@.cid));
            payload = payload + rlp_str(self@.cid);
        }
        rlp_stream_append_string(s, &self.cid);
    }

    /// Decodes a meta contract from the list that `rlp` reads: its items 0 to 2,
    /// in order. On the RLP encoding of a meta contract `m` it gives back `m`.
    pub fn decode(rlp: &mut Rlp) -> (res: Result<MetaContract, RlpError>)
        ensures
            rlp_bytes(*final(rlp)) == rlp_bytes(*old(rlp)),
            match meta_contract_decoded(rlp_bytes(*old(rlp)), rlp_cursor(*old(rlp))) {
                Ok(m) => res matches Ok(x) && x@ == m,
                Err(k) => res matches Err(j) && j == k,
            },
            forall|m: MetaContractView|
                #![trigger meta_contract_rlp(m)]
                rlp_cursor(*old(rlp)) is None && rlp_bytes(*old(rlp)) == meta_contract_rlp(m)
                    && meta_contract_fits(m) ==> (res matches Ok(x) && x@ == m),
    {
        let ghost bytes = rlp_bytes(*rlp);
        let ghost c0 = rlp_cursor(*rlp);
        // The record that the bytes encode, where they encode one: reading its
        // items in order cannot fail, by the layout of its items.
        let ghost target = choose|m: MetaContractView|
            c0 is None && bytes == meta_contract_rlp(m) && meta_contract_fits(m);
        proof {
            if c0 is None && bytes == meta_contract_rlp(target)
                && meta_contract_fits(target) {
                lemma_meta_contract_layout(target);
                let ps = meta_contract_payloads(target);
                encode_utf8_valid_utf8(target.program_id);
                assert(valid_utf8(ps[0]));
                encode_utf8_valid_utf8(target.public_key);
                assert(valid_utf8(ps[1]));
                encode_utf8_valid_utf8(target.cid);
                assert(valid_utf8(ps[2]));
            }
        }
        let program_id = read_string_item(rlp, 0)?;
        let public_key = read_string_item(rlp, 1)?;
        let cid = read_string_item(rlp, 2)?;
        proof {
            assert forall|m: MetaContractView|
                #![trigger meta_contract_rlp(m)]
                c0 is None && bytes == meta_contract_rlp(m) && meta_contract_fits(m)
                implies (MetaContract {
                program_id,
                public_key,
                cid,
            })@ == m by {
                lemma_meta_contract_layout(m);
                broadcast use encode_utf8_decode_utf8;
            }
        }
        Ok(MetaContract { program_id, public_key, cid })
    }
}

} // verus!
