//! The RLP encoding of a transaction receipt: a list of its six fields in order.

use vstd::prelude::*;
use vstd::utf8::{encode_utf8, encode_utf8_decode_utf8, encode_utf8_valid_utf8, valid_utf8};
use rlp::{Rlp, RlpStream};
use crate::rlp_io::{
    lemma_appended_push, rlp_appended, rlp_bytes, rlp_cursor,
    rlp_stream_append_string, rlp_stream_append_u64, rlp_stream_begin_list, rlp_stream_lists,
    rlp_stream_output, rlp_string_at, rlp_u64_at, RlpError,
};
use crate::rlp_record::{
    encoded_items, lays_out, lemma_record_lays_out, read_string_item, read_u64_item, u64_bytes,
};
use crate::rlp_spec::{
    concat_items, lemma_concat_push, rlp_list, rlp_str, rlp_u64,
};
use crate::state::{TransactionReceipt, TransactionReceiptView};

verus! {

/// The encoded fields of a transaction receipt that its list holds, in order.
pub open spec fn transaction_receipt_payload(m: TransactionReceiptView) -> Seq<u8> {
    rlp_str(m.hash)
        + rlp_str(m.program_id)
        + rlp_u64(m.status)
        + rlp_u64(m.timestamp)
        + rlp_str(m.error_text)
        + rlp_str(m.data)
}

/// The RLP encoding of a transaction receipt.
#[verifier::opaque]
pub open spec fn transaction_receipt_rlp(m: TransactionReceiptView) -> Seq<u8> {
    rlp_list(transaction_receipt_payload(m))
}

/// Whether the encoding of a transaction receipt stays within the lengths that an RLP
/// header of four length bytes can give: the list payload, and each field
/// behind the list, shorter than 2^32 bytes.
#[verifier::opaque]
pub open spec fn transaction_receipt_fits(m: TransactionReceiptView) -> bool {
    transaction_receipt_payload(m).len() < 4294967296
}

/// The fields of a transaction receipt as the byte strings that its encoding holds.
pub open spec fn transaction_receipt_payloads(m: TransactionReceiptView) -> Seq<Seq<u8>> {
    seq![
        encode_utf8(m.hash),
        encode_utf8(m.program_id),
        u64_bytes(m.status),
        u64_bytes(m.timestamp),
        encode_utf8(m.error_text),
        encode_utf8(m.data),
    ]
}

/// What decoding a transaction receipt from the list that `bytes` holds gives, reading
/// its items in order from the kept position `c0`: the record, or the
/// error of the first item that fails.
pub open spec fn transaction_receipt_decoded(
    bytes: Seq<u8>,
    c0: Option<(nat, nat)>,
) -> Result<TransactionReceiptView, RlpError> {
    let (hash, c1) = rlp_string_at(bytes, c0, 0);
    let (program_id, c2) = rlp_string_at(bytes, c1, 1);
    let (status, c3) = rlp_u64_at(bytes, c2, 2);
    let (timestamp, c4) = rlp_u64_at(bytes, c3, 3);
    let (error_text, c5) = rlp_string_at(bytes, c4, 4);
    let (data, c6) = rlp_string_at(bytes, c5, 5);
    if hash is Err {
        Err(hash->Err_0)
    } else if program_id is Err {
        Err(program_id->Err_0)
    } else if status is Err {
        Err(status->Err_0)
    } else if timestamp is Err {
        Err(timestamp->Err_0)
    } else if error_text is Err {
        Err(error_text->Err_0)
    } else if data is Err {
        Err(data->Err_0)
    } else {
        Ok(TransactionReceiptView {
            hash: hash->Ok_0,
            program_id: program_id->Ok_0,
            status: status->Ok_0,
            timestamp: timestamp->Ok_0,
            error_text: error_text->Ok_0,
            data: data->Ok_0,
        })
    }
}

/// The encoding of a transaction receipt lays out its fields as a record of 6 listed items.
pub proof fn lemma_transaction_receipt_layout(m: TransactionReceiptView)
    requires
        transaction_receipt_fits(m),
    ensures
        lays_out(transaction_receipt_rlp(m), transaction_receipt_payloads(m), 6),
{
    reveal(transaction_receipt_rlp);
    reveal(transaction_receipt_fits);
    broadcast use lemma_concat_push;
    let ps = transaction_receipt_payloads(m);
    let its = encoded_items(ps);
    let listed = Seq::<Seq<u8>>::empty()
        .push(rlp_str(m.hash))
        .push(rlp_str(m.program_id))
        .push(rlp_u64(m.status))
        .push(rlp_u64(m.timestamp))
        .push(rlp_str(m.error_text))
        .push(rlp_str(m.data));
    assert(its.take(6) =~= listed);
    assert(its.skip(6) =~= seq![]);
    assert(Seq::<u8>::empty() + rlp_str(m.hash) =~= rlp_str(m.hash));
    assert(concat_items(listed) =~= transaction_receipt_payload(m));
    assert(concat_items(its.skip(6)) =~= Seq::<u8>::empty());
    lemma_record_lays_out(transaction_receipt_rlp(m), ps, 6);
}

impl TransactionReceipt {
    /// Appends the RLP encoding of a transaction receipt to `s`: the list of its fields,
    /// as one item.
    pub fn rlp_append(&self, s: &mut RlpStream)
        ensures
            (rlp_stream_output(*final(s)), rlp_stream_lists(*final(s))) == rlp_appended(
                rlp_stream_output(*old(s)),
                rlp_stream_lists(*old(s)),
                transaction_receipt_rlp(self@),
            ),
    {
        reveal(transaction_receipt_rlp);
        let ghost out0 = rlp_stream_output(*s);
        let ghost lists0 = rlp_stream_lists(*s);
        rlp_stream_begin_list(s, 6);
        assert(Seq::<u8>::empty() + rlp_str(self@.hash) =~= rlp_str(self@.hash));
        let ghost mut payload = Seq::<u8>::empty();
        proof {
            lemma_appended_push(out0, lists0, 6nat, payload, rlp_str(self@.hash));
            payload = payload + rlp_str(self@.hash);
        }
        rlp_stream_append_string(s, &self.hash);
        proof {
            lemma_appended_push(out0, lists0, 5nat, payload, rlp_str(self@.program_id));
            payload = payload + rlp_str(self@.program_id);
        }
        rlp_stream_append_string(s, &self.program_id);
        proof {
            lemma_appended_push(out0, lists0, 4nat, payload, rlp_u64(self@.status));
            payload = payload + rlp_u64(self@.status);
        }
        rlp_stream_append_u64(s, &self.status);
        proof {
            lemma_appended_push(out0, lists0, 3nat, payload, rlp_u64(self@.timestamp));
            payload = payload + rlp_u64(self@.timestamp);
        }
        rlp_stream_append_u64(s, &self.timestamp);
        proof {
            lemma_appended_push(out0, lists0, 2nat, payload, rlp_str(self@.error_text));
            payload = payload + rlp_str(self@.error_text);
        }
        rlp_stream_append_string(s, &self.error_text);
        proof {
            lemma_appended_push(out0, lists0, 1nat, payload, rlp_str(self@.data));
            payload = payload + rlp_str(self@.data);
        }
        rlp_stream_append_string(s, &self.data);
    }

    /// Decodes a transaction receipt from the list that `rlp` reads: its items 0 to 5,
    /// in order. On the RLP encoding of a transaction receipt `m` it gives back `m`.
    pub fn decode(rlp: &mut Rlp) -> (res: Result<TransactionReceipt, RlpError>)
        ensures
            rlp_bytes(*final(rlp)) == rlp_bytes(*old(rlp)),
            match transaction_receipt_decoded(rlp_bytes(*old(rlp)), rlp_cursor(*old(rlp))) {
                Ok(m) => res matches Ok(x) && x@ == m,
                Err(k) => res matches Err(j) && j == k,
            },
            forall|m: TransactionReceiptView|
                #![trigger transaction_receipt_rlp(m)]
                rlp_cursor(*old(rlp)) is None && rlp_bytes(*old(rlp)) == transaction_receipt_rlp(m)
                    && transaction_receipt_fits(m) ==> (res matches Ok(x) && x@ == m),
    {
        let ghost bytes = rlp_bytes(*rlp);
        let ghost c0 = rlp_cursor(*rlp);
        // The record that the bytes encode, where they encode one: reading its
        // items in order cannot fail, by the layout of its items.
        let ghost target = choose|m: TransactionReceiptView|
            c0 is None && bytes == transaction_receipt_rlp(m) && transaction_receipt_fits(m);
        proof {
            if c0 is None && bytes == transaction_receipt_rlp(target)
                && transaction_receipt_fits(target) {
                lemma_transaction_receipt_layout(target);
                let ps = transaction_receipt_payloads(target);
                encode_utf8_valid_utf8(target.hash);
                assert(valid_utf8(ps[0]));
                encode_utf8_valid_utf8(target.program_id);
                assert(valid_utf8(ps[1]));
                assert(ps[2] == u64_bytes(target.status));
                assert(ps[3] == u64_bytes(target.timestamp));
                encode_utf8_valid_utf8(target.error_text);
                assert(valid_utf8(ps[4]));
                encode_utf8_valid_utf8(target.data);
                assert(valid_utf8(ps[5]));
            }
        }
        let hash = read_string_item(rlp, 0)?;
        let program_id = read_string_item(rlp, 1)?;
        let status = read_u64_item(rlp, 2)?;
        let timestamp = read_u64_item(rlp, 3)?;
        let error_text = read_string_item(rlp, 4)?;
        let data = read_string_item(rlp, 5)?;
        proof {
            assert forall|m: TransactionReceiptView|
                #![trigger transaction_receipt_rlp(m)]
                c0 is None && bytes == transaction_receipt_rlp(m) && transaction_receipt_fits(m)
                implies (TransactionReceipt {
                hash,
                program_id,
                status,
                timestamp,
                error_text,
                data,
            })@ == m by {
                lemma_transaction_receipt_layout(m);
                broadcast use encode_utf8_decode_utf8;
            }
        }
        Ok(TransactionReceipt { hash, program_id, status, timestamp, error_text, data })
    }
}

} // verus!
