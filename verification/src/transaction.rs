//! The RLP encoding of a transaction: a list header that counts its first eight fields,
//! then all its fields in order, the last one behind the list.

use vstd::prelude::*;
use vstd::utf8::{encode_utf8, encode_utf8_decode_utf8, encode_utf8_valid_utf8, valid_utf8};
use rlp::{Rlp, RlpStream};
use crate::rlp_io::{
    lemma_appended_push, rlp_appended, rlp_bytes, rlp_cursor,
    rlp_stream_append_string, rlp_stream_append_u64, rlp_stream_begin_list, rlp_stream_lists,
    rlp_stream_output, rlp_string_at, rlp_u64_at, RlpError,
};
use crate::rlp_record::{
    encoded_items, lays_out, lemma_record_lays_out, read_string_item, read_u64_item, u64_bytes,
};
use crate::rlp_spec::{
    concat_items, lemma_concat_push, rlp_list, rlp_str, rlp_u64,
};
use crate::state::{Transaction, TransactionView};

verus! {

/// The encoded fields of a transaction that its list holds, in order.
pub open spec fn transaction_payload(m: TransactionView) -> Seq<u8> {
    rlp_str(m.hash)
        + rlp_str(m.method)
        + rlp_str(m.program_id)
        + rlp_str(m.data_key)
        + rlp_str(m.data)
        + rlp_str(m.public_key)
        + rlp_str(m.alias)
        + rlp_u64(m.timestamp)
}

/// The RLP encoding of a transaction.
#[verifier::opaque]
pub open spec fn transaction_rlp(m: TransactionView) -> Seq<u8> {
    rlp_list(transaction_payload(m)) + rlp_str(m.version)
}

/// Whether the encoding of a transaction stays within the lengths that an RLP
/// header of four length bytes can give: the list payload, and each field
/// behind the list, shorter than 2^32 bytes.
#[verifier::opaque]
pub open spec fn transaction_fits(m: TransactionView) -> bool {
    transaction_payload(m).len() < 4294967296 && encode_utf8(m.version).len() < 4294967296
}

/// The fields of a transaction as the byte strings that its encoding holds.
pub open spec fn transaction_payloads(m: TransactionView) -> Seq<Seq<u8>> {
    seq![
        encode_utf8(m.hash),
        encode_utf8(m.method),
        encode_utf8(m.program_id),
        encode_utf8(m.data_key),
        encode_utf8(m.data),
        encode_utf8(m.public_key),
        encode_utf8(m.alias),
        u64_bytes(m.timestamp),
        encode_utf8(m.version),
    ]
}

/// What decoding a transaction from the list that `bytes` holds gives, reading
/// its items in order from the kept position `c0`: the record, or the
/// error of the first item that fails.
pub open spec fn transaction_decoded(
    bytes: Seq<u8>,
    c0: Option<(nat, nat)>,
) -> Result<TransactionView, RlpError> {
    let (hash, c1) = rlp_string_at(bytes, c0, 0);
    let (method, c2) = rlp_string_at(bytes, c1, 1);
    let (program_id, c3) = rlp_string_at(bytes, c2, 2);
    let (data_key, c4) = rlp_string_at(bytes, c3, 3);
    let (data, c5) = rlp_string_at(bytes, c4, 4);
    let (public_key, c6) = rlp_string_at(bytes, c5, 5);
    let (alias, c7) = rlp_string_at(bytes, c6, 6);
    let (timestamp, c8) = rlp_u64_at(bytes, c7, 7);
    let (version, c9) = rlp_string_at(bytes, c8, 8);
    if hash is Err {
        Err(hash->Err_0)
    } else if method is Err {
        Err(method->Err_0)
    } else if program_id is Err {
        Err(program_id->Err_0)
    } else if data_key is Err {
        Err(data_key->Err_0)
    } else if data is Err {
        Err(data->Err_0)
    } else if public_key is Err {
        Err(public_key->Err_0)
    } else if alias is Err {
        Err(alias->Err_0)
    } else if timestamp is Err {
        Err(timestamp->Err_0)
    } else if version is Err {
        Err(version->Err_0)
    } else {
        Ok(TransactionView {
            hash: hash->Ok_0,
            method: method->Ok_0,
            program_id: program_id->Ok_0,
            data_key: data_key->Ok_0,
            data: data->Ok_0,
            public_key: public_key->Ok_0,
            alias: alias->Ok_0,
            timestamp: timestamp->Ok_0,
            version: version->Ok_0,
        })
    }
}

/// The encoding of a transaction lays out its fields as a record of 8 listed items.
pub proof fn lemma_transaction_layout(m: TransactionView)
    requires
        transaction_fits(m),
    ensures
        lays_out(transaction_rlp(m), transaction_payloads(m), 8),
{
    reveal(transaction_rlp);
    reveal(transaction_fits);
    broadcast use lemma_concat_push;
    let ps = transaction_payloads(m);
    let its = encoded_items(ps);
    let listed = Seq::<Seq<u8>>::empty()
        .push(rlp_str(m.hash))
        .push(rlp_str(m.method))
        .push(rlp_str(m.program_id))
        .push(rlp_str(m.data_key))
        .push(rlp_str(m.data))
        .push(rlp_str(m.public_key))
        .push(rlp_str(m.alias))
        .push(rlp_u64(m.timestamp));
    assert(its.take(8) =~= listed);
    assert(its.skip(8) =~= seq![rlp_str(m.version)]);
    assert(Seq::<u8>::empty() + rlp_str(m.hash) =~= rlp_str(m.hash));
    assert(Seq::<u8>::empty() + rlp_str(m.version) =~= rlp_str(m.version));
    assert(concat_items(listed) =~= transaction_payload(m));
    assert(concat_items(seq![rlp_str(m.version)]) =~= rlp_str(m.version));
    lemma_record_lays_out(transaction_rlp(m), ps, 8);
}

impl Transaction {
    /// Appends the RLP encoding of a transaction to `s`: the list of its fields,
    /// then its last field, as two items.
    pub fn rlp_append(&self, s: &mut RlpStream)
        ensures
            ({
                let (out, lists) = rlp_appended(
                    rlp_stream_output(*old(s)),
                    rlp_stream_lists(*old(s)),
                    rlp_list(transaction_payload(self@)),
                );
                (rlp_stream_output(*final(s)), rlp_stream_lists(*final(s))) == rlp_appended(
                    out,
                    lists,
                    rlp_str(self@.version),
                )
            }),
    {
        let ghost out0 = rlp_stream_output(*s);
        let ghost lists0 = rlp_stream_lists(*s);
        rlp_stream_begin_list(s, 8);
        assert(Seq::<u8>::empty() + rlp_str(self@.hash) =~= rlp_str(self@.hash));
        let ghost mut payload = Seq::<u8>::empty();
        proof {
            lemma_appended_push(out0, lists0, 8nat, payload, rlp_str(self@.hash));
            payload = payload + rlp_str(self@.hash);
        }
        rlp_stream_append_string(s, &self.hash);
        proof {
            lemma_appended_push(out0, lists0, 7nat, payload, rlp_str(self@.method));
            payload = payload + rlp_str(self@.method);
        }
        rlp_stream_append_string(s, &self.method);
        proof {
            lemma_appended_push(out0, lists0, 6nat, payload, rlp_str(self@.program_id));
            payload = payload + rlp_str(self@.program_id);
        }
        rlp_stream_append_string(s, &self.program_id);
        proof {
            lemma_appended_push(out0, lists0, 5nat, payload, rlp_str(self@.data_key));
            payload = payload + rlp_str(self@.data_key);
        }
        rlp_stream_append_string(s, &self.data_key);
        proof {
            lemma_appended_push(out0, lists0, 4nat, payload, rlp_str(self@.data));
            payload = payload + rlp_str(self@.data);
        }
        rlp_stream_append_string(s, &self.data);
        proof {
            lemma_appended_push(out0, lists0, 3nat, payload, rlp_str(self@.public_key));
            payload = payload + rlp_str(self@.public_key);
        }
        rlp_stream_append_string(s, &self.public_key);
        proof {
            lemma_appended_push(out0, lists0, 2nat, payload, rlp_str(self@.alias));
            payload = payload + rlp_str(self@.alias);
        }
        rlp_stream_append_string(s, &self.alias);
        proof {
            lemma_appended_push(out0, lists0, 1nat, payload, rlp_u64(self@.timestamp));
            payload = payload + rlp_u64(self@.timestamp);
        }
        rlp_stream_append_u64(s, &self.timestamp);
        rlp_stream_append_string(s, &self.version);
    }

    /// Decodes a transaction from the list that `rlp` reads: its items 0 to 8,
    /// in order. On the RLP encoding of a transaction `m` it gives back `m`.
    pub fn decode(rlp: &mut Rlp) -> (res: Result<Transaction, RlpError>)
        ensures
            rlp_bytes(*final(rlp)) == rlp_bytes(*old(rlp)),
            match transaction_decoded(rlp_bytes(*old(rlp)), rlp_cursor(*old(rlp))) {
                Ok(m) => res matches Ok(x) && x@ == m,
                Err(k) => res matches Err(j) && j == k,
            },
            forall|m: TransactionView|
                #![trigger transaction_rlp(m)]
                rlp_cursor(*old(rlp)) is None && rlp_bytes(*old(rlp)) == transaction_rlp(m)
                    && transaction_fits(m) ==> (res matches Ok(x) && x@ == m),
    {
        let ghost bytes = rlp_bytes(*rlp);
        let ghost c0 = rlp_cursor(*rlp);
        // The record that the bytes encode, where they encode one: reading its
        // items in order cannot fail, by the layout of its items.
        let ghost target = choose|m: TransactionView|
            c0 is None && bytes == transaction_rlp(m) && transaction_fits(m);
        proof {
            if c0 is None && bytes == transaction_rlp(target)
                && transaction_fits(target) {
                lemma_transaction_layout(target);
                let ps = transaction_payloads(target);
                encode_utf8_valid_utf8(target.hash);
                assert(valid_utf8(ps[0]));
                encode_utf8_valid_utf8(target.method);
                assert(valid_utf8(ps[1]));
                encode_utf8_valid_utf8(target.program_id);
                assert(valid_utf8(ps[2]));
                encode_utf8_valid_utf8(target.data_key);
                assert(valid_utf8(ps[3]));
                encode_utf8_valid_utf8(target.data);
                assert(valid_utf8(ps[4]));
                encode_utf8_valid_utf8(target.public_key);
                assert(valid_utf8(ps[5]));
                encode_utf8_valid_utf8(target.alias);
                assert(valid_utf8(ps[6]));
                assert(ps[7] == u64_bytes(target.timestamp));
                encode_utf8_valid_utf8(target.version);
                assert(valid_utf8(ps[8]));
            }
        }
        let hash = read_string_item(rlp, 0)?;
        let method = read_string_item(rlp, 1)?;
        let program_id = read_string_item(rlp, 2)?;
        let data_key = read_string_item(rlp, 3)?;
        let data = read_string_item(rlp, 4)?;
        let public_key = read_string_item(rlp, 5)?;
        let alias = read_string_item(rlp, 6)?;
        let timestamp = read_u64_item(rlp, 7)?;
        let version = read_string_item(rlp, 8)?;
        proof {
            assert forall|m: TransactionView|
                #![trigger transaction_rlp(m)]
                c0 is None && bytes == transaction_rlp(m) && transaction_fits(m)
                implies (Transaction {
                hash,
                method,
                program_id,
                data_key,
                data,
                public_key,
                alias,
                timestamp,
                version,
            })@ == m by {
                lemma_transaction_layout(m);
                broadcast use encode_utf8_decode_utf8;
            }
        }
        Ok(Transaction { hash, method, program_id, data_key, data, public_key, alias, timestamp, version })
    }
}

} // verus!
