//! Byte codecs for the state records: each record to its RLP encoding and
//! back.

use vstd::prelude::*;
use crate::rlp_spec::rlp_list;
use crate::rlp_io::{rlp_new, rlp_stream_lists, rlp_stream_new, rlp_stream_out, rlp_stream_output, RlpError};
use crate::metadata::{metadata_decoded, metadata_fits, metadata_rlp};
use crate::transaction::{transaction_decoded, transaction_fits, transaction_payload, transaction_rlp};
use crate::transaction_receipt::{
    transaction_receipt_decoded, transaction_receipt_fits, transaction_receipt_rlp,
};
use crate::meta_contract::{meta_contract_decoded, meta_contract_fits, meta_contract_rlp};
use crate::state::{
    MetaContract, MetaContractView, Metadata, MetadataView, Transaction, TransactionReceipt,
    TransactionReceiptView, TransactionView,
};

verus! {

/// Encodes and decodes metadata.
pub struct MetadataCodec;

impl MetadataCodec {
    /// The RLP encoding of metadata.
    pub fn encode(metadata: &Metadata) -> (out: Vec<u8>)
        ensures
            out@ == metadata_rlp(metadata@),
    {
        let mut rlp_stream = rlp_stream_new();
        metadata.rlp_append(&mut rlp_stream);
        assert(Seq::<u8>::empty() + metadata_rlp(metadata@) =~= metadata_rlp(metadata@));
        assert(rlp_stream_lists(rlp_stream).len() == 0);
        assert(rlp_stream_output(rlp_stream) =~= metadata_rlp(metadata@));
        rlp_stream_out(rlp_stream)
    }

    /// Decodes metadata from `encoded_data`, read as an RLP list from its
    /// start. The encoding of metadata `m` decodes to `m`.
    pub fn decode(encoded_data: &[u8]) -> (res: Result<Metadata, RlpError>)
        ensures
            match metadata_decoded(encoded_data@, None) {
                Ok(m) => res matches Ok(x) && x@ == m,
                Err(k) => res matches Err(j) && j == k,
            },
            forall|m: MetadataView|
                #![trigger metadata_rlp(m)]
                encoded_data@ == metadata_rlp(m) && metadata_fits(m) ==> (res matches Ok(x)
                    && x@ == m),
    {
        let mut rlp = rlp_new(encoded_data);
        Metadata::decode(&mut rlp)
    }
}

/// Encodes and decodes a transaction.
pub struct TransactionCodec;

impl TransactionCodec {
    /// The RLP encoding of a transaction.
    pub fn encode(transaction: &Transaction) -> (out: Vec<u8>)
        ensures
            out@ == transaction_rlp(transaction@),
    {
        let mut rlp_stream = rlp_stream_new();
        transaction.rlp_append(&mut rlp_stream);
        proof {
            reveal(transaction_rlp);
            assert(Seq::<u8>::empty() + rlp_list(transaction_payload(transaction@)) =~= rlp_list(
                transaction_payload(transaction@),
            ));
        }
        assert(rlp_stream_lists(rlp_stream).len() == 0);
        assert(rlp_stream_output(rlp_stream) =~= transaction_rlp(transaction@));
        rlp_stream_out(rlp_stream)
    }

    /// Decodes a transaction from `encoded_data`, read as an RLP list from its
    /// start. The encoding of a transaction `m` decodes to `m`.
    pub fn decode(encoded_data: &[u8]) -> (res: Result<Transaction, RlpError>)
        ensures
            match transaction_decoded(encoded_data@, None) {
                Ok(m) => res matches Ok(x) && x@ == m,
                Err(k) => res matches Err(j) && j == k,
            },
            forall|m: TransactionView|
                #![trigger transaction_rlp(m)]
                encoded_data@ == transaction_rlp(m) && transaction_fits(m) ==> (res matches Ok(x)
                    && x@ == m),
    {
        let mut rlp = rlp_new(encoded_data);
        Transaction::decode(&mut rlp)
    }
}

/// Encodes and decodes a transaction receipt.
pub struct TransactionReceiptCodec;

impl TransactionReceiptCodec {
    /// The RLP encoding of a transaction receipt.
    pub fn encode(transaction_receipt: &TransactionReceipt) -> (out: Vec<u8>)
        ensures
            out@ == transaction_receipt_rlp(transaction_receipt@),
    {
        let mut rlp_stream = rlp_stream_new();
        transaction_receipt.rlp_append(&mut rlp_stream);
        assert(Seq::<u8>::empty() + transaction_receipt_rlp(transaction_receipt@) =~= transaction_receipt_rlp(
            transaction_receipt@,
        ));
        assert(rlp_stream_lists(rlp_stream).len() == 0);
        assert(rlp_stream_output(rlp_stream) =~= transaction_receipt_rlp(transaction_receipt@));
        rlp_stream_out(rlp_stream)
    }

    /// Decodes a transaction receipt from `encoded_data`, read as an RLP list from its
    /// start. The encoding of a transaction receipt `m` decodes to `m`.
    pub fn decode(encoded_data: &[u8]) -> (res: Result<TransactionReceipt, RlpError>)
        ensures
            match transaction_receipt_decoded(encoded_data@, None) {
                Ok(m) => res matches Ok(x) && x@ == m,
                Err(k) => res matches Err(j) && j == k,
            },
            forall|m: TransactionReceiptView|
                #![trigger transaction_receipt_rlp(m)]
                encoded_data@ == transaction_receipt_rlp(m) && transaction_receipt_fits(m) ==> (res matches Ok(x)
                    && x@ == m),
    {
        let mut rlp = rlp_new(encoded_data);
        TransactionReceipt::decode(&mut rlp)
    }
}

/// Encodes and decodes a meta contract.
pub struct MetaContractCodec;

impl MetaContractCodec {
    /// The RLP encoding of a meta contract.
    pub fn encode(contract: &MetaContract) -> (out: Vec<u8>)
        ensures
            out@ == meta_contract_rlp(contract@),
    {
        let mut rlp_stream = rlp_stream_new();
        contract.rlp_append(&mut rlp_stream);
        assert(Seq::<u8>::empty() + meta_contract_rlp(contract@) =~= meta_contract_rlp(contract@));
        assert(rlp_stream_lists(rlp_stream).len() == 0);
        assert(rlp_stream_output(rlp_stream) =~= meta_contract_rlp(contract@));
        rlp_stream_out(rlp_stream)
    }

    /// Decodes a meta contract from `encoded_data`, read as an RLP list from its
    /// start. The encoding of a meta contract `m` decodes to `m`.
    pub fn decode(encoded_data: &[u8]) -> (res: Result<MetaContract, RlpError>)
        ensures
            match meta_contract_decoded(encoded_data@, None) {
                Ok(m) => res matches Ok(x) && x@ == m,
                Err(k) => res matches Err(j) && j == k,
            },
            forall|m: MetaContractView|
                #![trigger meta_contract_rlp(m)]
                encoded_data@ == meta_contract_rlp(m) && meta_contract_fits(m) ==> (res matches Ok(x)
                    && x@ == m),
    {
        let mut rlp = rlp_new(encoded_data);
        MetaContract::decode(&mut rlp)
    }
}

} // verus!
