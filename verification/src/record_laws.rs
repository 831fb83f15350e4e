//! Laws that fix the RLP encoding of each record field by field: which
//! field stands at which item, whatever the values of the fields.

use vstd::prelude::*;
use vstd::utf8::encode_utf8;
use crate::rlp_io::{rlp_string_at, rlp_u64_at, RlpError};
use crate::rlp_spec::{rlp_list, rlp_str, rlp_u64};
use crate::metadata::{metadata_decoded, metadata_fits, metadata_rlp};
use crate::meta_contract::{meta_contract_decoded, meta_contract_fits, meta_contract_rlp};
use crate::transaction_receipt::{
    transaction_receipt_decoded, transaction_receipt_fits, transaction_receipt_rlp,
};
use crate::transaction::{transaction_decoded, transaction_fits, transaction_rlp};
use crate::state::{MetaContractView, MetadataView, TransactionReceiptView, TransactionView};

verus! {

/// Metadata is encoded as a list of its fields in the order
/// `data_key`, `program_id`, `alias`, `version`, `cid`, `public_key`, `loose`;
/// the order does not depend on what the fields hold.
pub proof fn law_metadata_encoding(m: MetadataView)
    ensures
        metadata_rlp(m) == rlp_list(
            rlp_str(m.data_key)
                + rlp_str(m.program_id)
                + rlp_str(m.alias)
                + rlp_str(m.version)
                + rlp_str(m.cid)
                + rlp_str(m.public_key)
                + rlp_u64(m.loose),
        ),
{
    reveal(metadata_rlp);
}

/// Every metadata whose list payload (and each field behind the list) is
/// shorter than 2^32 bytes fits, so its round trip is promised.
pub proof fn law_metadata_fits(m: MetadataView)
    requires
        (rlp_str(m.data_key)
            + rlp_str(m.program_id)
            + rlp_str(m.alias)
            + rlp_str(m.version)
            + rlp_str(m.cid)
            + rlp_str(m.public_key)
            + rlp_u64(m.loose)).len() < 4294967296,
    ensures
        metadata_fits(m),
{
    reveal(metadata_fits);
}

/// Decoding metadata reads item `i`, in order, into its
/// `i`-th field: where it succeeds, each field is what reading its
/// item gave, from the position the item before it left.
pub proof fn law_metadata_decoding(bytes: Seq<u8>, c0: Option<(nat, nat)>)
    ensures
        metadata_decoded(bytes, c0) matches Ok(m) ==> {
            let (r0, c1) = rlp_string_at(bytes, c0, 0);
            let (r1, c2) = rlp_string_at(bytes, c1, 1);
            let (r2, c3) = rlp_string_at(bytes, c2, 2);
            let (r3, c4) = rlp_string_at(bytes, c3, 3);
            let (r4, c5) = rlp_string_at(bytes, c4, 4);
            let (r5, c6) = rlp_string_at(bytes, c5, 5);
            let (r6, c7) = rlp_u64_at(bytes, c6, 6);
            &&& r0 == Ok::<Seq<char>, RlpError>(m.data_key)
            &&& r1 == Ok::<Seq<char>, RlpError>(m.program_id)
            &&& r2 == Ok::<Seq<char>, RlpError>(m.alias)
            &&& r3 == Ok::<Seq<char>, RlpError>(m.version)
            &&& r4 == Ok::<Seq<char>, RlpError>(m.cid)
            &&& r5 == Ok::<Seq<char>, RlpError>(m.public_key)
            &&& r6 == Ok::<u64, RlpError>(m.loose)
        },
{
}

/// A meta contract is encoded as a list of its fields in the order
/// `program_id`, `public_key`, `cid`;
/// the order does not depend on what the fields hold.
pub proof fn law_meta_contract_encoding(m: MetaContractView)
    ensures
        meta_contract_rlp(m) == rlp_list(
            rlp_str(m.program_id)
                + rlp_str(m.public_key)
                + rlp_str(m.cid),
        ),
{
    reveal(meta_contract_rlp);
}

/// Every contract whose list payload (and each field behind the list) is
/// shorter than 2^32 bytes fits, so its round trip is promised.
pub proof fn law_meta_contract_fits(m: MetaContractView)
    requires
        (rlp_str(m.program_id)
            + rlp_str(m.public_key)
            + rlp_str(m.cid)).len() < 4294967296,
    ensures
        meta_contract_fits(m),
{
    reveal(meta_contract_fits);
}

/// Decoding a meta contract reads item `i`, in order, into its
/// `i`-th field: where it succeeds, each field is what reading its
/// item gave, from the position the item before it left.
pub proof fn law_meta_contract_decoding(bytes: Seq<u8>, c0: Option<(nat, nat)>)
    ensures
        meta_contract_decoded(bytes, c0) matches Ok(m) ==> {
            let (r0, c1) = rlp_string_at(bytes, c0, 0);
            let (r1, c2) = rlp_string_at(bytes, c1, 1);
            let (r2, c3) = rlp_string_at(bytes, c2, 2);
            &&& r0 == Ok::<Seq<char>, RlpError>(m.program_id)
            &&& r1 == Ok::<Seq<char>, RlpError>(m.public_key)
            &&& r2 == Ok::<Seq<char>, RlpError>(m.cid)
        },
{
}

/// A transaction receipt is encoded as a list of its fields in the order
/// `hash`, `program_id`, `status`, `timestamp`, `error_text`, `data`;
/// the order does not depend on what the fields hold.
pub proof fn law_transaction_receipt_encoding(m: TransactionReceiptView)
    ensures
        transaction_receipt_rlp(m) == rlp_list(
            rlp_str(m.hash)
                + rlp_str(m.program_id)
                + rlp_u64(m.status)
                + rlp_u64(m.timestamp)
                + rlp_str(m.error_text)
                + rlp_str(m.data),
        ),
{
    reveal(transaction_receipt_rlp);
}

/// Every receipt whose list payload (and each field behind the list) is
/// shorter than 2^32 bytes fits, so its round trip is promised.
pub proof fn law_transaction_receipt_fits(m: TransactionReceiptView)
    requires
        (rlp_str(m.hash)
            + rlp_str(m.program_id)
            + rlp_u64(m.status)
            + rlp_u64(m.timestamp)
            + rlp_str(m.error_text)
            + rlp_str(m.data)).len() < 4294967296,
    ensures
        transaction_receipt_fits(m),
{
    reveal(transaction_receipt_fits);
}

/// Decoding a transaction receipt reads item `i`, in order, into its
/// `i`-th field: where it succeeds, each field is what reading its
/// item gave, from the position the item before it left.
pub proof fn law_transaction_receipt_decoding(bytes: Seq<u8>, c0: Option<(nat, nat)>)
    ensures
        transaction_receipt_decoded(bytes, c0) matches Ok(m) ==> {
            let (r0, c1) = rlp_string_at(bytes, c0, 0);
            let (r1, c2) = rlp_string_at(bytes, c1, 1);
            let (r2, c3) = rlp_u64_at(bytes, c2, 2);
            let (r3, c4) = rlp_u64_at(bytes, c3, 3);
            let (r4, c5) = rlp_string_at(bytes, c4, 4);
            let (r5, c6) = rlp_string_at(bytes, c5, 5);
            &&& r0 == Ok::<Seq<char>, RlpError>(m.hash)
            &&& r1 == Ok::<Seq<char>, RlpError>(m.program_id)
            &&& r2 == Ok::<u64, RlpError>(m.status)
            &&& r3 == Ok::<u64, RlpError>(m.timestamp)
            &&& r4 == Ok::<Seq<char>, RlpError>(m.error_text)
            &&& r5 == Ok::<Seq<char>, RlpError>(m.data)
        },
{
}

/// A transaction is encoded as a list of its fields in the order
/// `hash`, `method`, `program_id`, `data_key`, `data`, `public_key`, `alias`, `timestamp`,
/// followed by `version` as an item of its own, behind the list; the order does not depend on what the fields hold.
pub proof fn law_transaction_encoding(m: TransactionView)
    ensures
        transaction_rlp(m) == rlp_list(
            rlp_str(m.hash)
                + rlp_str(m.method)
                + rlp_str(m.program_id)
                + rlp_str(m.data_key)
                + rlp_str(m.data)
                + rlp_str(m.public_key)
                + rlp_str(m.alias)
                + rlp_u64(m.timestamp),
        ) + rlp_str(m.version),
{
    reveal(transaction_rlp);
}

/// Every transaction whose list payload (and each field behind the list) is
/// shorter than 2^32 bytes fits, so its round trip is promised.
pub proof fn law_transaction_fits(m: TransactionView)
    requires
        (rlp_str(m.hash)
            + rlp_str(m.method)
            + rlp_str(m.program_id)
            + rlp_str(m.data_key)
            + rlp_str(m.data)
            + rlp_str(m.public_key)
            + rlp_str(m.alias)
            + rlp_u64(m.timestamp)).len() < 4294967296,
        encode_utf8(m.version).len() < 4294967296,
    ensures
        transaction_fits(m),
{
    reveal(transaction_fits);
}

/// Decoding a transaction reads item `i`, in order, into its
/// `i`-th field: where it succeeds, each field is what reading its
/// item gave, from the position the item before it left.
pub proof fn law_transaction_decoding(bytes: Seq<u8>, c0: Option<(nat, nat)>)
    ensures
        transaction_decoded(bytes, c0) matches Ok(m) ==> {
            let (r0, c1) = rlp_string_at(bytes, c0, 0);
            let (r1, c2) = rlp_string_at(bytes, c1, 1);
            let (r2, c3) = rlp_string_at(bytes, c2, 2);
            let (r3, c4) = rlp_string_at(bytes, c3, 3);
            let (r4, c5) = rlp_string_at(bytes, c4, 4);
            let (r5, c6) = rlp_string_at(bytes, c5, 5);
            let (r6, c7) = rlp_string_at(bytes, c6, 6);
            let (r7, c8) = rlp_u64_at(bytes, c7, 7);
            let (r8, c9) = rlp_string_at(bytes, c8, 8);
            &&& r0 == Ok::<Seq<char>, RlpError>(m.hash)
            &&& r1 == Ok::<Seq<char>, RlpError>(m.method)
            &&& r2 == Ok::<Seq<char>, RlpError>(m.program_id)
            &&& r3 == Ok::<Seq<char>, RlpError>(m.data_key)
            &&& r4 == Ok::<Seq<char>, RlpError>(m.data)
            &&& r5 == Ok::<Seq<char>, RlpError>(m.public_key)
            &&& r6 == Ok::<Seq<char>, RlpError>(m.alias)
            &&& r7 == Ok::<u64, RlpError>(m.timestamp)
            &&& r8 == Ok::<Seq<char>, RlpError>(m.version)
        },
{
}

} // verus!
