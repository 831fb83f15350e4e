//! Codecs for the state records and the trie nodes of a key-value store:
//! RLP encodings of transactions, receipts and metadata, and a radix-16
//! trie node codec with extension nodes, keyed by Keccak-256.

pub mod keccak;
pub mod rlp_io;
pub mod rlp_spec;
pub mod scale;
pub mod triedbmut;
pub mod node_laws;
pub mod state;
pub mod rlp_record;
pub mod metadata;
pub mod meta_contract;
pub mod transaction_receipt;
pub mod transaction;
pub mod codec;
pub mod record_laws;
