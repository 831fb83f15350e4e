//! The records that the store keeps.

use vstd::prelude::*;

verus! {

#[derive(Debug, Clone)]
pub struct Transaction {
    pub hash: String,
    pub method: String,
    pub program_id: String,
    pub data_key: String,
    pub data: String,
    pub public_key: String,
    pub alias: String,
    pub timestamp: u64,
    pub version: String,
}

#[derive(Debug, Clone)]
pub struct TransactionReceipt {
    pub hash: String,
    pub program_id: String,
    pub status: u64,
    pub timestamp: u64,
    pub error_text: String,
    pub data: String,
}

#[derive(Debug, Clone)]
pub struct Metadata {
    pub data_key: String,
    pub program_id: String,
    pub alias: String,
    pub version: String,
    pub cid: String,
    pub public_key: String,
    pub loose: u64,
}

#[derive(Debug, Clone)]
pub struct MetaContract {
    pub program_id: String,
    pub public_key: String,
    pub cid: String,
}

/// A transaction, its strings as characters.
pub struct TransactionView {
    pub hash: Seq<char>,
    pub method: Seq<char>,
    pub program_id: Seq<char>,
    pub data_key: Seq<char>,
    pub data: Seq<char>,
    pub public_key: Seq<char>,
    pub alias: Seq<char>,
    pub timestamp: u64,
    pub version: Seq<char>,
}

/// A transaction receipt, its strings as characters.
pub struct TransactionReceiptView {
    pub hash: Seq<char>,
    pub program_id: Seq<char>,
    pub status: u64,
    pub timestamp: u64,
    pub error_text: Seq<char>,
    pub data: Seq<char>,
}

/// Metadata, its strings as characters.
pub struct MetadataView {
    pub data_key: Seq<char>,
    pub program_id: Seq<char>,
    pub alias: Seq<char>,
    pub version: Seq<char>,
    pub cid: Seq<char>,
    pub public_key: Seq<char>,
    pub loose: u64,
}

/// A meta contract, its strings as characters.
pub struct MetaContractView {
    pub program_id: Seq<char>,
    pub public_key: Seq<char>,
    pub cid: Seq<char>,
}

impl View for Transaction {
    type V = TransactionView;

    open spec fn view(&self) -> TransactionView {
        TransactionView {
            hash: self.hash@,
            method: self.method@,
            program_id: self.program_id@,
            data_key: self.data_key@,
            data: self.data@,
            public_key: self.public_key@,
            alias: self.alias@,
            timestamp: self.timestamp,
            version: self.version@,
        }
    }
}

impl View for TransactionReceipt {
    type V = TransactionReceiptView;

    open spec fn view(&self) -> TransactionReceiptView {
        TransactionReceiptView {
            hash: self.hash@,
            program_id: self.program_id@,
            status: self.status,
            timestamp: self.timestamp,
            error_text: self.error_text@,
            data: self.data@,
        }
    }
}

impl View for Metadata {
    type V = MetadataView;

    open spec fn view(&self) -> MetadataView {
        MetadataView {
            data_key: self.data_key@,
            program_id: self.program_id@,
            alias: self.alias@,
            version: self.version@,
            cid: self.cid@,
            public_key: self.public_key@,
            loose: self.loose,
        }
    }
}

impl View for MetaContract {
    type V = MetaContractView;

    open spec fn view(&self) -> MetaContractView {
        MetaContractView {
            program_id: self.program_id@,
            public_key: self.public_key@,
            cid: self.cid@,
        }
    }
}

impl Default for TransactionReceipt {
    fn default() -> (r: Self)
        ensures
            r.hash@ == Seq::<char>::empty(),
            r.program_id@ == Seq::<char>::empty(),
            r.status == 0,
            r.timestamp == 0,
            r.error_text@ == Seq::<char>::empty(),
            r.data@ == Seq::<char>::empty(),
    {
        TransactionReceipt {
            hash: String::new(),
            program_id: String::new(),
            status: 0,
            timestamp: 0,
            error_text: String::new(),
            data: String::new(),
        }
    }
}

} // verus!
