use trie::codec::{MetaContractCodec, MetadataCodec, TransactionCodec, TransactionReceiptCodec};
use trie::rlp_io::RlpError;
use trie::state::{MetaContract, Metadata, Transaction, TransactionReceipt};

fn metadata() -> Metadata {
    Metadata {
        data_key: "dk".to_string(),
        program_id: "pid".to_string(),
        alias: "al".to_string(),
        version: "1.0".to_string(),
        cid: "cid".to_string(),
        public_key: "pk".to_string(),
        loose: 7,
    }
}

fn transaction() -> Transaction {
    Transaction {
        hash: "0xabc".to_string(),
        method: "put".to_string(),
        program_id: "pid".to_string(),
        data_key: "key".to_string(),
        data: "value".to_string(),
        public_key: "pk".to_string(),
        alias: "alias".to_string(),
        timestamp: 1700000000,
        version: "v1".to_string(),
    }
}

fn receipt() -> TransactionReceipt {
    TransactionReceipt {
        hash: "h".to_string(),
        program_id: "pid".to_string(),
        status: 1,
        timestamp: 1700000000,
        error_text: String::new(),
        data: "data".to_string(),
    }
}

fn contract() -> MetaContract {
    MetaContract { program_id: "p".to_string(), public_key: "k".to_string(), cid: "c".to_string() }
}

fn same_metadata(a: &Metadata, b: &Metadata) -> bool {
    a.data_key == b.data_key
        && a.program_id == b.program_id
        && a.alias == b.alias
        && a.version == b.version
        && a.cid == b.cid
        && a.public_key == b.public_key
        && a.loose == b.loose
}

fn same_transaction(a: &Transaction, b: &Transaction) -> bool {
    a.hash == b.hash
        && a.method == b.method
        && a.program_id == b.program_id
        && a.data_key == b.data_key
        && a.data == b.data
        && a.public_key == b.public_key
        && a.alias == b.alias
        && a.timestamp == b.timestamp
        && a.version == b.version
}

fn same_receipt(a: &TransactionReceipt, b: &TransactionReceipt) -> bool {
    a.hash == b.hash
        && a.program_id == b.program_id
        && a.status == b.status
        && a.timestamp == b.timestamp
        && a.error_text == b.error_text
        && a.data == b.data
}

fn same_contract(a: &MetaContract, b: &MetaContract) -> bool {
    a.program_id == b.program_id && a.public_key == b.public_key && a.cid == b.cid
}

#[test]
fn metadata_encoding_bytes() {
    let bytes = MetadataCodec::encode(&metadata());
    assert_eq!(
        bytes,
        vec![
            214, 130, 100, 107, 131, 112, 105, 100, 130, 97, 108, 131, 49, 46, 48, 131, 99, 105,
            100, 130, 112, 107, 7
        ]
    );
}

#[test]
fn metadata_roundtrip() {
    let m = metadata();
    let decoded = MetadataCodec::decode(&MetadataCodec::encode(&m)).unwrap();
    assert!(same_metadata(&decoded, &m));
}

#[test]
fn meta_contract_encoding_bytes() {
    assert_eq!(MetaContractCodec::encode(&contract()), vec![195, 112, 107, 99]);
}

#[test]
fn meta_contract_roundtrip() {
    let c = contract();
    let decoded = MetaContractCodec::decode(&MetaContractCodec::encode(&c)).unwrap();
    assert!(same_contract(&decoded, &c));
}

#[test]
fn meta_contract_long_field_roundtrip() {
    let c = MetaContract {
        program_id: "x".repeat(60),
        public_key: "k".to_string(),
        cid: "c".to_string(),
    };
    let bytes = MetaContractCodec::encode(&c);
    assert_eq!(bytes.len(), 66);
    assert_eq!(&bytes[..4], &[248, 64, 184, 60]);
    let decoded = MetaContractCodec::decode(&bytes).unwrap();
    assert!(same_contract(&decoded, &c));
}

#[test]
fn receipt_encoding_bytes() {
    assert_eq!(
        TransactionReceiptCodec::encode(&receipt()),
        vec![209, 104, 131, 112, 105, 100, 1, 132, 101, 83, 241, 0, 128, 132, 100, 97, 116, 97]
    );
}

#[test]
fn receipt_roundtrip() {
    let r = receipt();
    let decoded = TransactionReceiptCodec::decode(&TransactionReceiptCodec::encode(&r)).unwrap();
    assert!(same_receipt(&decoded, &r));
}

#[test]
fn default_receipt_roundtrip() {
    let r = TransactionReceipt::default();
    assert_eq!(r.status, 0);
    assert_eq!(r.timestamp, 0);
    assert!(r.hash.is_empty() && r.program_id.is_empty() && r.error_text.is_empty());
    let bytes = TransactionReceiptCodec::encode(&r);
    assert_eq!(bytes, vec![198, 128, 128, 128, 128, 128, 128]);
    let decoded = TransactionReceiptCodec::decode(&bytes).unwrap();
    assert!(same_receipt(&decoded, &r));
}

#[test]
fn transaction_version_follows_the_list() {
    let bytes = TransactionCodec::encode(&transaction());
    assert_eq!(
        bytes,
        vec![
            230, 133, 48, 120, 97, 98, 99, 131, 112, 117, 116, 131, 112, 105, 100, 131, 107, 101,
            121, 133, 118, 97, 108, 117, 101, 130, 112, 107, 133, 97, 108, 105, 97, 115, 132, 101,
            83, 241, 0, 130, 118, 49
        ]
    );
}

#[test]
fn transaction_roundtrip() {
    let t = transaction();
    let decoded = TransactionCodec::decode(&TransactionCodec::encode(&t)).unwrap();
    assert!(same_transaction(&decoded, &t));
}

#[test]
fn decode_empty_input_is_no_list() {
    assert!(matches!(MetaContractCodec::decode(&[]), Err(RlpError::RlpExpectedToBeList)));
}

#[test]
fn decode_data_item_is_no_list() {
    assert!(matches!(MetadataCodec::decode(&[0x80]), Err(RlpError::RlpExpectedToBeList)));
}

#[test]
fn decode_truncated_list_is_too_short() {
    assert!(matches!(MetaContractCodec::decode(&[0xc5, 0x80]), Err(RlpError::RlpIsTooShort)));
}

#[test]
fn decode_missing_item_is_too_short() {
    assert!(matches!(MetaContractCodec::decode(&[0xc2, b'a', b'b']), Err(RlpError::RlpIsTooShort)));
}

#[test]
fn decode_invalid_utf8_is_no_data() {
    assert!(matches!(
        MetaContractCodec::decode(&[0xc4, 0x81, 0xff, b'k', b'c']),
        Err(RlpError::RlpExpectedToBeData)
    ));
}

#[test]
fn decode_integer_with_leading_zero() {
    let bytes = [0xc8, b'h', b'p', 0x82, 0x00, 0x01, 0x01, 0x80, 0x80];
    assert!(matches!(TransactionReceiptCodec::decode(&bytes), Err(RlpError::RlpInvalidIndirection)));
}

#[test]
fn records_append_inside_an_open_list() {
    let mut s = rlp::RlpStream::new_list(2);
    contract().rlp_append(&mut s);
    contract().rlp_append(&mut s);
    assert_eq!(s.out().to_vec(), vec![0xc8, 195, 112, 107, 99, 195, 112, 107, 99]);
}

#[test]
fn transaction_appends_two_items() {
    let encoded = TransactionCodec::encode(&transaction());
    assert_eq!(encoded.len(), 42);
    let mut s = rlp::RlpStream::new_list(2);
    transaction().rlp_append(&mut s);
    let out = s.out().to_vec();
    assert_eq!(out[0], 0xc0 + 42);
    assert_eq!(&out[1..], &encoded[..]);
}

#[test]
fn decode_from_an_rlp_view() {
    let bytes = MetadataCodec::encode(&metadata());
    let mut view = rlp::Rlp::new(&bytes);
    let m = Metadata::decode(&mut view).unwrap();
    assert!(same_metadata(&m, &metadata()));
}
