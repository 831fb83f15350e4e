use std::collections::HashMap;

use hash256_std_hasher::Hash256StdHasher;
use trie::keccak::{KeccakHash, KeccakHasher};

fn hex(bytes: &[u8]) -> String {
    let mut out = String::new();
    for b in bytes {
        out.push_str(&format!("{:02x}", b));
    }
    out
}

#[test]
fn hash256_std_hasher_works() {
    let hello_bytes = b"Hello world!";
    let hello_key = KeccakHasher::hash(hello_bytes);

    let mut h: HashMap<KeccakHash, Vec<u8>> = Default::default();
    h.insert(hello_key, hello_bytes.to_vec());
    h.remove(&hello_key);

    let mut h: HashMap<KeccakHash, Vec<u8>, std::hash::BuildHasherDefault<Hash256StdHasher>> =
        Default::default();
    h.insert(hello_key, hello_bytes.to_vec());
    h.remove(&hello_key);
}

#[test]
fn keccak_of_empty_input() {
    assert_eq!(
        hex(&KeccakHasher::hash(b"")),
        "c5d2460186f7233c927e7db2dcc703c0e500b653ca82273b7bfad8045d85a470"
    );
}

#[test]
fn keccak_of_hello_world() {
    assert_eq!(
        hex(&KeccakHasher::hash(b"Hello world!")),
        "ecd0e108a98e192af1d2c25055f4e3bed784b5c877204e73219a5203251feaab"
    );
}

#[test]
fn keccak_digest_length() {
    assert_eq!(KeccakHasher::LENGTH, 32);
    assert_eq!(KeccakHasher::hash(b"abc").len(), KeccakHasher::LENGTH);
}
