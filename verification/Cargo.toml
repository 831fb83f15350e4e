[package]
name = "trie"
version = "0.1.0"
edition = "2021"
publish = false

[dependencies]
rlp = "0.5"
trie-db = "0.28"
hash-db = "0.16"
parity-scale-codec = "3"
tiny-keccak = { version = "2", features = ["keccak"] }
hash256-std-hasher = "0.15"

[dev-dependencies]
