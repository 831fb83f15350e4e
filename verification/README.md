# trie

Codecs of a key-value store built on a Merkle-Patricia trie, verified with
Verus:

- the RLP encodings of its records (transactions, receipts, metadata, meta
  contracts), with proofs that each record decodes back from its encoding,
  and that a failed decode gives `rlp`'s own error of the first item that
  fails;
- the node codec of a radix-16 trie with extension nodes, with proofs that
  leaves, extensions, branches and the empty node decode back to the parts
  they were made of, that no strict prefix of an encoded node decodes, and
  that every range of a decoded node lies within it;
- the Keccak-256 hasher of the trie.

The round trips hold for fields (and, for records, list payloads) shorter
than 2^32 bytes: `rlp` and the SCALE compact length write lengths as 32-bit
values, so longer ones are not encoded faithfully, and the laws leave them
out.

The byte-level work of the outside crates (`rlp`, `parity-scale-codec`,
`tiny-keccak`, `trie-db`) is reached through small trusted wrappers whose
contracts are stated next to them in `src/`.

Layout:

- `src/` the verified library: `rlp_spec` and `rlp_record` (RLP encodings and
  record layouts), `rlp_io` (the calls into `rlp`), one module per record,
  `codec` (bytes to records and back), `scale` (SCALE compact integers),
  `triedbmut` (the node codec), `node_laws` (its round-trip laws), `keccak`.
- `tests/` tests on concrete values.
- `app/` the implementations of the outside crates' traits (`hash_db::Hasher`,
  `trie_db::NodeCodec`, `trie_db::TrieLayout`, `rlp::Encodable`,
  `rlp::Decodable`) on top of the library.
