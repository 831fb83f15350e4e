//! The Keccak-256 hasher of the trie, computed by `tiny_keccak`.

use vstd::prelude::*;
use tiny_keccak::{Hasher, Keccak};

verus! {

/// The `Keccak` hash output type.
pub type KeccakHash = [u8; 32];

#[verifier::external_type_specification]
#[verifier::external_body]
pub struct ExKeccak(Keccak);

/// The bytes that a `tiny_keccak::Keccak` state has absorbed so far.
pub uninterp spec fn keccak_absorbed(state: Keccak) -> Seq<u8>;

/// The Keccak-256 digest that `tiny_keccak` computes of `data`.
pub uninterp spec fn keccak256(data: Seq<u8>) -> Seq<u8>;

/// `Keccak::v256` of `tiny_keccak`: a fresh Keccak-256 state, which has
/// absorbed nothing.
#[verifier::external_body]
fn keccak_v256() -> (state: Keccak)
    ensures
        keccak_absorbed(state) == Seq::<u8>::empty(),
{
    Keccak::v256()
}

/// `Hasher::update` of `tiny_keccak` on a `Keccak` state: absorbs `data`
/// after what the state has absorbed before.
#[verifier::external_body]
fn keccak_update(state: &mut Keccak, data: &[u8])
    ensures
        keccak_absorbed(*final(state)) == keccak_absorbed(*old(state)) + data@,
{
    state.update(data)
}

/// `Hasher::finalize` of `tiny_keccak` on a `Keccak` state: writes the
/// digest of all that the state has absorbed into `output`.
#[verifier::external_body]
fn keccak_finalize(state: Keccak, output: &mut [u8; 32])
    ensures
        final(output)@ == keccak256(keccak_absorbed(state)),
{
    state.finalize(output)
}

/// The Keccak-256 hasher of the trie.
pub struct KeccakHasher;

impl KeccakHasher {
    /// Length in bytes of a digest.
    pub const LENGTH: usize = 32;

    /// The Keccak-256 digest of `data`.
    pub fn hash(data: &[u8]) -> (out: KeccakHash)
        ensures
            out@ == keccak256(data@),
    {
        let mut output: [u8; 32] = [0u8; 32];
        let mut keccak = keccak_v256();
        keccak_update(&mut keccak, data);
        assert(keccak_absorbed(keccak) =~= data@);
        keccak_finalize(keccak, &mut output);
        output
    }
}

} // verus!
