//! Commitments: a binding, hiding digest of a board's canonical encoding.

use risc0_zkvm::sha::Sha256;
use vstd::prelude::*;

use crate::board::GameState;
use crate::encoding::state_bytes;

verus! {

/// The number of bytes in a commitment digest.
pub const DIGEST_BYTES: usize = 32;

/// A commitment digest: the SHA-256 hash of a board's canonical encoding.
#[derive(Copy, Clone, Debug)]
pub struct Digest {
    pub bytes: [u8; 32],
}

/// The SHA-256 digest of a byte string, as 32 bytes. The hash itself is
/// computed by an outside implementation; this name stands for its result,
/// which is a function of the input bytes alone.
pub uninterp spec fn digest_of(bytes: Seq<u8>) -> Seq<u8>;

/// Relies on `risc0_zkvm::sha::Impl::hash_bytes`: the SHA-256 digest of the
/// input bytes, 32 bytes that depend on the input bytes alone.
#[verifier::external_body]
fn sha256(bytes: &Vec<u8>) -> (r: Digest)
    ensures
        r.bytes@ == digest_of(bytes@),
{
    let digest = risc0_zkvm::sha::Impl::hash_bytes(bytes.as_slice());
    Digest { bytes: <[u8; 32]>::from(*digest) }
}

/// Commitment determinism: the digest is a function of the canonical
/// encoding alone, so boards with the same ships (hit records included) and
/// the same pepper always commit to the same digest.
pub proof fn lemma_commit_deterministic(
    ships1: Seq<crate::ship::Ship>,
    pepper1: Seq<u8>,
    ships2: Seq<crate::ship::Ship>,
    pepper2: Seq<u8>,
)
    requires
        ships1 == ships2,
        pepper1 == pepper2,
    ensures
        digest_of(state_bytes(ships1, pepper1)) == digest_of(state_bytes(ships2, pepper2)),
{
}

impl PartialEq for Digest {
    fn eq(&self, other: &Digest) -> (r: bool) {
        let mut k: usize = 0;
        while k < DIGEST_BYTES
            invariant
                k <= DIGEST_BYTES,
                forall|j: int| 0 <= j < k ==> self.bytes@[j] == other.bytes@[j],
            decreases DIGEST_BYTES - k,
        {
            if self.bytes[k] != other.bytes[k] {
                return false;
            }
            k = k + 1;
        }
        proof {
            assert(self.bytes@ =~= other.bytes@);
        }
        true
    }
}

impl Eq for Digest {

}

impl vstd::std_specs::cmp::PartialEqSpecImpl for Digest {
    open spec fn obeys_eq_spec() -> bool {
        true
    }

    open spec fn eq_spec(&self, other: &Digest) -> bool {
        self.bytes@ == other.bytes@
    }
}

impl GameState {
    /// The binding, hiding commitment to this board: the digest of its
    /// canonical encoding. Deterministic in the board's exact value,
    /// including hit masks and pepper.
    pub fn commit(&self) -> (r: Digest)
        ensures
            r.bytes@ == digest_of(state_bytes(self.ships@, self.pepper@)),
    {
        let encoded = self.encode();
        sha256(&encoded)
    }
}

} // verus!
