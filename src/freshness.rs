//! Single-use session nonces for write-location proofs. A proof is checked
//! only against a nonce that has not been accepted before; once a proof is
//! accepted its nonce is spent.

use vstd::prelude::*;
use crate::discovery::bytes_equal;

verus! {

/// Why a write-location proof was rejected.
#[derive(Debug, Clone, Copy, PartialEq, Eq, Structural)]
pub enum LocationProofError {
    /// The nonce was already spent by an accepted proof.
    ReplayedNonce,
    /// The proof does not verify against the tag and the nonce.
    InvalidProof,
}

/// The spent nonces after a check, and the check's outcome.
pub open spec fn ledger_step(spent: Set<Seq<u8>>, nonce: Seq<u8>, proof_valid: bool) -> (
    Set<Seq<u8>>,
    Result<(), LocationProofError>,
) {
    if spent.contains(nonce) {
        (spent, Err(LocationProofError::ReplayedNonce))
    } else if !proof_valid {
        (spent, Err(LocationProofError::InvalidProof))
    } else {
        (spent.insert(nonce), Ok(()))
    }
}

/// The nonces that accepted proofs have spent.
pub struct NonceLedger {
    spent: Vec<[u8; 4]>,
}

impl NonceLedger {
    pub closed spec fn spent(&self) -> Set<Seq<u8>> {
        self.spent@.map_values(|n: [u8; 4]| n@).to_set()
    }

    /// A ledger with no spent nonce.
    pub fn new() -> (r: Self)
        ensures
            r.spent() == Set::<Seq<u8>>::empty(),
    {
        let r = NonceLedger { spent: Vec::new() };
        assert(r.spent() =~= Set::<Seq<u8>>::empty());
        r
    }

    /// Whether `nonce` has been spent.
    pub fn is_spent(&self, nonce: &[u8; 4]) -> (r: bool)
        ensures
            r == self.spent().contains(nonce@),
    {
        let mut i: usize = 0;
        while i < self.spent.len()
            invariant
                0 <= i <= self.spent@.len(),
                forall|j: int| 0 <= j < i ==> (#[trigger] self.spent@[j])@ != nonce@,
            decreases self.spent@.len() - i,
        {
            if bytes_equal(self.spent[i].as_slice(), nonce.as_slice()) {
                assert(self.spent@.map_values(|n: [u8; 4]| n@)[i as int] == nonce@);
                return true;
            }
            i = i + 1;
        }
        let ghost m = self.spent@.map_values(|n: [u8; 4]| n@);
        assert(!m.contains(nonce@)) by {
            if m.contains(nonce@) {
                let k = choose|k: int| 0 <= k < m.len() && #[trigger] m[k] == nonce@;
                assert(self.spent@[k]@ == nonce@);
            }
        }
        false
    }

    /// Checks a write-location proof made for `nonce`; `proof_valid` is what
    /// verifying the proof against the write tag and the nonce returned. A
    /// spent nonce is rejected whatever the proof; an accepted proof spends
    /// its nonce.
    pub fn check_write_location(&mut self, nonce: [u8; 4], proof_valid: bool) -> (r: Result<
        (),
        LocationProofError,
    >)
        ensures
            (final(self).spent(), r) == ledger_step(old(self).spent(), nonce@, proof_valid),
    {
        if self.is_spent(&nonce) {
            return Err(LocationProofError::ReplayedNonce);
        }
        if !proof_valid {
            return Err(LocationProofError::InvalidProof);
        }
        let ghost before = self.spent@;
        self.spent.push(nonce);
        assert(self.spent@.map_values(|n: [u8; 4]| n@) =~= before.map_values(|n: [u8; 4]| n@).push(
            nonce@,
        ));
        proof {
            before.map_values(|n: [u8; 4]| n@).lemma_push_to_set_commute(nonce@);
        }
        assert(self.spent() =~= old(self).spent().insert(nonce@));
        Ok(())
    }
}

/// A proof accepted with some nonce cannot be replayed: any later check with
/// the same nonce is rejected, whatever the proof, and spends nothing more.
pub proof fn lemma_replay_rejected(
    spent: Set<Seq<u8>>,
    nonce: Seq<u8>,
    first_valid: bool,
    replay_valid: bool,
)
    requires
        ledger_step(spent, nonce, first_valid).1 is Ok,
    ensures
        ledger_step(ledger_step(spent, nonce, first_valid).0, nonce, replay_valid) == (
            ledger_step(spent, nonce, first_valid).0,
            Err::<(), LocationProofError>(LocationProofError::ReplayedNonce),
        ),
{
}

} // verus!
