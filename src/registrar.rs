//! The registration authority's bookkeeping: an attestation is issued once
//! per identity and never again.

use vstd::prelude::*;
use crate::directory::same_text;

verus! {

/// Why a registration was refused.
#[derive(Debug, Clone, Copy, PartialEq, Eq, Structural)]
pub enum RegistrationError {
    /// An attestation was already issued for the identity.
    AlreadyRegistered,
}

/// The identities that have received an attestation.
pub struct RegistrarLedger {
    registered: Vec<String>,
}

impl RegistrarLedger {
    pub closed spec fn registered(&self) -> Set<Seq<char>> {
        self.registered@.map_values(|s: String| s@).to_set()
    }

    /// A ledger in which no identity is registered.
    pub fn new() -> (r: Self)
        ensures
            r.registered() == Set::<Seq<char>>::empty(),
    {
        let r = RegistrarLedger { registered: Vec::new() };
        assert(r.registered() =~= Set::<Seq<char>>::empty());
        r
    }

    /// Whether `id` has received an attestation.
    pub fn is_registered(&self, id: &String) -> (r: bool)
        ensures
            r == self.registered().contains(id@),
    {
        let ghost m = self.registered@.map_values(|s: String| s@);
        let mut i: usize = 0;
        while i < self.registered.len()
            invariant
                0 <= i <= self.registered@.len(),
                m == self.registered@.map_values(|s: String| s@),
                forall|j: int| 0 <= j < i ==> (#[trigger] self.registered@[j])@ != id@,
            decreases self.registered@.len() - i,
        {
            if same_text(&self.registered[i], id) {
                assert(m[i as int] == id@);
                return true;
            }
            i = i + 1;
        }
        assert(!m.contains(id@)) by {
            if m.contains(id@) {
                let k = choose|k: int| 0 <= k < m.len() && #[trigger] m[k] == id@;
                assert(self.registered@[k]@ == id@);
            }
        }
        false
    }

    /// Registers `id` for an attestation: refused when one was already issued,
    /// recorded otherwise.
    pub fn register(&mut self, id: String) -> (r: Result<(), RegistrationError>)
        ensures
            old(self).registered().contains(id@) ==> r == Err::<(), RegistrationError>(
                RegistrationError::AlreadyRegistered,
            ) && final(self).registered() == old(self).registered(),
            !old(self).registered().contains(id@) ==> r is Ok
                && final(self).registered() == old(self).registered().insert(id@),
    {
        if self.is_registered(&id) {
            return Err(RegistrationError::AlreadyRegistered);
        }
        let ghost before = self.registered@;
        let ghost v = id@;
        self.registered.push(id);
        proof {
            before.map_values(|s: String| s@).lemma_push_to_set_commute(v);
        }
        assert(self.registered@.map_values(|s: String| s@) =~= before.map_values(|s: String| s@).push(
            v,
        ));
        Ok(())
    }
}

} // verus!
