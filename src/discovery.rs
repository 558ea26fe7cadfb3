//! Contact discovery: the per-pair material that one party keeps for a
//! peer, checked for tag symmetry before it is accepted.

use vstd::prelude::*;
use vstd::string::StringSliceAdditionalSpecFns;
use crate::address::{address_of, ADDRESS_DOMAIN};
use crate::rendezvous::{precedes, rendezvous_tag};

verus! {

/// Why the handshake material of a pair was refused.
#[derive(Debug, PartialEq, Eq, Structural)]
pub enum HandshakeError {
    /// Our write tag is not the tag the peer reads with.
    WriteTagMismatch,
    /// Our read tag is not the tag the peer writes with.
    ReadTagMismatch,
}

/// Whether two byte strings are equal.
pub fn bytes_equal(a: &[u8], b: &[u8]) -> (r: bool)
    ensures
        r == (a@ == b@),
{
    if a.len() != b.len() {
        return false;
    }
    let mut i: usize = 0;
    while i < a.len()
        invariant
            a@.len() == b@.len(),
            0 <= i <= a@.len(),
            forall|j: int| 0 <= j < i ==> a@[j] == b@[j],
        decreases a@.len() - i,
    {
        if a[i] != b[i] {
            return false;
        }
        i = i + 1;
    }
    assert(a@ =~= b@);
    true
}

/// What one party (here called alice) keeps for a peer (bob) after the
/// identity-based key exchange and the handshake: the symmetric key and
/// alice's own write and read tags, each tag in its canonical serialization.
pub struct DiscoveryInfo {
    pub alice_id_string: String,
    pub bob_id_string: String,
    pub symmetric_key: Vec<u8>,
    pub alice_write_tag: Vec<u8>,
    pub alice_read_tag: Vec<u8>,
}

/// The same material under the name the chat front end uses.
pub type Arke = DiscoveryInfo;

impl DiscoveryInfo {
    /// Accepts the handshake material that alice derived for the pair
    /// (alice, bob), given also the two tags derived on bob's behalf from the
    /// same shared seed. It is accepted exactly when alice's write tag is
    /// bob's read tag and alice's read tag is bob's write tag.
    pub fn id_nike_and_handshake(
        alice_id_string: String,
        bob_id_string: String,
        symmetric_key: Vec<u8>,
        alice_write_tag: Vec<u8>,
        alice_read_tag: Vec<u8>,
        bob_write_tag: &Vec<u8>,
        bob_read_tag: &Vec<u8>,
    ) -> (r: Result<Self, HandshakeError>)
        ensures
            alice_write_tag@ != bob_read_tag@ ==> r == Err::<Self, HandshakeError>(
                HandshakeError::WriteTagMismatch,
            ),
            alice_write_tag@ == bob_read_tag@ && alice_read_tag@ != bob_write_tag@ ==> r == Err::<
                Self,
                HandshakeError,
            >(HandshakeError::ReadTagMismatch),
            r is Ok <==> (alice_write_tag@ == bob_read_tag@ && alice_read_tag@ == bob_write_tag@),
            r matches Ok(info) ==> {
                &&& info.alice_id_string@ == alice_id_string@
                &&& info.bob_id_string@ == bob_id_string@
                &&& info.symmetric_key@ == symmetric_key@
                &&& info.alice_write_tag@ == alice_write_tag@
                &&& info.alice_read_tag@ == alice_read_tag@
                &&& info.alice_write_tag@ == bob_read_tag@
                &&& info.alice_read_tag@ == bob_write_tag@
            },
    {
        if !bytes_equal(alice_write_tag.as_slice(), bob_read_tag.as_slice()) {
            return Err(HandshakeError::WriteTagMismatch);
        }
        if !bytes_equal(alice_read_tag.as_slice(), bob_write_tag.as_slice()) {
            return Err(HandshakeError::ReadTagMismatch);
        }
        Ok(DiscoveryInfo {
            alice_id_string,
            bob_id_string,
            symmetric_key,
            alice_write_tag,
            alice_read_tag,
        })
    }

    /// The store address of a serialized tag.
    pub fn to_address(a: &Vec<u8>) -> (r: [u8; 20])
        ensures
            r@ == address_of(a@, ADDRESS_DOMAIN.spec_bytes()),
    {
        crate::address::to_address(a)
    }

    /// The tag whose address the pair shares: alice's write tag when alice's
    /// identity comes first, her read tag otherwise.
    pub fn store_tag(&self) -> (r: &Vec<u8>)
        ensures
            r@ == rendezvous_tag(
                self.alice_id_string@,
                self.bob_id_string@,
                self.alice_write_tag@,
                self.alice_read_tag@,
            ),
    {
        if precedes(self.alice_id_string.as_str(), self.bob_id_string.as_str()) {
            &self.alice_write_tag
        } else {
            &self.alice_read_tag
        }
    }

    /// The store address that both parties of the pair use.
    pub fn store_address(&self) -> (r: [u8; 20])
        ensures
            r@ == address_of(
                rendezvous_tag(
                    self.alice_id_string@,
                    self.bob_id_string@,
                    self.alice_write_tag@,
                    self.alice_read_tag@,
                ),
                ADDRESS_DOMAIN.spec_bytes(),
            ),
    {
        Self::to_address(self.store_tag())
    }
}

} // verus!
