//! The contact book: one record per discovered peer, with the store
//! address and the material of the pair.

use vstd::prelude::*;
use vstd::string::StringSliceAdditionalSpecFns;
use crate::address::{address_of, ADDRESS_DOMAIN};
use crate::directory::same_text;
use crate::discovery::DiscoveryInfo;
use crate::rendezvous::rendezvous_tag;

verus! {

/// Lower-case hexadecimal digit of a value below 16.
pub open spec fn hex_digit(v: u8) -> char {
    if v < 10 {
        ((v + 0x30) as u8) as char
    } else {
        ((v - 10 + 0x61) as u8) as char
    }
}

/// Two lower-case hexadecimal digits per byte, high nibble first.
pub open spec fn hex_of(b: Seq<u8>) -> Seq<char>
    decreases b.len(),
{
    if b.len() == 0 {
        Seq::empty()
    } else {
        hex_of(b.drop_last()).push(hex_digit(b.last() / 16)).push(hex_digit(b.last() % 16))
    }
}

/// Relies on `hex::encode`: two lower-case hexadecimal digits per byte,
/// high nibble first.
#[verifier::external_body]
fn hex_encode(b: &[u8]) -> (r: String)
    ensures
        r@ == hex_of(b@),
{
    hex::encode(b)
}

/// A store address written in hexadecimal.
pub fn address_hex(addr: &[u8; 20]) -> (r: String)
    ensures
        r@ == hex_of(addr@),
{
    hex_encode(addr.as_slice())
}

/// What the client keeps for one peer.
pub struct ContactRecord {
    pub id_string: String,
    pub store_addr: [u8; 20],
    pub own_write_tag: Vec<u8>,
    pub own_read_tag: Vec<u8>,
    pub symmetric_key: Vec<u8>,
    /// The peer's payment address; empty until it is known.
    pub eth_addr: String,
}

/// The mathematical content of a `ContactRecord`.
pub struct ContactView {
    pub id: Seq<char>,
    pub store_addr: Seq<u8>,
    pub own_write_tag: Seq<u8>,
    pub own_read_tag: Seq<u8>,
    pub symmetric_key: Seq<u8>,
    pub eth_addr: Seq<char>,
}

impl View for ContactRecord {
    type V = ContactView;

    open spec fn view(&self) -> ContactView {
        ContactView {
            id: self.id_string@,
            store_addr: self.store_addr@,
            own_write_tag: self.own_write_tag@,
            own_read_tag: self.own_read_tag@,
            symmetric_key: self.symmetric_key@,
            eth_addr: self.eth_addr@,
        }
    }
}

/// Why a change to the contact book was refused.
#[derive(Debug, Clone, Copy, PartialEq, Eq, Structural)]
pub enum ContactError {
    /// The peer is already in the book.
    AlreadyDiscovered,
    /// No contact has that identity or position.
    NoSuchContact,
}

/// Whether some record of `book` has identity `id`.
pub open spec fn has_contact(book: Seq<ContactView>, id: Seq<char>) -> bool {
    exists|i: int| 0 <= i < book.len() && book[i].id == id
}

/// The record kept for the peer of `info`.
pub open spec fn record_of(info: DiscoveryInfo) -> ContactView {
    ContactView {
        id: info.bob_id_string@,
        store_addr: address_of(
            rendezvous_tag(
                info.alice_id_string@,
                info.bob_id_string@,
                info.alice_write_tag@,
                info.alice_read_tag@,
            ),
            ADDRESS_DOMAIN.spec_bytes(),
        ),
        own_write_tag: info.alice_write_tag@,
        own_read_tag: info.alice_read_tag@,
        symmetric_key: info.symmetric_key@,
        eth_addr: Seq::empty(),
    }
}

/// The contacts, in the order they were discovered.
pub struct ContactBook {
    contacts: Vec<ContactRecord>,
}

impl ContactBook {
    pub closed spec fn view_seq(&self) -> Seq<ContactView> {
        self.contacts@.map_values(|c: ContactRecord| c@)
    }

    /// A book holding `contacts`, as read from storage.
    pub fn from_records(contacts: Vec<ContactRecord>) -> (r: Self)
        ensures
            r.view_seq() == contacts@.map_values(|c: ContactRecord| c@),
    {
        ContactBook { contacts }
    }

    /// The records, to be written back to storage.
    pub fn records(&self) -> (r: &Vec<ContactRecord>)
        ensures
            r@.map_values(|c: ContactRecord| c@) == self.view_seq(),
    {
        &self.contacts
    }

    /// The number of contacts.
    pub fn len(&self) -> (r: usize)
        ensures
            r == self.view_seq().len(),
    {
        self.contacts.len()
    }

    /// The position of a contact with identity `id`, if there is one.
    pub fn find(&self, id: &String) -> (r: Option<usize>)
        ensures
            r matches Some(i) ==> (i < self.view_seq().len() && self.view_seq()[i as int].id
                == id@ && forall|j: int| 0 <= j < i ==> self.view_seq()[j].id != id@),
            r is None ==> !has_contact(self.view_seq(), id@),
    {
        let mut i: usize = 0;
        while i < self.contacts.len()
            invariant
                0 <= i <= self.contacts@.len(),
                forall|j: int| 0 <= j < i ==> (#[trigger] self.view_seq()[j]).id != id@,
            decreases self.contacts@.len() - i,
        {
            if same_text(&self.contacts[i].id_string, id) {
                return Some(i);
            }
            i = i + 1;
        }
        None
    }

    /// Adds the peer of a finished discovery, with the store address both
    /// parties resolve; a peer already in the book is refused.
    pub fn add_discovered(&mut self, info: DiscoveryInfo) -> (r: Result<(), ContactError>)
        ensures
            has_contact(old(self).view_seq(), info.bob_id_string@) ==> r == Err::<
                (),
                ContactError,
            >(ContactError::AlreadyDiscovered) && final(self).view_seq() == old(self).view_seq(),
            !has_contact(old(self).view_seq(), info.bob_id_string@) ==> r is Ok
                && final(self).view_seq() == old(self).view_seq().push(record_of(info)),
    {
        if self.find(&info.bob_id_string).is_some() {
            return Err(ContactError::AlreadyDiscovered);
        }
        let store_addr = info.store_address();
        let ghost spec_info = info;
        let DiscoveryInfo {
            alice_id_string: _,
            bob_id_string,
            symmetric_key,
            alice_write_tag,
            alice_read_tag,
        } = info;
        let record = ContactRecord {
            id_string: bob_id_string,
            store_addr,
            own_write_tag: alice_write_tag,
            own_read_tag: alice_read_tag,
            symmetric_key,
            eth_addr: String::new(),
        };
        self.contacts.push(record);
        assert(self.view_seq() =~= old(self).view_seq().push(record_of(spec_info)));
        Ok(())
    }

    /// Removes the contact at `index`.
    pub fn remove(&mut self, index: usize) -> (r: Result<(), ContactError>)
        ensures
            index >= old(self).view_seq().len() ==> r == Err::<(), ContactError>(
                ContactError::NoSuchContact,
            ) && final(self).view_seq() == old(self).view_seq(),
            index < old(self).view_seq().len() ==> r is Ok
                && final(self).view_seq() == old(self).view_seq().remove(index as int),
    {
        if index >= self.contacts.len() {
            return Err(ContactError::NoSuchContact);
        }
        self.contacts.remove(index);
        assert(self.view_seq() =~= old(self).view_seq().remove(index as int));
        Ok(())
    }

    /// Records the payment address of the contact with identity `id`.
    pub fn set_eth_addr(&mut self, id: &String, eth_addr: String) -> (r: Result<(), ContactError>)
        ensures
            !has_contact(old(self).view_seq(), id@) ==> r == Err::<(), ContactError>(
                ContactError::NoSuchContact,
            ) && final(self).view_seq() == old(self).view_seq(),
            has_contact(old(self).view_seq(), id@) ==> r is Ok && exists|i: int|
                0 <= i < old(self).view_seq().len() && old(self).view_seq()[i].id == id@ && (forall|
                    j: int,
                | 0 <= j < i ==> old(self).view_seq()[j].id != id@) && final(self).view_seq()
                    == old(self).view_seq().update(
                    i,
                    ContactView { eth_addr: eth_addr@, ..old(self).view_seq()[i] },
                ),
    {
        match self.find(id) {
            Some(i) => {
                self.contacts[i].eth_addr = eth_addr;
                assert(self.view_seq() =~= old(self).view_seq().update(
                    i as int,
                    ContactView { eth_addr: eth_addr@, ..old(self).view_seq()[i as int] },
                ));
                Ok(())
            },
            None => Err(ContactError::NoSuchContact),
        }
    }
}

} // verus!
