//! Dead-drop slots: one slot per store address, overwritten by the next
//! write, read back and then freed. Decryption is done by the caller; what
//! it returned decides whether the slot may be freed.

use vstd::prelude::*;
use vstd::slice::slice_to_vec;
use crate::discovery::bytes_equal;

verus! {

/// The content of a slot: a ciphertext and its initialisation vector.
pub struct Envelope {
    pub ciphertext: Vec<u8>,
    pub iv: Vec<u8>,
}

impl View for Envelope {
    type V = (Seq<u8>, Seq<u8>);

    open spec fn view(&self) -> (Seq<u8>, Seq<u8>) {
        (self.ciphertext@, self.iv@)
    }
}

impl Envelope {
    pub fn new(ciphertext: Vec<u8>, iv: Vec<u8>) -> (r: Self)
        ensures
            r@ == (ciphertext@, iv@),
    {
        Envelope { ciphertext, iv }
    }

    /// A copy of the envelope.
    pub fn duplicate(&self) -> (r: Self)
        ensures
            r@ == self@,
    {
        Envelope {
            ciphertext: slice_to_vec(self.ciphertext.as_slice()),
            iv: slice_to_vec(self.iv.as_slice()),
        }
    }
}

/// Why a read did not deliver a message.
#[derive(Debug, Clone, Copy, PartialEq, Eq, Structural)]
pub enum ReadError {
    /// Nothing is stored at the address.
    EmptySlot,
    /// The stored ciphertext did not decrypt under the pair's key and tag.
    DecryptFailed,
}

/// What to do once the fetched envelope has been through decryption: a
/// message that decrypted is delivered and its slot freed; a failure is
/// reported and the slot is left as it is, since freeing it would lose the
/// message for good.
pub fn read_decision(decrypted: Option<Vec<u8>>) -> (r: (Result<Vec<u8>, ReadError>, bool))
    ensures
        decrypted matches Some(m) ==> (r.0 matches Ok(v) && v@ == m@),
        decrypted is None ==> r.0 == Err::<Vec<u8>, ReadError>(ReadError::DecryptFailed),
        r.1 == decrypted is Some,
{
    match decrypted {
        Some(m) => (Ok(m), true),
        None => (Err(ReadError::DecryptFailed), false),
    }
}

/// A local dead-drop store: the slots, keyed by 20-byte address.
pub struct DeadDropStore {
    slots: Vec<([u8; 20], Envelope)>,
}

/// No two slots share an address.
pub open spec fn addresses_unique(s: Seq<([u8; 20], Envelope)>) -> bool {
    forall|i: int, j: int| 0 <= i < s.len() && 0 <= j < s.len() && i != j ==> s[i].0@ != s[j].0@
}

/// The slots as a map from address to envelope.
pub open spec fn slots_map(s: Seq<([u8; 20], Envelope)>) -> Map<Seq<u8>, (Seq<u8>, Seq<u8>)>
    decreases s.len(),
{
    if s.len() == 0 {
        Map::empty()
    } else {
        slots_map(s.drop_last()).insert(s.last().0@, s.last().1@)
    }
}

proof fn lemma_slots_map_key(s: Seq<([u8; 20], Envelope)>, a: Seq<u8>)
    ensures
        slots_map(s).contains_key(a) <==> exists|i: int| 0 <= i < s.len() && s[i].0@ == a,
    decreases s.len(),
{
    if s.len() > 0 {
        let t = s.drop_last();
        lemma_slots_map_key(t, a);
        if exists|i: int| 0 <= i < t.len() && t[i].0@ == a {
            let i = choose|i: int| 0 <= i < t.len() && t[i].0@ == a;
            assert(s[i] == t[i]);
        }
        if exists|i: int| 0 <= i < s.len() && s[i].0@ == a {
            let i = choose|i: int| 0 <= i < s.len() && s[i].0@ == a;
            if i < s.len() - 1 {
                assert(t[i] == s[i]);
            }
        }
    }
}

proof fn lemma_slots_map_at(s: Seq<([u8; 20], Envelope)>, i: int)
    requires
        addresses_unique(s),
        0 <= i < s.len(),
    ensures
        slots_map(s).contains_key(s[i].0@),
        slots_map(s)[s[i].0@] == s[i].1@,
    decreases s.len(),
{
    if i < s.len() - 1 {
        let t = s.drop_last();
        assert(t[i] == s[i]);
        assert(addresses_unique(t)) by {
            assert forall|p: int, q: int|
                0 <= p < t.len() && 0 <= q < t.len() && p != q implies t[p].0@ != t[q].0@ by {
                assert(t[p] == s[p] && t[q] == s[q]);
            }
        }
        lemma_slots_map_at(t, i);
        assert(s[i].0@ != s.last().0@);
    }
}

proof fn lemma_slots_map_update(s: Seq<([u8; 20], Envelope)>, i: int, k: [u8; 20], e: Envelope)
    requires
        addresses_unique(s),
        0 <= i < s.len(),
        k@ == s[i].0@,
    ensures
        slots_map(s.update(i, (k, e))) == slots_map(s).insert(k@, e@),
        addresses_unique(s.update(i, (k, e))),
    decreases s.len(),
{
    let u = s.update(i, (k, e));
    if i == s.len() - 1 {
        assert(u.drop_last() =~= s.drop_last());
        assert(slots_map(u) =~= slots_map(s).insert(k@, e@));
    } else {
        let t = s.drop_last();
        assert(u.drop_last() =~= t.update(i, (k, e)));
        assert(addresses_unique(t)) by {
            assert forall|p: int, q: int|
                0 <= p < t.len() && 0 <= q < t.len() && p != q implies t[p].0@ != t[q].0@ by {
                assert(t[p] == s[p] && t[q] == s[q]);
            }
        }
        assert(t[i] == s[i]);
        lemma_slots_map_update(t, i, k, e);
        assert(s[i].0@ != s.last().0@);
        assert(u.last() == s.last());
        assert(slots_map(u) =~= slots_map(s).insert(k@, e@));
    }
    assert forall|p: int, q: int|
        0 <= p < u.len() && 0 <= q < u.len() && p != q implies u[p].0@ != u[q].0@ by {
        assert(u[p].0@ == s[p].0@ && u[q].0@ == s[q].0@);
    }
}

proof fn lemma_slots_map_remove(s: Seq<([u8; 20], Envelope)>, i: int)
    requires
        addresses_unique(s),
        0 <= i < s.len(),
    ensures
        slots_map(s.remove(i)) == slots_map(s).remove(s[i].0@),
        addresses_unique(s.remove(i)),
    decreases s.len(),
{
    let r = s.remove(i);
    assert forall|p: int, q: int|
        0 <= p < r.len() && 0 <= q < r.len() && p != q implies r[p].0@ != r[q].0@ by {
        let pp = if p < i { p } else { p + 1 };
        let qq = if q < i { q } else { q + 1 };
        assert(r[p] == s[pp] && r[q] == s[qq]);
    }
    if i == s.len() - 1 {
        assert(r =~= s.drop_last());
        lemma_slots_map_key(s.drop_last(), s[i].0@);
        assert(!slots_map(s.drop_last()).contains_key(s[i].0@)) by {
            if slots_map(s.drop_last()).contains_key(s[i].0@) {
                let k = choose|k: int|
                    0 <= k < s.drop_last().len() && s.drop_last()[k].0@ == s[i].0@;
                assert(s.drop_last()[k] == s[k]);
            }
        }
        assert(slots_map(r) =~= slots_map(s).remove(s[i].0@));
    } else {
        let t = s.drop_last();
        assert(r.drop_last() =~= t.remove(i));
        assert(r.last() == s.last());
        assert(addresses_unique(t)) by {
            assert forall|p: int, q: int|
                0 <= p < t.len() && 0 <= q < t.len() && p != q implies t[p].0@ != t[q].0@ by {
                assert(t[p] == s[p] && t[q] == s[q]);
            }
        }
        lemma_slots_map_remove(t, i);
        assert(t[i] == s[i]);
        assert(s[i].0@ != s.last().0@);
        assert(slots_map(r) =~= slots_map(s).remove(s[i].0@));
    }
}

/// Whether two addresses are equal.
fn same_address(a: &[u8; 20], b: &[u8; 20]) -> (r: bool)
    ensures
        r == (a@ == b@),
{
    bytes_equal(a.as_slice(), b.as_slice())
}

impl DeadDropStore {
    /// The slots, as a map from address to (ciphertext, iv).
    pub closed spec fn slots(&self) -> Map<Seq<u8>, (Seq<u8>, Seq<u8>)> {
        slots_map(self.slots@)
    }

    /// Every address holds at most one slot.
    pub closed spec fn wf(&self) -> bool {
        addresses_unique(self.slots@)
    }

    /// A store with no slot.
    pub fn new() -> (r: Self)
        ensures
            r.wf(),
            r.slots() == Map::<Seq<u8>, (Seq<u8>, Seq<u8>)>::empty(),
    {
        DeadDropStore { slots: Vec::new() }
    }

    fn position(&self, addr: &[u8; 20]) -> (r: Option<usize>)
        requires
            self.wf(),
        ensures
            r matches Some(i) ==> i < self.slots@.len() && self.slots@[i as int].0@ == addr@,
            r is None ==> !self.slots().contains_key(addr@),
    {
        let mut i: usize = 0;
        while i < self.slots.len()
            invariant
                0 <= i <= self.slots@.len(),
                forall|j: int| 0 <= j < i ==> (#[trigger] self.slots@[j]).0@ != addr@,
            decreases self.slots@.len() - i,
        {
            if same_address(&self.slots[i].0, addr) {
                return Some(i);
            }
            i = i + 1;
        }
        proof {
            lemma_slots_map_key(self.slots@, addr@);
        }
        None
    }

    /// Stores an envelope at `addr`, replacing whatever was there.
    pub fn write(&mut self, addr: [u8; 20], envelope: Envelope)
        requires
            old(self).wf(),
        ensures
            final(self).wf(),
            final(self).slots() == old(self).slots().insert(addr@, envelope@),
    {
        match self.position(&addr) {
            Some(i) => {
                proof {
                    lemma_slots_map_update(self.slots@, i as int, addr, envelope);
                }
                self.slots[i] = (addr, envelope);
            },
            None => {
                proof {
                    lemma_slots_map_key(self.slots@, addr@);
                }
                let ghost before = self.slots@;
                self.slots.push((addr, envelope));
                proof {
                    assert(self.slots@.drop_last() =~= before);
                    assert forall|p: int, q: int|
                        0 <= p < self.slots@.len() && 0 <= q < self.slots@.len() && p
                            != q implies self.slots@[p].0@ != self.slots@[q].0@ by {
                        if p < before.len() && q < before.len() {
                            assert(self.slots@[p] == before[p] && self.slots@[q] == before[q]);
                        } else if p < before.len() {
                            assert(self.slots@[p] == before[p]);
                        } else if q < before.len() {
                            assert(self.slots@[q] == before[q]);
                        }
                    }
                }
            },
        }
    }

    /// The envelope stored at `addr`, if any; the store is left unchanged.
    pub fn read(&self, addr: &[u8; 20]) -> (r: Result<Envelope, ReadError>)
        requires
            self.wf(),
        ensures
            self.slots().contains_key(addr@) ==> (r matches Ok(e) && e@ == self.slots()[addr@]),
            !self.slots().contains_key(addr@) ==> r == Err::<Envelope, ReadError>(
                ReadError::EmptySlot,
            ),
    {
        match self.position(addr) {
            Some(i) => {
                proof {
                    lemma_slots_map_at(self.slots@, i as int);
                }
                Ok(self.slots[i].1.duplicate())
            },
            None => Err(ReadError::EmptySlot),
        }
    }

    /// Frees the slot at `addr`. Freeing an empty slot changes nothing and
    /// is no error; the result says whether a slot was freed.
    pub fn delete(&mut self, addr: &[u8; 20]) -> (r: bool)
        requires
            old(self).wf(),
        ensures
            final(self).wf(),
            final(self).slots() == old(self).slots().remove(addr@),
            r == old(self).slots().contains_key(addr@),
    {
        match self.position(addr) {
            Some(i) => {
                proof {
                    lemma_slots_map_remove(self.slots@, i as int);
                    lemma_slots_map_at(self.slots@, i as int);
                }
                self.slots.remove(i);
                true
            },
            None => {
                assert(self.slots().remove(addr@) =~= self.slots());
                false
            },
        }
    }

    /// Finishes a read of `addr` once the fetched envelope has been through
    /// decryption: on success the message is returned and the slot freed; on
    /// failure the error is returned and the store is left as it was.
    pub fn complete_read(&mut self, addr: &[u8; 20], decrypted: Option<Vec<u8>>) -> (r: Result<
        Vec<u8>,
        ReadError,
    >)
        requires
            old(self).wf(),
        ensures
            final(self).wf(),
            decrypted matches Some(m) ==> (r matches Ok(v) && v@ == m@ && final(self).slots()
                == old(self).slots().remove(addr@)),
            decrypted is None ==> r == Err::<Vec<u8>, ReadError>(ReadError::DecryptFailed)
                && final(self).slots() == old(self).slots(),
    {
        let (outcome, free_slot) = read_decision(decrypted);
        if free_slot {
            self.delete(addr);
        }
        outcome
    }
}

/// Freeing a slot twice is the same as freeing it once, and freeing an
/// empty slot leaves the store as it was.
pub proof fn lemma_delete_idempotent(slots: Map<Seq<u8>, (Seq<u8>, Seq<u8>)>, addr: Seq<u8>)
    ensures
        slots.remove(addr).remove(addr) == slots.remove(addr),
        !slots.contains_key(addr) ==> slots.remove(addr) == slots,
{
    assert(slots.remove(addr).remove(addr) =~= slots.remove(addr));
    if !slots.contains_key(addr) {
        assert(slots.remove(addr) =~= slots);
    }
}

/// Of two writes to one address with no read in between, the second is what
/// the slot holds: the first is lost.
pub proof fn lemma_second_write_wins(
    slots: Map<Seq<u8>, (Seq<u8>, Seq<u8>)>,
    addr: Seq<u8>,
    first: (Seq<u8>, Seq<u8>),
    second: (Seq<u8>, Seq<u8>),
)
    ensures
        slots.insert(addr, first).insert(addr, second) == slots.insert(addr, second),
        slots.insert(addr, first).insert(addr, second)[addr] == second,
{
    assert(slots.insert(addr, first).insert(addr, second) =~= slots.insert(addr, second));
}

} // verus!
