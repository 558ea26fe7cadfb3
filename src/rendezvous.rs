//! The rendezvous resolver: both parties of a pair pick the same tag, and so
//! the same store address, from public information alone.

use vstd::prelude::*;
use vstd::utf8::{encode_utf8, encode_utf8_decode_utf8};
use vstd::string::StringSliceAdditionalSpecFns;
use crate::address::{address_of, ADDRESS_DOMAIN};

verus! {

/// Lexicographic order on byte strings, looking from position `i` on.
pub open spec fn bytes_less_from(a: Seq<u8>, b: Seq<u8>, i: int) -> bool
    decreases a.len() - i,
{
    if i < 0 || i >= b.len() {
        false
    } else if i >= a.len() {
        true
    } else if a[i] != b[i] {
        a[i] < b[i]
    } else {
        bytes_less_from(a, b, i + 1)
    }
}

/// Identity `a` comes before identity `b`: their UTF-8 encodings compare
/// lexicographically, byte by byte.
pub open spec fn id_precedes(a: Seq<char>, b: Seq<char>) -> bool {
    bytes_less_from(encode_utf8(a), encode_utf8(b), 0)
}

/// The tag whose address a party uses for the pair (`self_id`, `peer_id`):
/// its write tag when it comes first, its read tag otherwise.
pub open spec fn rendezvous_tag(
    self_id: Seq<char>,
    peer_id: Seq<char>,
    write_tag: Seq<u8>,
    read_tag: Seq<u8>,
) -> Seq<u8> {
    if id_precedes(self_id, peer_id) {
        write_tag
    } else {
        read_tag
    }
}

/// Whether identity `a` comes before identity `b`.
pub fn precedes(a: &str, b: &str) -> (r: bool)
    ensures
        r == id_precedes(a@, b@),
{
    let ab = a.as_bytes();
    let bb = b.as_bytes();
    let ghost sa = encode_utf8(a@);
    let ghost sb = encode_utf8(b@);
    let mut i: usize = 0;
    while i < ab.len() && i < bb.len() && ab[i] == bb[i]
        invariant
            ab@ == sa,
            bb@ == sb,
            0 <= i <= ab@.len(),
            i <= bb@.len(),
            bytes_less_from(sa, sb, 0) == bytes_less_from(sa, sb, i as int),
        decreases ab@.len() - i,
    {
        i = i + 1;
    }
    if i >= bb.len() {
        false
    } else if i >= ab.len() {
        true
    } else {
        ab[i] < bb[i]
    }
}

/// No two byte strings each come before the other.
pub proof fn lemma_less_asymmetric(a: Seq<u8>, b: Seq<u8>, i: int)
    requires
        0 <= i,
    ensures
        !(bytes_less_from(a, b, i) && bytes_less_from(b, a, i)),
    decreases a.len() - i,
{
    if i < a.len() && i < b.len() && a[i] == b[i] {
        lemma_less_asymmetric(a, b, i + 1);
    }
}

/// Two byte strings with a common prefix of length `i`, neither of which
/// comes before the other from `i` on, are equal.
pub proof fn lemma_less_total(a: Seq<u8>, b: Seq<u8>, i: int)
    requires
        0 <= i <= a.len(),
        i <= b.len(),
        a.subrange(0, i) == b.subrange(0, i),
        !bytes_less_from(a, b, i),
        !bytes_less_from(b, a, i),
    ensures
        a == b,
    decreases a.len() - i,
{
    if i < a.len() && i < b.len() {
        assert(a[i] == b[i]);
        assert(a.subrange(0, i + 1) =~= a.subrange(0, i).push(a[i]));
        assert(b.subrange(0, i + 1) =~= b.subrange(0, i).push(b[i]));
        lemma_less_total(a, b, i + 1);
    } else {
        assert(a =~= a.subrange(0, i));
        assert(b =~= b.subrange(0, i));
    }
}

/// Of two distinct identities, exactly one comes before the other.
pub proof fn lemma_precedes_exactly_one(a: Seq<char>, b: Seq<char>)
    requires
        a != b,
    ensures
        id_precedes(a, b) != id_precedes(b, a),
{
    let ea = encode_utf8(a);
    let eb = encode_utf8(b);
    lemma_less_asymmetric(ea, eb, 0);
    if !bytes_less_from(ea, eb, 0) && !bytes_less_from(eb, ea, 0) {
        assert(ea.subrange(0, 0) =~= eb.subrange(0, 0));
        lemma_less_total(ea, eb, 0);
        encode_utf8_decode_utf8(a);
        encode_utf8_decode_utf8(b);
    }
}

/// Both parties of a pair of distinct identities resolve the same tag, and
/// so the same store address, when each one's write tag is the other's read
/// tag: each runs the resolver on its own side, with no message exchanged.
pub proof fn lemma_both_parties_resolve_same_address(
    a_id: Seq<char>,
    b_id: Seq<char>,
    a_write: Seq<u8>,
    a_read: Seq<u8>,
    b_write: Seq<u8>,
    b_read: Seq<u8>,
)
    requires
        a_id != b_id,
        a_write == b_read,
        a_read == b_write,
    ensures
        rendezvous_tag(a_id, b_id, a_write, a_read) == rendezvous_tag(b_id, a_id, b_write, b_read),
        address_of(rendezvous_tag(a_id, b_id, a_write, a_read), ADDRESS_DOMAIN.spec_bytes())
            == address_of(rendezvous_tag(b_id, a_id, b_write, b_read), ADDRESS_DOMAIN.spec_bytes()),
{
    lemma_precedes_exactly_one(a_id, b_id);
}

} // verus!
