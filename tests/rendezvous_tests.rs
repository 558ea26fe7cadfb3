use arke_rendezvous::address::{to_address, truncate_digest};
use arke_rendezvous::contacts::{address_hex, ContactBook, ContactError};
use arke_rendezvous::discovery::{DiscoveryInfo, HandshakeError};
use arke_rendezvous::identity::is_valid_identity;
use arke_rendezvous::rendezvous::precedes;
use tiny_keccak::{Hasher, Keccak};

fn framed(b: &[u8]) -> Vec<u8> {
    let mut v = (b.len() as u64).to_le_bytes().to_vec();
    v.extend_from_slice(b);
    v
}

fn expected_address(tag: &[u8]) -> [u8; 20] {
    let mut combined = tag.to_vec();
    combined.extend_from_slice(&framed(b"constant"));
    let mut hasher = Keccak::v256();
    let mut out = [0u8; 32];
    hasher.update(&combined);
    hasher.finalize(&mut out);
    let mut a = [0u8; 20];
    a.copy_from_slice(&out[..20]);
    a
}

/// Material for the pair (alice0001, bob00002) as each side derives it.
fn pair() -> (DiscoveryInfo, DiscoveryInfo) {
    let key = vec![7u8; 32];
    let tag_ab = vec![1u8, 2, 3, 4];
    let tag_ba = vec![9u8, 8, 7];
    let alice = DiscoveryInfo::id_nike_and_handshake(
        "alice0001".to_string(),
        "bob00002".to_string(),
        key.clone(),
        tag_ab.clone(),
        tag_ba.clone(),
        &tag_ba,
        &tag_ab,
    )
    .unwrap();
    let bob = DiscoveryInfo::id_nike_and_handshake(
        "bob00002".to_string(),
        "alice0001".to_string(),
        key,
        tag_ba.clone(),
        tag_ab.clone(),
        &tag_ab,
        &tag_ba,
    )
    .unwrap();
    (alice, bob)
}

#[test]
fn address_is_keccak_of_framed_tag_and_domain() {
    let tag = vec![0xde, 0xad, 0xbe, 0xef];
    assert_eq!(to_address(&tag), expected_address(&tag));
    assert_eq!(to_address(&Vec::new()), expected_address(&[]));
    assert_ne!(to_address(&tag), to_address(&vec![0xde, 0xad, 0xbe]));
}

#[test]
fn truncate_keeps_first_twenty_bytes() {
    let mut d = [0u8; 32];
    for (i, b) in d.iter_mut().enumerate() {
        *b = i as u8;
    }
    let t = truncate_digest(&d);
    assert_eq!(t.to_vec(), (0u8..20).collect::<Vec<u8>>());
}

#[test]
fn identity_order_is_bytewise() {
    assert!(precedes("alice0001", "bob00002"));
    assert!(!precedes("bob00002", "alice0001"));
    assert!(!precedes("same", "same"));
    assert!(precedes("abc", "abcd"));
    assert!(!precedes("abcd", "abc"));
    assert!(precedes("", "a"));
    assert!(precedes("Zed", "abe"));
}

#[test]
fn write_tag_of_one_side_is_read_tag_of_the_other() {
    let (alice, bob) = pair();
    assert_eq!(alice.alice_write_tag, bob.alice_read_tag);
    assert_eq!(alice.alice_read_tag, bob.alice_write_tag);
}

#[test]
fn mismatched_tags_are_refused() {
    let r = DiscoveryInfo::id_nike_and_handshake(
        "alice0001".to_string(),
        "bob00002".to_string(),
        vec![1],
        vec![1, 2],
        vec![3, 4],
        &vec![3, 4],
        &vec![1, 9],
    );
    assert_eq!(r.err(), Some(HandshakeError::WriteTagMismatch));
    let r = DiscoveryInfo::id_nike_and_handshake(
        "alice0001".to_string(),
        "bob00002".to_string(),
        vec![1],
        vec![1, 2],
        vec![3, 4],
        &vec![3, 5],
        &vec![1, 2],
    );
    assert_eq!(r.err(), Some(HandshakeError::ReadTagMismatch));
}

#[test]
fn both_parties_resolve_the_same_store_address() {
    let (alice, bob) = pair();
    assert_eq!(alice.store_address(), bob.store_address());
    // alice0001 comes first, so her write tag names the slot.
    assert_eq!(alice.store_tag(), &vec![1u8, 2, 3, 4]);
    assert_eq!(alice.store_address(), expected_address(&[1, 2, 3, 4]));
    assert_eq!(DiscoveryInfo::to_address(&vec![1u8, 2, 3, 4]), alice.store_address());
}

#[test]
fn address_hex_is_lower_case_two_digits_per_byte() {
    let mut a = [0u8; 20];
    a[0] = 0x0f;
    a[1] = 0xa0;
    a[19] = 0xff;
    let h = address_hex(&a);
    assert_eq!(h.len(), 40);
    assert!(h.starts_with("0fa0"));
    assert!(h.ends_with("ff"));
}

#[test]
fn identity_strings_are_checked() {
    assert!(is_valid_identity("bob00002"));
    assert!(is_valid_identity("ABCdef12"));
    assert!(!is_valid_identity("alice0001"));
    assert!(!is_valid_identity("bob0000!"));
    assert!(!is_valid_identity("bob 0002"));
    assert!(!is_valid_identity(""));
    // Seven characters, eight bytes: alphanumeric but the length is in bytes.
    assert!(is_valid_identity("b\u{f3}b0002"));
    assert!(!is_valid_identity("b\u{f3}b00002"));
}

#[test]
fn contact_book_adds_once_and_removes() {
    let (alice, _) = pair();
    let addr = alice.store_address();
    let mut book = ContactBook::from_records(Vec::new());
    assert_eq!(book.add_discovered(alice), Ok(()));
    assert_eq!(book.len(), 1);
    assert_eq!(book.records()[0].id_string, "bob00002");
    assert_eq!(book.records()[0].store_addr, addr);
    assert_eq!(book.records()[0].eth_addr, "");
    let (again, _) = pair();
    assert_eq!(book.add_discovered(again), Err(ContactError::AlreadyDiscovered));
    assert_eq!(book.len(), 1);
    assert_eq!(book.set_eth_addr(&"bob00002".to_string(), "0xabc".to_string()), Ok(()));
    assert_eq!(book.records()[0].eth_addr, "0xabc");
    assert_eq!(
        book.set_eth_addr(&"carol003".to_string(), "0x1".to_string()),
        Err(ContactError::NoSuchContact)
    );
    assert_eq!(book.remove(3), Err(ContactError::NoSuchContact));
    assert_eq!(book.remove(0), Ok(()));
    assert_eq!(book.len(), 0);
}
