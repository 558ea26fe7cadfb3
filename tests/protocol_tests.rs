use arke_rendezvous::registrar::{RegistrarLedger, RegistrationError};
use arke_rendezvous::deaddrop::{read_decision, DeadDropStore, Envelope, ReadError};
use arke_rendezvous::directory::{
    parse_flag_op, DirectoryReply, DirectoryRequest, FlagOp, UserDatabase, UserRecord,
};
use arke_rendezvous::discovery::DiscoveryInfo;
use arke_rendezvous::freshness::{LocationProofError, NonceLedger};
use arke_rendezvous::issuance::{IssuanceError, IssuanceSession, IssuanceStage, ShareCollector};
use arke_rendezvous::notify::{event_is_for, recipient_of_event, PollAction, PollEvent, Poller};

fn issue(session: &mut IssuanceSession, authorities: &[usize]) -> Result<Vec<Vec<u8>>, IssuanceError> {
    session.register(true, vec![0xaa])?;
    session.blinded()?;
    session.shares_requested()?;
    for &a in authorities {
        session.share_received(a, vec![a as u8, 0x55])?;
    }
    session.close_collection()
}

#[test]
fn issuance_with_four_of_ten_authorities_completes() {
    for id in ["alice0001", "bob00002"] {
        let mut s = IssuanceSession::new(10, 3);
        let shares = issue(&mut s, &[7, 2, 9, 4]).unwrap();
        assert_eq!(shares, vec![vec![2, 0x55], vec![4, 0x55], vec![7, 0x55], vec![9, 0x55]], "{}", id);
        assert_eq!(s.stage(), IssuanceStage::SharesCollected);
        assert_eq!(s.combined(), Ok(()));
        assert_eq!(s.persisted(), Ok(()));
        assert_eq!(s.stage(), IssuanceStage::Persisted);
    }
}

#[test]
fn issuance_below_threshold_fails() {
    let mut s = IssuanceSession::new(10, 3);
    let r = issue(&mut s, &[0, 5]);
    assert_eq!(r, Err(IssuanceError::InsufficientShares { received: 2, required: 4 }));
    assert_eq!(s.stage(), IssuanceStage::Aborted);
    assert_eq!(s.combined(), Err(IssuanceError::OutOfOrder));
    // A retry starts again from the kept attestation.
    assert_eq!(s.retry(), Ok(()));
    assert_eq!(s.stage(), IssuanceStage::Registered);
}

#[test]
fn issuance_refuses_taken_identity_and_bad_shares() {
    let mut s = IssuanceSession::new(10, 3);
    assert_eq!(s.register(false, vec![]), Err(IssuanceError::IdentityTaken));
    assert_eq!(s.stage(), IssuanceStage::Aborted);
    assert_eq!(s.retry(), Ok(()));
    assert_eq!(s.stage(), IssuanceStage::Unregistered);
    assert_eq!(s.blinded(), Err(IssuanceError::OutOfOrder));

    let mut s = IssuanceSession::new(10, 3);
    s.register(true, vec![1]).unwrap();
    s.blinded().unwrap();
    s.shares_requested().unwrap();
    assert_eq!(s.share_received(10, vec![]), Err(IssuanceError::UnknownAuthority { authority: 10 }));
    assert_eq!(s.stage(), IssuanceStage::Aborted);

    let mut s = IssuanceSession::new(10, 3);
    s.register(true, vec![1]).unwrap();
    s.blinded().unwrap();
    s.shares_requested().unwrap();
    s.share_received(3, vec![1]).unwrap();
    assert_eq!(s.share_received(3, vec![2]), Err(IssuanceError::DuplicateShare { authority: 3 }));
}

#[test]
fn combination_input_does_not_depend_on_arrival_order() {
    let mut a = ShareCollector::new(10, 3);
    let mut b = ShareCollector::new(10, 3);
    for i in [1usize, 3, 5, 8, 0] {
        a.add_share(i, vec![i as u8; 3]).unwrap();
    }
    for i in [8usize, 0, 5, 1, 3] {
        b.add_share(i, vec![i as u8; 3]).unwrap();
    }
    assert_eq!(a.shares_for_combine(), b.shares_for_combine());
    assert_eq!(a.shares_for_combine().unwrap()[0], vec![0u8; 3]);
    assert!(a.is_ready());
    assert_eq!(a.received_count(), 5);
    let c = ShareCollector::new(10, 3);
    assert!(!c.is_ready());
}

fn pair_address() -> [u8; 20] {
    let ab = vec![5u8, 6];
    let ba = vec![6u8, 5];
    let alice = DiscoveryInfo::id_nike_and_handshake(
        "alice0001".to_string(), "bob00002".to_string(), vec![1; 32],
        ab.clone(), ba.clone(), &ba, &ab,
    ).unwrap();
    let bob = DiscoveryInfo::id_nike_and_handshake(
        "bob00002".to_string(), "alice0001".to_string(), vec![1; 32],
        ba.clone(), ab.clone(), &ab, &ba,
    ).unwrap();
    assert_eq!(alice.store_address(), bob.store_address());
    alice.store_address()
}

#[test]
fn alice_writes_hello_and_bob_reads_it_once() {
    let addr = pair_address();
    let mut store = DeadDropStore::new();
    // The ciphertext stands for what encryption produced; decryption is
    // done by the caller and its outcome handed to the store.
    store.write(addr, Envelope::new(b"hello".to_vec(), vec![0; 12]));
    let fetched = store.read(&addr).unwrap();
    let plaintext = fetched.ciphertext.clone();
    assert_eq!(store.complete_read(&addr, Some(plaintext)), Ok(b"hello".to_vec()));
    assert_eq!(store.read(&addr).err(), Some(ReadError::EmptySlot));
}

#[test]
fn failed_decryption_keeps_the_slot() {
    let addr = [3u8; 20];
    let mut store = DeadDropStore::new();
    store.write(addr, Envelope::new(vec![1, 2, 3], vec![4]));
    assert_eq!(store.complete_read(&addr, None), Err(ReadError::DecryptFailed));
    let kept = store.read(&addr).unwrap();
    assert_eq!(kept.ciphertext, vec![1, 2, 3]);
    assert_eq!(kept.iv, vec![4]);
    assert_eq!(read_decision(None), (Err(ReadError::DecryptFailed), false));
    assert_eq!(read_decision(Some(vec![9])), (Ok(vec![9]), true));
}

#[test]
fn deleting_an_empty_slot_is_harmless() {
    let addr = [1u8; 20];
    let other = [2u8; 20];
    let mut store = DeadDropStore::new();
    assert!(!store.delete(&addr));
    store.write(addr, Envelope::new(vec![1], vec![2]));
    store.write(other, Envelope::new(vec![3], vec![4]));
    assert!(store.delete(&addr));
    assert!(!store.delete(&addr));
    assert_eq!(store.read(&other).unwrap().ciphertext, vec![3]);
}

#[test]
fn second_write_overwrites_the_first() {
    let addr = pair_address();
    let mut store = DeadDropStore::new();
    store.write(addr, Envelope::new(b"first".to_vec(), vec![1]));
    store.write(addr, Envelope::new(b"second".to_vec(), vec![2]));
    let e = store.read(&addr).unwrap();
    assert_eq!(e.ciphertext, b"second".to_vec());
    assert_eq!(e.iv, vec![2]);
}

#[test]
fn replayed_nonce_is_rejected() {
    let mut ledger = NonceLedger::new();
    let n = [1u8, 2, 3, 4];
    assert!(!ledger.is_spent(&n));
    assert_eq!(ledger.check_write_location(n, false), Err(LocationProofError::InvalidProof));
    assert!(!ledger.is_spent(&n));
    assert_eq!(ledger.check_write_location(n, true), Ok(()));
    assert!(ledger.is_spent(&n));
    assert_eq!(ledger.check_write_location(n, true), Err(LocationProofError::ReplayedNonce));
    assert_eq!(ledger.check_write_location([1, 2, 3, 5], true), Ok(()));
}

fn add(db: &mut UserDatabase, id: &str, session: &str) {
    let r = db.process_request(DirectoryRequest::AddUser {
        id_string: id.to_string(),
        unread: false,
        session: session.to_string(),
    });
    assert_eq!(r, (DirectoryReply::UserAdded, true));
}

fn flag(db: &mut UserDatabase, id: &str, session: &str, rw: &str) -> (DirectoryReply, bool) {
    db.process_request(DirectoryRequest::UnreadFlag {
        id_string: id.to_string(),
        session: session.to_string(),
        rw: rw.to_string(),
    })
}

#[test]
fn directory_handles_each_request() {
    let mut db = UserDatabase::new("all_users.json");
    assert_eq!(db.path(), "all_users.json");
    add(&mut db, "alice0001", "s1");
    assert_eq!(db.records().len(), 1);
    let taken = db.process_request(DirectoryRequest::CheckUniqueness { candidate: Some("alice0001".to_string()) });
    assert_eq!(taken, (DirectoryReply::IdTaken, false));
    assert!(!taken.0.is_success());
    let free = db.process_request(DirectoryRequest::CheckUniqueness { candidate: Some("bob00002".to_string()) });
    assert_eq!(free, (DirectoryReply::IdAvailable, false));
    assert_eq!(free.0.message(), "✓ No user with same ID");
    assert_eq!(
        db.process_request(DirectoryRequest::CheckUniqueness { candidate: None }),
        (DirectoryReply::MissingId, false)
    );
    assert_eq!(flag(&mut db, "alice0001", "s1", "r"), (DirectoryReply::GotFlag(false), false));
    assert_eq!(flag(&mut db, "alice0001", "s1", "wt"), (DirectoryReply::FlagSetTrue, true));
    assert_eq!(flag(&mut db, "alice0001", "s1", "r"), (DirectoryReply::GotFlag(true), false));
    assert_eq!(flag(&mut db, "alice0001", "old", "r"), (DirectoryReply::InvalidSession, false));
    assert_eq!(flag(&mut db, "alice0001", "s1", "wf"), (DirectoryReply::FlagSetFalse, true));
    assert_eq!(flag(&mut db, "alice0001", "s1", "x"), (DirectoryReply::InvalidRw, false));
    assert_eq!(flag(&mut db, "nobody00", "s1", "r"), (DirectoryReply::UserNotFound, false));
    let set = db.process_request(DirectoryRequest::UpdateSession {
        id_string: "alice0001".to_string(),
        session: "s2".to_string(),
    });
    assert_eq!(set, (DirectoryReply::SessionSet, true));
    assert_eq!(db.records()[0].session, "s2");
    assert_eq!(flag(&mut db, "alice0001", "s1", "r"), (DirectoryReply::InvalidSession, false));
    assert_eq!(db.process_request(DirectoryRequest::Unknown), (DirectoryReply::InvalidAction, false));
    assert_eq!(DirectoryReply::InvalidAction.message(), "invalid action");
}

#[test]
fn directory_updates_only_the_first_record_of_an_identity() {
    let mut db = UserDatabase::new("users.json");
    db.replace_records(vec![
        UserRecord::new("a".to_string(), false, "s".to_string()),
        UserRecord::new("a".to_string(), false, "t".to_string()),
    ]);
    assert_eq!(flag(&mut db, "a", "x", "wt"), (DirectoryReply::FlagSetTrue, true));
    assert!(db.records()[0].unread);
    assert!(!db.records()[1].unread);
}

#[test]
fn flag_words_are_parsed() {
    assert_eq!(parse_flag_op("r"), Some(FlagOp::Read));
    assert_eq!(parse_flag_op("wt"), Some(FlagOp::SetTrue));
    assert_eq!(parse_flag_op("wf"), Some(FlagOp::SetFalse));
    assert_eq!(parse_flag_op("w"), None);
    assert_eq!(parse_flag_op("rr"), None);
    assert_eq!(parse_flag_op(""), None);
}

#[test]
fn store_events_name_their_recipient() {
    let mut data = vec![0u8; 31];
    data.push(0x20);
    data.extend_from_slice(&[0u8; 31]);
    data.push(8);
    data.extend_from_slice(b"bob00002");
    data.extend_from_slice(&[0u8; 24]);
    assert_eq!(recipient_of_event(&data), b"bob00002".to_vec());
    assert!(event_is_for(&data, "bob00002"));
    assert!(!event_is_for(&data, "alice0001"));
    assert_eq!(recipient_of_event(&[0xff, b' ', b' ', b'a', 0xc3, 0xa9, b'b']), b"ab".to_vec());
    assert_eq!(recipient_of_event(&[]), Vec::<u8>::new());
}

#[test]
fn poller_backs_off_and_stops() {
    let mut p = Poller::new(1000, 8000, 3);
    assert_eq!(p.on_event(PollEvent::Flag(false)), PollAction::Wait { delay_ms: 1000 });
    assert_eq!(p.on_event(PollEvent::TransportFault), PollAction::Wait { delay_ms: 2000 });
    assert_eq!(p.on_event(PollEvent::TransportFault), PollAction::Wait { delay_ms: 4000 });
    assert_eq!(p.on_event(PollEvent::Flag(true)), PollAction::ReadInbox);
    assert_eq!(p.faults, 0);
    assert_eq!(p.on_event(PollEvent::TransportFault), PollAction::Wait { delay_ms: 2000 });
    assert_eq!(p.on_event(PollEvent::TransportFault), PollAction::Wait { delay_ms: 4000 });
    assert_eq!(p.on_event(PollEvent::TransportFault), PollAction::Stop);
    assert!(p.stopped);
    assert_eq!(p.on_event(PollEvent::Flag(true)), PollAction::Stop);
    assert_eq!(Poller::new(1000, 3000, 9).delay_after(5), 3000);

    let mut q = Poller::new(10, 100, 5);
    assert_eq!(q.on_event(PollEvent::InvalidSession), PollAction::Stop);
    let mut c = Poller::new(10, 100, 5);
    assert_eq!(c.on_event(PollEvent::Cancelled), PollAction::Stop);
}

#[test]
fn registrar_issues_once_per_identity() {
    let mut ledger = RegistrarLedger::new();
    assert!(!ledger.is_registered(&"alice0001".to_string()));
    assert_eq!(ledger.register("alice0001".to_string()), Ok(()));
    assert!(ledger.is_registered(&"alice0001".to_string()));
    assert_eq!(ledger.register("alice0001".to_string()), Err(RegistrationError::AlreadyRegistered));
    assert_eq!(ledger.register("bob00002".to_string()), Ok(()));
}

#[test]
fn every_reply_has_its_message() {
    assert_eq!(DirectoryReply::UserAdded.message(), "✓ User added");
    assert_eq!(DirectoryReply::IdTaken.message(), "User with same ID found");
    assert_eq!(DirectoryReply::GotFlag(true).message(), "✓ Got flag");
    assert_eq!(DirectoryReply::UserNotFound.message(), "user not found");
    assert!(DirectoryReply::FlagSetFalse.is_success());
    assert!(!DirectoryReply::InvalidRw.is_success());
}
