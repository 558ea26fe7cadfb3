//! The issuance coordinator: the client side of registration, threshold
//! blind extraction and combination. Cryptographic artifacts travel as their
//! canonical serializations; the coordinator decides what may happen next.

use vstd::prelude::*;

verus! {

/// Why an issuance attempt stopped. Each names the step and the role at
/// fault.
#[derive(Debug, Clone, Copy, PartialEq, Eq, Structural)]
pub enum IssuanceError {
    /// The directory already holds the identity.
    IdentityTaken,
    /// A share came from an authority outside the pool.
    UnknownAuthority { authority: usize },
    /// A second share came from the same authority.
    DuplicateShare { authority: usize },
    /// Fewer than `required` authorities answered.
    InsufficientShares { received: usize, required: usize },
    /// The step does not follow from the current stage.
    OutOfOrder,
}

/// The shares of `m` in increasing order of authority, looking at the
/// authorities `k` to `n - 1`.
pub open spec fn ordered_shares_from(m: Map<int, Seq<u8>>, k: int, n: int) -> Seq<Seq<u8>>
    decreases n - k,
{
    if k >= n {
        Seq::empty()
    } else if m.contains_key(k) {
        seq![m[k]] + ordered_shares_from(m, k + 1, n)
    } else {
        ordered_shares_from(m, k + 1, n)
    }
}

/// The shares of `m` in increasing order of authority.
pub open spec fn ordered_shares(m: Map<int, Seq<u8>>, n: int) -> Seq<Seq<u8>> {
    ordered_shares_from(m, 0, n)
}

/// The partial credential shares received so far, at most one per
/// authority of a pool of `n`; combination needs `threshold + 1` of them.
pub struct ShareCollector {
    n: usize,
    threshold: usize,
    shares: Vec<(usize, Vec<u8>)>,
}

impl ShareCollector {
    /// The shares received, by authority.
    pub closed spec fn received(&self) -> Map<int, Seq<u8>> {
        Map::new(
            |a: int| exists|i: int| 0 <= i < self.shares@.len() && self.shares@[i].0 == a,
            |a: int|
                {
                    let i = choose|i: int| 0 <= i < self.shares@.len() && self.shares@[i].0 == a;
                    self.shares@[i].1@
                },
        )
    }

    pub closed spec fn pool_size(&self) -> nat {
        self.n as nat
    }

    pub closed spec fn spec_threshold(&self) -> nat {
        self.threshold as nat
    }

    /// One share per authority, each from the pool.
    pub closed spec fn wf(&self) -> bool {
        &&& forall|i: int, j: int|
            0 <= i < self.shares@.len() && 0 <= j < self.shares@.len() && i != j
                ==> self.shares@[i].0 != self.shares@[j].0
        &&& forall|i: int| 0 <= i < self.shares@.len() ==> self.shares@[i].0 < self.n
        &&& self.shares@.len() <= self.n
        &&& self.threshold < usize::MAX
    }

    /// The number of shares received.
    pub closed spec fn count(&self) -> nat {
        self.shares@.len()
    }

    /// An empty collector for a pool of `n` authorities of which at most
    /// `threshold` may be dishonest or absent.
    pub fn new(n: usize, threshold: usize) -> (r: Self)
        requires
            threshold < usize::MAX,
        ensures
            r.wf(),
            r.pool_size() == n,
            r.spec_threshold() == threshold,
            r.count() == 0,
            r.received() == Map::<int, Seq<u8>>::empty(),
    {
        let r = ShareCollector { n, threshold, shares: Vec::new() };
        assert(r.received() =~= Map::<int, Seq<u8>>::empty());
        r
    }

    /// The number of shares received.
    pub fn received_count(&self) -> (r: usize)
        ensures
            r == self.count(),
    {
        self.shares.len()
    }

    /// Whether enough shares have come in to combine.
    pub fn is_ready(&self) -> (r: bool)
        ensures
            r == (self.count() >= self.spec_threshold() + 1),
    {
        self.shares.len() > self.threshold
    }

    proof fn lemma_received_at(&self, i: int)
        requires
            self.wf(),
            0 <= i < self.shares@.len(),
        ensures
            self.received().contains_key(self.shares@[i].0 as int),
            self.received()[self.shares@[i].0 as int] == self.shares@[i].1@,
    {
        let a = self.shares@[i].0 as int;
        assert(self.received().contains_key(a));
        let k = choose|k: int| 0 <= k < self.shares@.len() && self.shares@[k].0 == a;
        assert(k == i);
    }

    /// The number of shares is the number of authorities that sent one.
    pub proof fn lemma_count_is_len(&self)
        requires
            self.wf(),
        ensures
            self.received().len() == self.count(),
            self.received().dom().finite(),
    {
        let m = self.shares@.map_values(|p: (usize, Vec<u8>)| p.0 as int);
        assert(m.no_duplicates()) by {
            assert forall|p: int, q: int| 0 <= p < m.len() && 0 <= q < m.len() && p != q
                implies m[p] != m[q] by {}
        }
        m.unique_seq_to_set();
        assert(self.received().dom() =~= m.to_set()) by {
            assert forall|a: int| #[trigger] self.received().dom().contains(a) implies m.to_set().contains(a) by {
                let k = choose|k: int| 0 <= k < self.shares@.len() && self.shares@[k].0 == a;
                assert(m[k] == a);
            }
            assert forall|a: int| #[trigger] m.to_set().contains(a) implies self.received().dom().contains(a) by {
                let k = choose|k: int| 0 <= k < m.len() && m[k] == a;
                assert(self.shares@[k].0 == a);
            }
        }
    }

    /// Records the share sent by `authority`.
    pub fn add_share(&mut self, authority: usize, share: Vec<u8>) -> (r: Result<(), IssuanceError>)
        requires
            old(self).wf(),
        ensures
            final(self).wf(),
            final(self).pool_size() == old(self).pool_size(),
            final(self).spec_threshold() == old(self).spec_threshold(),
            authority >= old(self).pool_size() ==> r == Err::<(), IssuanceError>(
                IssuanceError::UnknownAuthority { authority },
            ),
            authority < old(self).pool_size() && old(self).received().contains_key(authority as int)
                ==> r == Err::<(), IssuanceError>(IssuanceError::DuplicateShare { authority }),
            r is Err ==> final(self).received() == old(self).received() && final(self).count()
                == old(self).count(),
            r is Ok <==> authority < old(self).pool_size() && !old(self).received().contains_key(
                authority as int,
            ),
            r is Ok ==> final(self).received() == old(self).received().insert(
                authority as int,
                share@,
            ) && final(self).count() == old(self).count() + 1,
    {
        if authority >= self.n {
            return Err(IssuanceError::UnknownAuthority { authority });
        }
        let mut i: usize = 0;
        while i < self.shares.len()
            invariant
                self.wf(),
                0 <= i <= self.shares@.len(),
                forall|j: int| 0 <= j < i ==> (#[trigger] self.shares@[j]).0 != authority,
            decreases self.shares@.len() - i,
        {
            if self.shares[i].0 == authority {
                proof {
                    self.lemma_received_at(i as int);
                }
                return Err(IssuanceError::DuplicateShare { authority });
            }
            i = i + 1;
        }
        assert(!self.received().contains_key(authority as int));
        // Distinct authorities below `n`: there is room for one more.
        proof {
            let s = self.shares@.map_values(|p: (usize, Vec<u8>)| p.0 as int).to_set();
            assert(s.subset_of(Set::new(|a: int| 0 <= a < self.n)));
            vstd::set_lib::lemma_int_range(0, self.n as int);
            assert(Set::new(|a: int| 0 <= a < self.n) =~= vstd::set_lib::set_int_range(
                0,
                self.n as int,
            ));
            vstd::set_lib::lemma_len_subset(
                s.insert(authority as int),
                vstd::set_lib::set_int_range(0, self.n as int),
            );
            let m = self.shares@.map_values(|p: (usize, Vec<u8>)| p.0 as int);
            assert(m.no_duplicates()) by {
                assert forall|p: int, q: int| 0 <= p < m.len() && 0 <= q < m.len() && p != q
                    implies m[p] != m[q] by {}
            }
            m.unique_seq_to_set();
            assert(!s.contains(authority as int)) by {
                if s.contains(authority as int) {
                    let k = choose|k: int| 0 <= k < m.len() && #[trigger] m[k] == authority as int;
                }
            }
        }
        let ghost before = *self;
        self.shares.push((authority, share));
        assert forall|a: int| #[trigger]
            self.received().contains_key(a) == before.received().insert(
                authority as int,
                share@,
            ).contains_key(a) by {
            let last = self.shares@.len() - 1;
            assert(self.shares@[last].0 == authority);
            if a != authority as int && self.received().contains_key(a) {
                let k = choose|k: int| 0 <= k < self.shares@.len() && self.shares@[k].0 == a;
                assert(k != last);
                assert(before.shares@[k].0 == a);
            }
            if before.received().contains_key(a) {
                let k = choose|k: int| 0 <= k < before.shares@.len() && before.shares@[k].0 == a;
                assert(self.shares@[k].0 == a);
            }
        }
        assert forall|a: int| #[trigger] self.received().contains_key(a) implies self.received()[a]
            == before.received().insert(authority as int, share@)[a] by {
            let k = choose|k: int| 0 <= k < self.shares@.len() && self.shares@[k].0 == a;
            self.lemma_received_at(k);
            if a != authority as int {
                before.lemma_received_at(k);
            }
        }
        assert(self.received() =~= before.received().insert(authority as int, share@));
        Ok(())
    }

    /// The share of `authority`, if one was received.
    fn share_of(&self, authority: usize) -> (r: Option<&Vec<u8>>)
        requires
            self.wf(),
        ensures
            self.received().contains_key(authority as int) ==> (r matches Some(v) && v@
                == self.received()[authority as int]),
            !self.received().contains_key(authority as int) ==> r is None,
    {
        let mut i: usize = 0;
        while i < self.shares.len()
            invariant
                self.wf(),
                0 <= i <= self.shares@.len(),
                forall|j: int| 0 <= j < i ==> (#[trigger] self.shares@[j]).0 != authority,
            decreases self.shares@.len() - i,
        {
            if self.shares[i].0 == authority {
                proof {
                    self.lemma_received_at(i as int);
                }
                return Some(&self.shares[i].1);
            }
            i = i + 1;
        }
        None
    }

    /// The shares to hand to combination, in increasing order of authority,
    /// so that the result does not depend on the order in which the
    /// authorities answered. Fails when fewer than `threshold + 1` came in.
    pub fn shares_for_combine(&self) -> (r: Result<Vec<Vec<u8>>, IssuanceError>)
        requires
            self.wf(),
        ensures
            self.count() < self.spec_threshold() + 1 ==> r == Err::<Vec<Vec<u8>>, IssuanceError>(
                IssuanceError::InsufficientShares {
                    received: self.count() as usize,
                    required: (self.spec_threshold() + 1) as usize,
                },
            ),
            self.count() >= self.spec_threshold() + 1 ==> (r matches Ok(v) && v@.map_values(
                |s: Vec<u8>| s@,
            ) == ordered_shares(self.received(), self.pool_size() as int)),
    {
        if self.shares.len() <= self.threshold {
            return Err(
                IssuanceError::InsufficientShares {
                    received: self.shares.len(),
                    required: self.threshold + 1,
                },
            );
        }
        let mut out: Vec<Vec<u8>> = Vec::new();
        let mut k: usize = 0;
        while k < self.n
            invariant
                self.wf(),
                0 <= k <= self.n,
                out@.map_values(|s: Vec<u8>| s@) + ordered_shares_from(
                    self.received(),
                    k as int,
                    self.n as int,
                ) == ordered_shares(self.received(), self.n as int),
            decreases self.n - k,
        {
            let ghost prev = out@.map_values(|s: Vec<u8>| s@);
            match self.share_of(k) {
                Some(s) => {
                    out.push(vstd::slice::slice_to_vec(s.as_slice()));
                    assert(out@.map_values(|s: Vec<u8>| s@) =~= prev.push(
                        self.received()[k as int],
                    ));
                    assert(prev + ordered_shares_from(self.received(), k as int, self.n as int)
                        =~= prev.push(self.received()[k as int]) + ordered_shares_from(
                        self.received(),
                        k + 1,
                        self.n as int,
                    ));
                },
                None => {},
            }
            k = k + 1;
        }
        assert(out@.map_values(|s: Vec<u8>| s@) =~= out@.map_values(|s: Vec<u8>| s@)
            + ordered_shares_from(self.received(), self.n as int, self.n as int));
        Ok(out)
    }
}

/// Where an issuance attempt stands.
#[derive(Debug, Clone, Copy, PartialEq, Eq, Structural)]
pub enum IssuanceStage {
    Unregistered,
    Registered,
    Blinded,
    SharesPending,
    SharesCollected,
    Combined,
    Persisted,
    Aborted,
}

/// One client's issuance attempt, from registration to the persisted
/// credential. Any failure aborts the attempt; a retry starts again from
/// registration's result, which may be reused, with fresh blinding.
pub struct IssuanceSession {
    stage: IssuanceStage,
    attestation: Option<Vec<u8>>,
    collector: ShareCollector,
}

impl IssuanceSession {
    pub closed spec fn spec_stage(&self) -> IssuanceStage {
        self.stage
    }

    /// The registration attestation, once registration succeeded.
    pub closed spec fn spec_attestation(&self) -> Option<Seq<u8>> {
        match self.attestation {
            Some(a) => Some(a@),
            None => None,
        }
    }

    /// The shares received in this attempt, by authority.
    pub closed spec fn spec_received(&self) -> Map<int, Seq<u8>> {
        self.collector.received()
    }

    pub closed spec fn spec_pool_size(&self) -> nat {
        self.collector.pool_size()
    }

    pub closed spec fn spec_threshold(&self) -> nat {
        self.collector.spec_threshold()
    }

    pub closed spec fn wf(&self) -> bool {
        self.collector.wf()
    }

    /// A new attempt against a pool of `n` authorities of which at most
    /// `threshold` may be dishonest or absent.
    pub fn new(n: usize, threshold: usize) -> (r: Self)
        requires
            threshold < usize::MAX,
        ensures
            r.wf(),
            r.spec_stage() == IssuanceStage::Unregistered,
            r.spec_attestation() is None,
            r.spec_pool_size() == n,
            r.spec_threshold() == threshold,
    {
        IssuanceSession {
            stage: IssuanceStage::Unregistered,
            attestation: None,
            collector: ShareCollector::new(n, threshold),
        }
    }

    /// The current stage.
    pub fn stage(&self) -> (r: IssuanceStage)
        ensures
            r == self.spec_stage(),
    {
        self.stage
    }

    /// Registration: `identity_available` is the directory's answer to the
    /// uniqueness check, `attestation` what the registration authority
    /// issued. A taken identity aborts the attempt.
    pub fn register(&mut self, identity_available: bool, attestation: Vec<u8>) -> (r: Result<
        (),
        IssuanceError,
    >)
        requires
            old(self).wf(),
        ensures
            final(self).wf(),
            final(self).spec_pool_size() == old(self).spec_pool_size(),
            final(self).spec_threshold() == old(self).spec_threshold(),
            old(self).spec_stage() != IssuanceStage::Unregistered ==> r == Err::<(), IssuanceError>(
                IssuanceError::OutOfOrder,
            ) && final(self).spec_stage() == old(self).spec_stage()
                && final(self).spec_attestation() == old(self).spec_attestation(),
            old(self).spec_stage() == IssuanceStage::Unregistered && !identity_available ==> r
                == Err::<(), IssuanceError>(IssuanceError::IdentityTaken)
                && final(self).spec_stage() == IssuanceStage::Aborted
                && final(self).spec_attestation() == old(self).spec_attestation(),
            old(self).spec_stage() == IssuanceStage::Unregistered && identity_available ==> r
                is Ok && final(self).spec_stage() == IssuanceStage::Registered
                && final(self).spec_attestation() == Some(attestation@),
    {
        if self.stage != IssuanceStage::Unregistered {
            return Err(IssuanceError::OutOfOrder);
        }
        if !identity_available {
            self.stage = IssuanceStage::Aborted;
            return Err(IssuanceError::IdentityTaken);
        }
        self.attestation = Some(attestation);
        self.stage = IssuanceStage::Registered;
        Ok(())
    }

    /// Moves from `from` to `to`, or reports that the step is out of order.
    fn advance(&mut self, from: IssuanceStage, to: IssuanceStage) -> (r: Result<(), IssuanceError>)
        requires
            old(self).wf(),
        ensures
            final(self).wf(),
            final(self).spec_attestation() == old(self).spec_attestation(),
            final(self).spec_received() == old(self).spec_received(),
            final(self).spec_pool_size() == old(self).spec_pool_size(),
            final(self).spec_threshold() == old(self).spec_threshold(),
            old(self).spec_stage() == from ==> r is Ok && final(self).spec_stage() == to,
            old(self).spec_stage() != from ==> r == Err::<(), IssuanceError>(
                IssuanceError::OutOfOrder,
            ) && final(self).spec_stage() == old(self).spec_stage(),
    {
        if self.stage != from {
            return Err(IssuanceError::OutOfOrder);
        }
        self.stage = to;
        Ok(())
    }

    /// The identity and the attestation have been blinded, with fresh
    /// randomness, on the client.
    pub fn blinded(&mut self) -> (r: Result<(), IssuanceError>)
        requires
            old(self).wf(),
        ensures
            final(self).wf(),
            final(self).spec_attestation() == old(self).spec_attestation(),
            final(self).spec_pool_size() == old(self).spec_pool_size(),
            final(self).spec_threshold() == old(self).spec_threshold(),
            old(self).spec_stage() == IssuanceStage::Registered ==> r is Ok
                && final(self).spec_stage() == IssuanceStage::Blinded,
            old(self).spec_stage() != IssuanceStage::Registered ==> r == Err::<(), IssuanceError>(
                IssuanceError::OutOfOrder,
            ) && final(self).spec_stage() == old(self).spec_stage(),
    {
        self.advance(IssuanceStage::Registered, IssuanceStage::Blinded)
    }

    /// The blinded pair has been sent to the authorities; no share of an
    /// earlier attempt is kept.
    pub fn shares_requested(&mut self) -> (r: Result<(), IssuanceError>)
        requires
            old(self).wf(),
        ensures
            final(self).wf(),
            final(self).spec_attestation() == old(self).spec_attestation(),
            final(self).spec_pool_size() == old(self).spec_pool_size(),
            final(self).spec_threshold() == old(self).spec_threshold(),
            old(self).spec_stage() == IssuanceStage::Blinded ==> r is Ok
                && final(self).spec_stage() == IssuanceStage::SharesPending
                && final(self).spec_received() == Map::<int, Seq<u8>>::empty(),
            old(self).spec_stage() != IssuanceStage::Blinded ==> r == Err::<(), IssuanceError>(
                IssuanceError::OutOfOrder,
            ) && final(self).spec_stage() == old(self).spec_stage()
                && final(self).spec_received() == old(self).spec_received(),
    {
        if self.stage != IssuanceStage::Blinded {
            return Err(IssuanceError::OutOfOrder);
        }
        self.collector = ShareCollector::new(self.collector.n, self.collector.threshold);
        self.stage = IssuanceStage::SharesPending;
        Ok(())
    }

    /// A blind partial share arrived from `authority`. A share from outside
    /// the pool, or a second one from the same authority, aborts the attempt.
    pub fn share_received(&mut self, authority: usize, share: Vec<u8>) -> (r: Result<
        (),
        IssuanceError,
    >)
        requires
            old(self).wf(),
        ensures
            final(self).wf(),
            final(self).spec_attestation() == old(self).spec_attestation(),
            final(self).spec_pool_size() == old(self).spec_pool_size(),
            final(self).spec_threshold() == old(self).spec_threshold(),
            old(self).spec_stage() != IssuanceStage::SharesPending ==> r == Err::<
                (),
                IssuanceError,
            >(IssuanceError::OutOfOrder) && final(self).spec_stage() == old(self).spec_stage()
                && final(self).spec_received() == old(self).spec_received(),
            old(self).spec_stage() == IssuanceStage::SharesPending ==> {
                &&& r is Ok <==> authority < old(self).spec_pool_size()
                    && !old(self).spec_received().contains_key(authority as int)
                &&& r is Ok ==> final(self).spec_stage() == IssuanceStage::SharesPending
                    && final(self).spec_received() == old(self).spec_received().insert(
                    authority as int,
                    share@,
                )
                &&& r is Err ==> final(self).spec_stage() == IssuanceStage::Aborted
                    && final(self).spec_received() == old(self).spec_received()
                &&& authority >= old(self).spec_pool_size() ==> r == Err::<(), IssuanceError>(
                    IssuanceError::UnknownAuthority { authority },
                )
                &&& authority < old(self).spec_pool_size()
                    && old(self).spec_received().contains_key(authority as int) ==> r == Err::<
                    (),
                    IssuanceError,
                >(IssuanceError::DuplicateShare { authority })
            },
    {
        if self.stage != IssuanceStage::SharesPending {
            return Err(IssuanceError::OutOfOrder);
        }
        let r = self.collector.add_share(authority, share);
        if r.is_err() {
            self.stage = IssuanceStage::Aborted;
        }
        r
    }

    /// No more shares will be waited for. With at least `threshold + 1`
    /// shares the attempt moves on and the shares are returned in increasing
    /// order of authority, ready to be unblinded and combined; with fewer,
    /// the attempt aborts.
    pub fn close_collection(&mut self) -> (r: Result<Vec<Vec<u8>>, IssuanceError>)
        requires
            old(self).wf(),
        ensures
            final(self).wf(),
            final(self).spec_attestation() == old(self).spec_attestation(),
            final(self).spec_received() == old(self).spec_received(),
            old(self).spec_stage() != IssuanceStage::SharesPending ==> r == Err::<
                Vec<Vec<u8>>,
                IssuanceError,
            >(IssuanceError::OutOfOrder) && final(self).spec_stage() == old(self).spec_stage(),
            old(self).spec_stage() == IssuanceStage::SharesPending && old(self).spec_received().len()
                < old(self).spec_threshold() + 1 ==> r == Err::<Vec<Vec<u8>>, IssuanceError>(
                IssuanceError::InsufficientShares {
                    received: old(self).spec_received().len() as usize,
                    required: (old(self).spec_threshold() + 1) as usize,
                },
            ) && final(self).spec_stage() == IssuanceStage::Aborted,
            old(self).spec_stage() == IssuanceStage::SharesPending && old(self).spec_received().len()
                >= old(self).spec_threshold() + 1 ==> (r matches Ok(v) && v@.map_values(
                |s: Vec<u8>| s@,
            ) == ordered_shares(old(self).spec_received(), old(self).spec_pool_size() as int))
                && final(self).spec_stage() == IssuanceStage::SharesCollected,
    {
        if self.stage != IssuanceStage::SharesPending {
            return Err(IssuanceError::OutOfOrder);
        }
        proof {
            self.collector.lemma_count_is_len();
        }
        let r = self.collector.shares_for_combine();
        if r.is_err() {
            self.stage = IssuanceStage::Aborted;
        } else {
            self.stage = IssuanceStage::SharesCollected;
        }
        r
    }

    /// The unblinded shares have been combined into the credential.
    pub fn combined(&mut self) -> (r: Result<(), IssuanceError>)
        requires
            old(self).wf(),
        ensures
            final(self).wf(),
            final(self).spec_attestation() == old(self).spec_attestation(),
            old(self).spec_stage() == IssuanceStage::SharesCollected ==> r is Ok
                && final(self).spec_stage() == IssuanceStage::Combined,
            old(self).spec_stage() != IssuanceStage::SharesCollected ==> r == Err::<
                (),
                IssuanceError,
            >(IssuanceError::OutOfOrder) && final(self).spec_stage() == old(self).spec_stage(),
    {
        self.advance(IssuanceStage::SharesCollected, IssuanceStage::Combined)
    }

    /// The credential has been stored and the identity entered in the
    /// directory.
    pub fn persisted(&mut self) -> (r: Result<(), IssuanceError>)
        requires
            old(self).wf(),
        ensures
            final(self).wf(),
            final(self).spec_attestation() == old(self).spec_attestation(),
            old(self).spec_stage() == IssuanceStage::Combined ==> r is Ok
                && final(self).spec_stage() == IssuanceStage::Persisted,
            old(self).spec_stage() != IssuanceStage::Combined ==> r == Err::<(), IssuanceError>(
                IssuanceError::OutOfOrder,
            ) && final(self).spec_stage() == old(self).spec_stage(),
    {
        self.advance(IssuanceStage::Combined, IssuanceStage::Persisted)
    }

    /// Starts a new attempt after an abort: from the kept attestation when
    /// registration had succeeded, from the start otherwise. The shares of
    /// the aborted attempt are dropped.
    pub fn retry(&mut self) -> (r: Result<(), IssuanceError>)
        requires
            old(self).wf(),
        ensures
            final(self).wf(),
            final(self).spec_attestation() == old(self).spec_attestation(),
            final(self).spec_pool_size() == old(self).spec_pool_size(),
            final(self).spec_threshold() == old(self).spec_threshold(),
            old(self).spec_stage() != IssuanceStage::Aborted ==> r == Err::<(), IssuanceError>(
                IssuanceError::OutOfOrder,
            ) && final(self).spec_stage() == old(self).spec_stage(),
            old(self).spec_stage() == IssuanceStage::Aborted ==> r is Ok
                && final(self).spec_received() == Map::<int, Seq<u8>>::empty()
                && (if old(self).spec_attestation() is Some {
                final(self).spec_stage() == IssuanceStage::Registered
            } else {
                final(self).spec_stage() == IssuanceStage::Unregistered
            }),
    {
        if self.stage != IssuanceStage::Aborted {
            return Err(IssuanceError::OutOfOrder);
        }
        self.collector = ShareCollector::new(self.collector.n, self.collector.threshold);
        if self.attestation.is_some() {
            self.stage = IssuanceStage::Registered;
        } else {
            self.stage = IssuanceStage::Unregistered;
        }
        Ok(())
    }
}

/// The order in which authorities answer does not change what is combined:
/// two collectors for the same pool that received the same shares hand the
/// same sequence to combination.
pub proof fn lemma_combine_input_order_independent(a: ShareCollector, b: ShareCollector)
    requires
        a.wf(),
        b.wf(),
        a.pool_size() == b.pool_size(),
        a.received() == b.received(),
    ensures
        ordered_shares(a.received(), a.pool_size() as int) == ordered_shares(
            b.received(),
            b.pool_size() as int,
        ),
{
}

/// Shares from two distinct authorities may arrive in either order.
pub proof fn lemma_arrival_order_irrelevant(
    m: Map<int, Seq<u8>>,
    a: int,
    share_a: Seq<u8>,
    b: int,
    share_b: Seq<u8>,
)
    requires
        a != b,
    ensures
        m.insert(a, share_a).insert(b, share_b) == m.insert(b, share_b).insert(a, share_a),
{
    assert(m.insert(a, share_a).insert(b, share_b) =~= m.insert(b, share_b).insert(a, share_a));
}

} // verus!
