//! Distributed key generation: the trusted third party and the participant
//! state machines, with culprit attribution.

use vstd::prelude::*;
use crate::ciphersuite::Ciphersuite;
use crate::error::{DkgError, Error, FrostError};
use crate::idmap::{lemma_sorted_insert, sorted_insert, strictly_sorted, IdMap, IdSet};

verus! {

/// All possible distributed key generation statuses.
#[derive(Debug, Copy, Clone, PartialEq, Eq, Structural)]
pub enum DkgStatus {
    /// Distributed key generation still in progress.
    InProgress,
    /// Round one finished: every participant's package arrived.
    FinishedRound1,
    /// Round two finished: every participant redistributed its packages.
    FinishedRound2,
    /// Round three finished: no secret share was proven invalid.
    FinishedRound3,
}

/// The mathematical image of the trusted third party's state.
#[verifier::ext_equal]
#[verifier::reject_recursive_types(C)]
pub ghost struct TtpModel<C: Ciphersuite> {
    /// The number of participants `n`.
    pub max_signers: int,
    /// The threshold `t`.
    pub min_signers: int,
    /// The participants, in the order the caller supplied them.
    pub participants: Seq<u16>,
    /// The verified round-one package of each participant heard from.
    pub round1_packages: Map<u16, C::Round1Package>,
    /// For each recipient, the round-two packages addressed to it, by
    /// sender.
    pub round2_packages: Map<u16, Map<u16, C::Round2Package>>,
    /// The participants that completed round two, in increasing order.
    pub round2_participants: Seq<u16>,
    /// The participants proven to have sent an invalid round-two share, in
    /// increasing order.
    pub round2_culprits: Seq<u16>,
}

impl<C: Ciphersuite> TtpModel<C> {
    /// `round2` with `packages` from `sender` redistributed into the
    /// per-recipient inboxes, front to back.
    pub open spec fn redistribute(
        round2: Map<u16, Map<u16, C::Round2Package>>,
        sender: u16,
        packages: Seq<(u16, C::Round2Package)>,
    ) -> Map<u16, Map<u16, C::Round2Package>>
        decreases packages.len(),
    {
        if packages.len() == 0 {
            round2
        } else {
            let m = Self::redistribute(round2, sender, packages.drop_last());
            let recipient = packages.last().0;
            let package = packages.last().1;
            let inbox = if m.dom().contains(recipient) {
                m[recipient]
            } else {
                Map::empty()
            };
            m.insert(recipient, inbox.insert(sender, package))
        }
    }
}

/// The trusted third party relaying the three rounds of distributed key
/// generation and tracking absent and faulty participants.
#[verifier::reject_recursive_types(C)]
pub struct TrustedThirdParty<C: Ciphersuite> {
    max_signers: u16,
    min_signers: u16,
    participants: Vec<u16>,
    participants_set: IdSet,
    round1_packages: IdMap<C::Round1Package>,
    round2_packages: IdMap<IdMap<C::Round2Package>>,
    round2_participants_set: IdSet,
    round2_culprits_set: IdSet,
}

impl<C: Ciphersuite> TrustedThirdParty<C> {
    /// The mathematical image of the state.
    pub closed spec fn model(&self) -> TtpModel<C> {
        TtpModel {
            max_signers: self.max_signers as int,
            min_signers: self.min_signers as int,
            participants: self.participants@,
            round1_packages: self.round1_packages@,
            round2_packages: self.round2_packages@.map_values(|m: IdMap<C::Round2Package>| m@),
            round2_participants: self.round2_participants_set@,
            round2_culprits: self.round2_culprits_set@,
        }
    }

    /// The state invariant, over the mathematical image.
    pub open spec fn inv(m: TtpModel<C>) -> bool {
        &&& 2 <= m.min_signers <= m.max_signers <= 0xFFFF
        &&& m.participants.no_duplicates()
        &&& forall|i: int| 0 <= i < m.participants.len() ==> #[trigger] m.participants[i] != 0
        &&& forall|id: u16|
            #[trigger] m.round1_packages.dom().contains(id) ==> m.participants.contains(id)
        &&& strictly_sorted(m.round2_participants)
        &&& strictly_sorted(m.round2_culprits)
    }

    /// Well-formedness: the containers are ordered and the invariant holds.
    pub closed spec fn wf(&self) -> bool {
        &&& self.participants_set.wf()
        &&& self.round1_packages.wf()
        &&& self.round2_packages.wf()
        &&& forall|id: u16|
            #[trigger] self.round2_packages@.dom().contains(id) ==> self.round2_packages@[id].wf()
        &&& self.round2_participants_set.wf()
        &&& self.round2_culprits_set.wf()
        &&& self.participants_set.set() == self.participants@.to_set()
        &&& Self::inv(self.model())
    }

    /// A well-formed trusted third party satisfies the state invariant.
    pub proof fn lemma_wf_inv(&self)
        requires
            self.wf(),
        ensures
            Self::inv(self.model()),
    {
    }

    /// Creates a new trusted third party for `min_signers`-of-`max_signers`
    /// key generation among `participants`, rejecting thresholds for which
    /// no setup exists and duplicated participants.
    pub fn new(max_signers: u16, min_signers: u16, participants: Vec<u16>) -> (r: Result<
        Self,
        Error<C>,
    >)
        requires
            forall|i: int| 0 <= i < participants@.len() ==> #[trigger] participants@[i] != 0,
        ensures
            min_signers < 2 ==> r == Err::<Self, Error<C>>(
                Error::Frost(FrostError::InvalidMinSigners),
            ),
            min_signers >= 2 && max_signers < 2 ==> r == Err::<Self, Error<C>>(
                Error::Frost(FrostError::InvalidMaxSigners),
            ),
            min_signers >= 2 && max_signers >= 2 && min_signers > max_signers ==> r
                == Err::<Self, Error<C>>(Error::Frost(FrostError::InvalidMinSigners)),
            2 <= min_signers <= max_signers && !participants@.no_duplicates() ==> r
                == Err::<Self, Error<C>>(Error::Dkg(DkgError::DuplicateParticipants)),
            2 <= min_signers <= max_signers && participants@.no_duplicates() ==> (r matches Ok(t)
                && t.wf() && t.model() == (TtpModel::<C> {
                max_signers: max_signers as int,
                min_signers: min_signers as int,
                participants: participants@,
                round1_packages: Map::empty(),
                round2_packages: Map::empty(),
                round2_participants: Seq::empty(),
                round2_culprits: Seq::empty(),
            })),
    {
        if min_signers < 2 {
            return Err(Error::Frost(FrostError::InvalidMinSigners));
        }
        if max_signers < 2 {
            return Err(Error::Frost(FrostError::InvalidMaxSigners));
        }
        if min_signers > max_signers {
            return Err(Error::Frost(FrostError::InvalidMinSigners));
        }
        let mut participants_set = IdSet::new();
        let mut i: usize = 0;
        while i < participants.len()
            invariant
                0 <= i <= participants@.len(),
                forall|k: int| 0 <= k < participants@.len() ==> #[trigger] participants@[k] != 0,
                participants_set.wf(),
                participants_set.set() == participants@.take(i as int).to_set(),
                participants_set@.len() <= i,
                participants@.take(i as int).no_duplicates() ==> participants_set@.len() == i,
            decreases participants@.len() - i,
        {
            proof {
                broadcast use vstd::prelude::Seq::lemma_push_to_set_commute;

                assert(participants@.take(i + 1).drop_last() =~= participants@.take(i as int));
                assert(participants@.take(i + 1) =~= participants@.take(i as int).push(
                    participants@[i as int],
                ));
                lemma_sorted_insert(participants_set@, participants@[i as int]);
                crate::idmap::lemma_strictly_sorted_set_len(participants_set@);
                let prefix = participants@.take(i as int);
                let x = participants@[i as int];
                if participants@.take(i + 1).no_duplicates() {
                    if prefix.contains(x) {
                        let j = choose|j: int| 0 <= j < prefix.len() && prefix[j] == x;
                        assert(participants@.take(i + 1)[j] == participants@.take(i + 1)[i as int]);
                    }
                    assert(!participants_set.set().contains(x));
                }
                if !prefix.contains(x) && prefix.no_duplicates() {
                    let s1 = participants@.take(i + 1);
                    assert forall|p: int, q: int| 0 <= p < q < s1.len() implies s1[p] != s1[q] by {
                        assert(forall|k: int| 0 <= k < i ==> s1[k] == prefix[k]);
                        if q == i {
                            assert(prefix.contains(prefix[p]));
                        }
                    }
                    assert(s1.no_duplicates());
                }
            }
            participants_set.insert(participants[i]);
            i += 1;
        }
        proof {
            assert(participants@.take(participants@.len() as int) =~= participants@);
            crate::idmap::lemma_strictly_sorted_set_len(participants_set@);
            if participants@.no_duplicates() {
                participants@.unique_seq_to_set();
            }
            if participants_set@.len() == participants@.len() && !participants@.no_duplicates() {
                participants@.lemma_no_dup_set_cardinality();
            }
        }
        if participants_set.len() != participants.len() {
            return Err(Error::Dkg(DkgError::DuplicateParticipants));
        }
        let t = TrustedThirdParty {
            max_signers,
            min_signers,
            participants,
            participants_set,
            round1_packages: IdMap::new(),
            round2_packages: IdMap::new(),
            round2_participants_set: IdSet::new(),
            round2_culprits_set: IdSet::new(),
        };
        proof {
            assert(t.model().round2_packages =~= Map::<u16, Map<u16, C::Round2Package>>::empty());
        }
        Ok(t)
    }

    /// The number of participants `n`.
    pub fn max_signers(&self) -> (n: u16)
        ensures
            n == self.model().max_signers,
    {
        self.max_signers
    }

    /// The threshold `t`.
    pub fn min_signers(&self) -> (t: u16)
        ensures
            t == self.model().min_signers,
    {
        self.min_signers
    }

    /// The participants, in the order they were supplied.
    pub fn participants(&self) -> (v: &Vec<u16>)
        ensures
            v@ == self.model().participants,
    {
        &self.participants
    }

    /// The round-one packages received so far, by participant.
    pub fn round1_packages(&self) -> (m: &IdMap<C::Round1Package>)
        ensures
            m@ == self.model().round1_packages,
    {
        &self.round1_packages
    }

    /// The round-two packages addressed to `receiver_identifier`, by sender,
    /// if any arrived yet.
    pub fn round2_packages(&self, receiver_identifier: u16) -> (r: Option<
        &IdMap<C::Round2Package>,
    >)
        requires
            self.wf(),
        ensures
            match r {
                Some(m) => self.model().round2_packages.dom().contains(receiver_identifier)
                    && m@ == self.model().round2_packages[receiver_identifier],
                None => !self.model().round2_packages.dom().contains(receiver_identifier),
            },
    {
        proof {
            self.round2_packages.lemma_view();
        }
        let r = self.round2_packages.get(receiver_identifier);
        proof {
            if r is Some {
                let inner = self.round2_packages@[receiver_identifier];
                assert(self.model().round2_packages[receiver_identifier] == inner@);
            }
        }
        r
    }

    /// The predicate picking the participants that have not sent their
    /// round-one package.
    pub open spec fn missing_round1(m: TtpModel<C>) -> spec_fn(u16) -> bool {
        |id: u16| !m.round1_packages.dom().contains(id)
    }

    /// The predicate picking the participants that have not completed round
    /// two.
    pub open spec fn missing_round2(m: TtpModel<C>) -> spec_fn(u16) -> bool {
        |id: u16| !m.round2_participants.contains(id)
    }

    /// Receives and verifies one participant's round-one package. Returns
    /// `FinishedRound1` exactly when, with this package, one has arrived
    /// from `max_signers` distinct participants.
    ///
    /// An unknown sender is rejected; a package whose commitment does not
    /// carry exactly `min_signers` coefficients, or whose proof of knowledge
    /// fails, is rejected without any state change.
    pub fn receive_round1_package(&mut self, identifier: u16, round1_package: C::Round1Package) -> (r:
        Result<DkgStatus, Error<C>>)
        requires
            old(self).wf(),
        ensures
            final(self).wf(),
            !old(self).model().participants.contains(identifier) ==> r == Err::<
                DkgStatus,
                Error<C>,
            >(Error::Dkg(DkgError::UnknownParticipant)) && final(self).model() == old(self).model(),
            old(self).model().participants.contains(identifier) ==> {
                ||| (r == Err::<DkgStatus, Error<C>>(
                    Error::Frost(FrostError::IncorrectNumberOfCommitments),
                ) && final(self).model() == old(self).model())
                ||| (r matches Err(e) && (e matches Error::Frost(FrostError::Primitive(_)))
                    && final(self).model() == old(self).model())
                ||| (final(self).model() == (TtpModel {
                    round1_packages: old(self).model().round1_packages.insert(
                        identifier,
                        round1_package,
                    ),
                    ..old(self).model()
                }) && r == Ok::<DkgStatus, Error<C>>(
                    if final(self).model().round1_packages.dom().len()
                        == old(self).model().max_signers {
                        DkgStatus::FinishedRound1
                    } else {
                        DkgStatus::InProgress
                    },
                ))
            },
    {
        if !self.participants_set.contains(identifier) {
            proof {
                if old(self).model().participants.contains(identifier) {
                    assert(self.participants_set.set().contains(identifier));
                }
            }
            return Err(Error::Dkg(DkgError::UnknownParticipant));
        }
        proof {
            assert(self.participants@.to_set().contains(identifier));
            assert(identifier != 0) by {
                let j = choose|j: int|
                    0 <= j < self.participants@.len() && self.participants@[j] == identifier;
                assert(self.participants@[j] != 0);
            }
        }
        if C::commitment_count(&round1_package) != self.min_signers as usize {
            return Err(Error::Frost(FrostError::IncorrectNumberOfCommitments));
        }
        match C::verify_proof_of_knowledge(identifier, &round1_package) {
            Ok(()) => {},
            Err(e) => {
                return Err(Error::Frost(FrostError::Primitive(e)));
            },
        }
        self.round1_packages.insert(identifier, round1_package);
        proof {
            assert(final(self).model() =~~= (TtpModel {
                round1_packages: old(self).model().round1_packages.insert(
                    identifier,
                    round1_package,
                ),
                ..old(self).model()
            }));
            self.round1_packages.lemma_view();
        }
        if self.round1_packages.len() == self.max_signers as usize {
            return Ok(DkgStatus::FinishedRound1);
        }
        Ok(DkgStatus::InProgress)
    }

    /// The participants that have not sent their round-one package, in the
    /// order the participants were supplied.
    pub fn blame_round1_participants(&self) -> (v: Vec<u16>)
        requires
            self.wf(),
        ensures
            v@ == self.model().participants.filter(Self::missing_round1(self.model())),
    {
        let ghost pred = Self::missing_round1(self.model());
        let mut v: Vec<u16> = Vec::new();
        let mut i: usize = 0;
        while i < self.participants.len()
            invariant
                self.wf(),
                0 <= i <= self.participants@.len(),
                pred == Self::missing_round1(self.model()),
                v@ == self.model().participants.take(i as int).filter(pred),
            decreases self.participants@.len() - i,
        {
            let id = self.participants[i];
            proof {
                reveal(Seq::filter);
                assert(self.participants@.take(i + 1).drop_last() =~= self.participants@.take(
                    i as int,
                ));
                assert(self.participants@.take(i + 1).last() == id);
            }
            if !self.round1_packages.contains_key(id) {
                v.push(id);
            }
            i += 1;
        }
        proof {
            assert(self.participants@.take(self.participants@.len() as int)
                =~= self.participants@);
        }
        v
    }

    /// The participants that have not completed round two, in the order the
    /// participants were supplied.
    pub fn blame_round2_participants(&self) -> (v: Vec<u16>)
        requires
            self.wf(),
        ensures
            v@ == self.model().participants.filter(Self::missing_round2(self.model())),
    {
        let ghost pred = Self::missing_round2(self.model());
        let mut v: Vec<u16> = Vec::new();
        let mut i: usize = 0;
        while i < self.participants.len()
            invariant
                self.wf(),
                0 <= i <= self.participants@.len(),
                pred == Self::missing_round2(self.model()),
                v@ == self.model().participants.take(i as int).filter(pred),
            decreases self.participants@.len() - i,
        {
            let id = self.participants[i];
            proof {
                reveal(Seq::filter);
                assert(self.participants@.take(i + 1).drop_last() =~= self.participants@.take(
                    i as int,
                ));
                assert(self.participants@.take(i + 1).last() == id);
            }
            if !self.round2_participants_set.contains(id) {
                v.push(id);
            }
            i += 1;
        }
        proof {
            assert(self.participants@.take(self.participants@.len() as int)
                =~= self.participants@);
        }
        v
    }

    /// Receives one participant's round-two packages, one per other
    /// participant, and redistributes them into the recipients' inboxes.
    /// Returns `FinishedRound2` exactly when, with this delivery,
    /// `max_signers` distinct participants have completed round two.
    ///
    /// An unknown sender is rejected; a delivery without exactly one package
    /// per other participant is rejected without any state change.
    pub fn receive_round2_packages(
        &mut self,
        identifier: u16,
        round2_packages: IdMap<C::Round2Package>,
    ) -> (r: Result<DkgStatus, Error<C>>)
        requires
            old(self).wf(),
            round2_packages.wf(),
        ensures
            final(self).wf(),
            !old(self).model().participants.contains(identifier) ==> r == Err::<
                DkgStatus,
                Error<C>,
            >(Error::Dkg(DkgError::UnknownParticipant)) && final(self).model() == old(self).model(),
            old(self).model().participants.contains(identifier) && round2_packages@.dom().len()
                != old(self).model().max_signers - 1 ==> r == Err::<DkgStatus, Error<C>>(
                Error::Frost(FrostError::IncorrectNumberOfPackages),
            ) && final(self).model() == old(self).model(),
            old(self).model().participants.contains(identifier) && round2_packages@.dom().len()
                == old(self).model().max_signers - 1 ==> {
                if exists|p: u16|
                    old(self).model().participants.contains(p) && p != identifier
                        && !round2_packages@.dom().contains(p) {
                    r == Err::<DkgStatus, Error<C>>(Error::Frost(FrostError::IncorrectPackage))
                        && final(self).model() == old(self).model()
                } else {
                    &&& final(self).model() == (TtpModel {
                        round2_packages: TtpModel::<C>::redistribute(
                            old(self).model().round2_packages,
                            identifier,
                            round2_packages.kv(),
                        ),
                        round2_participants: sorted_insert(
                            old(self).model().round2_participants,
                            identifier,
                        ),
                        ..old(self).model()
                    })
                    &&& r == Ok::<DkgStatus, Error<C>>(
                        if sorted_insert(old(self).model().round2_participants, identifier).len()
                            == old(self).model().max_signers {
                            DkgStatus::FinishedRound2
                        } else {
                            DkgStatus::InProgress
                        },
                    )
                }
            },
    {
        if !self.participants_set.contains(identifier) {
            proof {
                if old(self).model().participants.contains(identifier) {
                    assert(self.participants_set.set().contains(identifier));
                }
            }
            return Err(Error::Dkg(DkgError::UnknownParticipant));
        }
        proof {
            assert(self.participants@.to_set().contains(identifier));
            round2_packages.lemma_view();
        }
        if round2_packages.len() != (self.max_signers - 1) as usize {
            return Err(Error::Frost(FrostError::IncorrectNumberOfPackages));
        }
        let mut i: usize = 0;
        while i < self.participants.len()
            invariant
                *self == *old(self),
                self.wf(),
                round2_packages.wf(),
                old(self).model().participants.contains(identifier),
                round2_packages@.dom().len() == old(self).model().max_signers - 1,
                0 <= i <= self.participants@.len(),
                forall|k: int|
                    0 <= k < i ==> #[trigger] self.participants@[k] == identifier
                        || round2_packages@.dom().contains(self.participants@[k]),
            decreases self.participants@.len() - i,
        {
            let p = self.participants[i];
            if p != identifier && !round2_packages.contains_key(p) {
                proof {
                    round2_packages.lemma_view();
                    assert(old(self).model().participants.contains(old(self).model().participants[i as int]));
                }
                return Err(Error::Frost(FrostError::IncorrectPackage));
            }
            i += 1;
        }
        proof {
            assert forall|p: u16|
                old(self).model().participants.contains(p) && p != identifier implies
                round2_packages@.dom().contains(p) by {
                let j = choose|j: int|
                    0 <= j < self.participants@.len() && self.participants@[j] == p;
            }
        }
        let ghost all = round2_packages.kv();
        let ghost pre = old(self).model();
        let mut entries = round2_packages.into_entries();
        let ghost before_loop = *self;
        while entries.len() > 0
            invariant
                entries@.len() <= all.len(),
                all == all.take(all.len() - entries@.len()) + entries@,
                self.round2_packages.wf(),
                forall|id: u16|
                    #[trigger] self.round2_packages@.dom().contains(id)
                        ==> self.round2_packages@[id].wf(),
                self.round2_packages@.map_values(|m: IdMap<C::Round2Package>| m@)
                    == TtpModel::<C>::redistribute(
                    pre.round2_packages,
                    identifier,
                    all.take(all.len() - entries@.len()),
                ),
                self.max_signers == before_loop.max_signers,
                self.min_signers == before_loop.min_signers,
                self.participants == before_loop.participants,
                self.participants_set == before_loop.participants_set,
                self.round1_packages == before_loop.round1_packages,
                self.round2_participants_set == before_loop.round2_participants_set,
                self.round2_culprits_set == before_loop.round2_culprits_set,
            decreases entries@.len(),
        {
            let ghost k = all.len() - entries@.len();
            let (recipient, package) = entries.remove(0);
            proof {
                assert(all[k] == (recipient, package)) by {
                    assert(all == all.take(k) + (seq![(recipient, package)] + entries@));
                    assert(all[k] == (all.take(k) + (seq![(recipient, package)] + entries@))[k]);
                }
                assert(all.take(k + 1).drop_last() =~= all.take(k));
                assert(all.take(k + 1).last() == all[k]);
                assert(all =~= all.take(k + 1) + entries@);
                self.round2_packages.lemma_view();
            }
            let mut inbox = match self.round2_packages.remove(recipient) {
                Some(m) => m,
                None => IdMap::new(),
            };
            inbox.insert(identifier, package);
            self.round2_packages.insert(recipient, inbox);
            proof {
                let mv = |m: IdMap<C::Round2Package>| m@;
                let prev = TtpModel::<C>::redistribute(pre.round2_packages, identifier, all.take(k));
                assert(self.round2_packages@.map_values(mv) =~= prev.insert(
                    recipient,
                    (if prev.dom().contains(recipient) {
                        prev[recipient]
                    } else {
                        Map::empty()
                    }).insert(identifier, package),
                ));
                assert(self.round2_packages@.map_values(mv) == TtpModel::<C>::redistribute(
                    pre.round2_packages,
                    identifier,
                    all.take(k + 1),
                ));
            }
        }
        proof {
            assert(all.take(all.len() as int) =~= all);
        }
        self.round2_participants_set.insert(identifier);
        proof {
            lemma_sorted_insert(pre.round2_participants, identifier);
            crate::idmap::lemma_strictly_sorted_set_len(self.round2_participants_set@);
            assert(final(self).model() =~~= (TtpModel {
                round2_packages: TtpModel::<C>::redistribute(
                    pre.round2_packages,
                    identifier,
                    all,
                ),
                round2_participants: sorted_insert(pre.round2_participants, identifier),
                ..pre
            }));
        }
        if self.round2_participants_set.len() == self.max_signers as usize {
            return Ok(DkgStatus::FinishedRound2);
        }
        Ok(DkgStatus::InProgress)
    }

    /// Recomputes the group's public key package from the round-one
    /// commitments received so far, or reports the primitive's failure.
    pub fn public_key_package(&self) -> (r: Result<C::PublicKeyPackage, Error<C>>)
        requires
            self.wf(),
        ensures
            r is Err ==> (r matches Err(e) && e matches Error::Frost(FrostError::Primitive(_))),
    {
        proof {
            self.round1_packages.lemma_view();
            assert forall|i: int|
                0 <= i < self.round1_packages.kv().len() implies (#[trigger] self
                .round1_packages.kv()[i]).0 != 0 by {
                let x = self.round1_packages.kv()[i].0;
                assert(self.model().round1_packages.dom().contains(x));
                assert(self.model().participants.contains(x));
                let j = choose|j: int|
                    0 <= j < self.participants@.len() && self.participants@[j] == x;
            }
        }
        match C::public_key_package(self.round1_packages.entries()) {
            Ok(pkg) => Ok(pkg),
            Err(e) => Err(Error::Frost(FrostError::Primitive(e))),
        }
    }

    /// Whether every identifier of `ids` is a known participant of `m`.
    pub open spec fn all_known(m: TtpModel<C>, ids: Seq<u16>) -> bool {
        forall|c: u16| ids.contains(c) ==> m.participants.contains(c)
    }

    /// Receives a participant's allegations after its round three failed,
    /// and upgrades hearsay into attribution: an alleged culprit is recorded
    /// only if the round-two package it sent to the accusing participant is
    /// proven inconsistent with its own round-one commitment.
    ///
    /// The accuser and every alleged culprit must be known participants.
    /// Only the culprit record changes: afterwards it holds the old culprits
    /// and at most those alleged senders whose package to the accuser is on
    /// file. `PackageNotFound` is reported exactly when some alleged sender
    /// on file never delivered a round-one package.
    pub fn receive_round2_culprits(&mut self, identifier: u16, round2_culprits: &Vec<u16>) -> (r:
        Result<DkgStatus, Error<C>>)
        requires
            old(self).wf(),
        ensures
            final(self).wf(),
            !old(self).model().participants.contains(identifier) ==> r == Err::<
                DkgStatus,
                Error<C>,
            >(Error::Dkg(DkgError::UnknownParticipant)) && final(self).model() == old(self).model(),
            old(self).model().participants.contains(identifier) && !Self::all_known(
                old(self).model(),
                round2_culprits@,
            ) ==> r == Err::<DkgStatus, Error<C>>(Error::Dkg(DkgError::UnknownParticipant))
                && final(self).model() == old(self).model(),
            old(self).model().participants.contains(identifier) && Self::all_known(
                old(self).model(),
                round2_culprits@,
            ) && !old(self).model().round2_packages.dom().contains(identifier) ==> r == Ok::<
                DkgStatus,
                Error<C>,
            >(DkgStatus::InProgress) && final(self).model() == old(self).model(),
            old(self).model().participants.contains(identifier) && Self::all_known(
                old(self).model(),
                round2_culprits@,
            ) && old(self).model().round2_packages.dom().contains(identifier) ==> {
                let inbox = old(self).model().round2_packages[identifier];
                &&& final(self).model() == (TtpModel {
                    round2_culprits: final(self).model().round2_culprits,
                    ..old(self).model()
                })
                &&& forall|x: u16|
                    old(self).model().round2_culprits.contains(x) ==> #[trigger] final(self).model().round2_culprits.contains(x)
                &&& forall|x: u16|
                    #[trigger] final(self).model().round2_culprits.contains(x) ==> old(self).model().round2_culprits.contains(x) || (inbox.dom().contains(x)
                        && round2_culprits@.contains(x))
                &&& (r == Ok::<DkgStatus, Error<C>>(DkgStatus::InProgress) || r == Err::<
                    DkgStatus,
                    Error<C>,
                >(Error::Frost(FrostError::PackageNotFound)))
                &&& (r is Err <==> exists|x: u16|
                    #[trigger] inbox.dom().contains(x) && round2_culprits@.contains(x)
                        && !old(self).model().round1_packages.dom().contains(x))
            },
    {
        if !self.participants_set.contains(identifier) {
            proof {
                if old(self).model().participants.contains(identifier) {
                    assert(self.participants_set.set().contains(identifier));
                }
            }
            return Err(Error::Dkg(DkgError::UnknownParticipant));
        }
        proof {
            assert(self.participants@.to_set().contains(identifier));
            assert(identifier != 0) by {
                let j = choose|j: int|
                    0 <= j < self.participants@.len() && self.participants@[j] == identifier;
            }
        }
        let mut i: usize = 0;
        while i < round2_culprits.len()
            invariant
                *self == *old(self),
                self.wf(),
                old(self).model().participants.contains(identifier),
                0 <= i <= round2_culprits@.len(),
                forall|k: int|
                    0 <= k < i ==> old(self).model().participants.contains(
                        #[trigger] round2_culprits@[k],
                    ),
            decreases round2_culprits@.len() - i,
        {
            let c = round2_culprits[i];
            if !self.participants_set.contains(c) {
                proof {
                    assert(round2_culprits@.contains(round2_culprits@[i as int]));
                    if old(self).model().participants.contains(c) {
                        assert(self.participants_set.set().contains(c));
                    }
                }
                return Err(Error::Dkg(DkgError::UnknownParticipant));
            }
            proof {
                assert(self.participants@.to_set().contains(c));
            }
            i += 1;
        }
        proof {
            assert forall|c: u16| round2_culprits@.contains(c) implies old(self).model().participants.contains(c) by {
                let k = choose|k: int|
                    0 <= k < round2_culprits@.len() && round2_culprits@[k] == c;
            }
            self.round2_packages.lemma_view();
        }
        let inbox = match self.round2_packages.get(identifier) {
            Some(inbox) => inbox,
            None => {
                proof {
                    assert(!old(self).model().round2_packages.dom().contains(identifier));
                }
                return Ok(DkgStatus::InProgress);
            },
        };
        let ghost inbox_model = old(self).model().round2_packages[identifier];
        proof {
            assert(inbox@ == inbox_model);
            inbox.lemma_view();
        }
        let entries = inbox.entries();
        let ghost pre = old(self).model();
        let mut j: usize = 0;
        while j < entries.len()
            invariant
                entries@ == inbox.kv(),
                inbox@ == inbox_model,
                inbox.wf(),
                0 <= j <= entries@.len(),
                identifier != 0,
                old(self).wf(),
                old(self).model().participants.contains(identifier),
                Self::all_known(old(self).model(), round2_culprits@),
                old(self).model().round2_packages.dom().contains(identifier),
                inbox_model == old(self).model().round2_packages[identifier],
                self.round2_culprits_set.wf(),
                self.round1_packages.wf(),
                self.max_signers == old(self).max_signers,
                self.min_signers == old(self).min_signers,
                self.participants == old(self).participants,
                self.participants_set == old(self).participants_set,
                self.round1_packages == old(self).round1_packages,
                self.round2_packages == old(self).round2_packages,
                self.round2_participants_set == old(self).round2_participants_set,
                pre == old(self).model(),
                forall|x: u16|
                    pre.round2_culprits.contains(x) ==> #[trigger] self
                        .round2_culprits_set@.contains(x),
                forall|x: u16|
                    #[trigger] self.round2_culprits_set@.contains(x)
                        ==> pre.round2_culprits.contains(x) || (inbox_model.dom().contains(x)
                        && round2_culprits@.contains(x)),
                forall|k: int|
                    0 <= k < j && round2_culprits@.contains((#[trigger] entries@[k]).0)
                        ==> pre.round1_packages.dom().contains(entries@[k].0),
            decreases entries@.len() - j,
        {
            let sender = entries[j].0;
            proof {
                inbox.lemma_view();
                assert(inbox@.dom().contains(entries@[j as int].0));
            }
            if vec_contains(round2_culprits, sender) {
                let round1_package = match self.round1_packages.get(sender) {
                    Some(p) => p,
                    None => {
                        proof {
                            assert(final(self).model() =~~= (TtpModel {
                                round2_culprits: final(self).model().round2_culprits,
                                ..old(self).model()
                            }));
                            assert(inbox_model.dom().contains(sender));
                        }
                        return Err(Error::Frost(FrostError::PackageNotFound));
                    },
                };
                if C::secret_share_proven_invalid(identifier, &entries[j].1, round1_package) {
                    let ghost prev_cs = self.round2_culprits_set@;
                    proof {
                        lemma_sorted_insert(prev_cs, sender);
                    }
                    self.round2_culprits_set.insert(sender);
                    proof {
                        assert(self.round2_culprits_set@ == sorted_insert(prev_cs, sender));
                        assert forall|x: u16| pre.round2_culprits.contains(x) implies #[trigger] self
                            .round2_culprits_set@.contains(x) by {
                            assert(prev_cs.contains(x));
                            assert(sorted_insert(prev_cs, sender).contains(x));
                        }
                        assert forall|x: u16|
                            #[trigger] self.round2_culprits_set@.contains(x) implies pre
                            .round2_culprits.contains(x) || (inbox_model.dom().contains(x)
                            && round2_culprits@.contains(x)) by {
                            assert(sorted_insert(prev_cs, sender).contains(x));
                            if x == sender {
                                assert(inbox_model.dom().contains(sender));
                            } else {
                                assert(prev_cs.contains(x));
                            }
                        }
                    }
                }
            }
            j += 1;
        }
        proof {
            assert(final(self).model() =~~= (TtpModel {
                round2_culprits: final(self).model().round2_culprits,
                ..old(self).model()
            }));
            // the loop visited every entry of the inbox, so every accused
            // sender on file there had a round-one package
            inbox.lemma_view();
            assert forall|x: u16|
                inbox_model.dom().contains(x) && round2_culprits@.contains(x) implies pre
                .round1_packages.dom().contains(x) by {
                let keys = crate::idmap::key_seq(inbox.kv());
                assert(keys.to_set().contains(x));
                let k = choose|k: int| 0 <= k < keys.len() && keys[k] == x;
                assert(entries@[k].0 == x);
            }
        }
        Ok(DkgStatus::InProgress)
    }

    /// The participants proven so far to have sent an invalid round-two
    /// share, in increasing order.
    pub fn round2_culprits(&self) -> (v: &Vec<u16>)
        ensures
            v@ == self.model().round2_culprits,
    {
        self.round2_culprits_set.elements()
    }

    /// Tries to finish: round three succeeds exactly when no participant was
    /// proven to have sent an invalid secret share.
    pub fn try_finish(&self) -> (r: Result<DkgStatus, Error<C>>)
        ensures
            self.model().round2_culprits.len() == 0 ==> r == Ok::<DkgStatus, Error<C>>(
                DkgStatus::FinishedRound3,
            ),
            self.model().round2_culprits.len() != 0 ==> r == Err::<DkgStatus, Error<C>>(
                Error::Dkg(DkgError::InvalidSecretShares),
            ),
    {
        if self.round2_culprits_set.elements().len() != 0 {
            return Err(Error::Dkg(DkgError::InvalidSecretShares));
        }
        Ok(DkgStatus::FinishedRound3)
    }
}

/// The mathematical image of a participant's state: its identity and the
/// take-once slots of its linear state machine.
#[verifier::ext_equal]
#[verifier::reject_recursive_types(C)]
pub ghost struct ParticipantModel<C: Ciphersuite> {
    /// This participant's identifier.
    pub identifier: u16,
    /// The number of participants `n`.
    pub max_signers: int,
    /// The round-one secret, until consumed by round two.
    pub round1_secret_package: Option<C::Round1SecretPackage>,
    /// The own round-one package, until handed out.
    pub round1_package: Option<C::Round1Package>,
    /// The round-two secret, until consumed by round three.
    pub round2_secret_package: Option<C::Round2SecretPackage>,
    /// The other participants' round-one packages, stashed for round three.
    pub round1_packages: Option<Map<u16, C::Round1Package>>,
    /// The culprits detected by a failed round three, in increasing order.
    pub round2_culprits: Option<Seq<u16>>,
}

/// One participant of distributed key generation: a linear state machine
/// from initialisation through the three rounds, whose take-once fields are
/// each consumed on their single forward transition.
#[verifier::reject_recursive_types(C)]
pub struct Participant<C: Ciphersuite> {
    identifier: u16,
    max_signers: u16,
    round1_secret_package: Option<C::Round1SecretPackage>,
    round1_package: Option<C::Round1Package>,
    round2_secret_package: Option<C::Round2SecretPackage>,
    round1_packages: Option<IdMap<C::Round1Package>>,
    round2_culprits_set: Option<IdSet>,
}

impl<C: Ciphersuite> Participant<C> {
    /// The mathematical image of the state.
    pub closed spec fn model(&self) -> ParticipantModel<C> {
        ParticipantModel {
            identifier: self.identifier,
            max_signers: self.max_signers as int,
            round1_secret_package: self.round1_secret_package,
            round1_package: self.round1_package,
            round2_secret_package: self.round2_secret_package,
            round1_packages: match self.round1_packages {
                Some(m) => Some(m@),
                None => None,
            },
            round2_culprits: match self.round2_culprits_set {
                Some(s) => Some(s@),
                None => None,
            },
        }
    }

    /// Well-formedness: the identifier is real and the stashed round-one
    /// packages, if any, are ordered, keyed by real identifiers, and do not
    /// include the participant's own.
    pub closed spec fn wf(&self) -> bool {
        &&& self.identifier != 0
        &&& self.max_signers >= 2
        &&& match self.round1_packages {
            Some(m) => {
                &&& m.wf()
                &&& forall|id: u16| #[trigger] m@.dom().contains(id) ==> id != 0
                &&& !m@.dom().contains(self.identifier)
            },
            None => true,
        }
        &&& match self.round2_culprits_set {
            Some(s) => s.wf(),
            None => true,
        }
    }

    /// Creates a new participant: validates the threshold parameters as the
    /// round-one primitive does, runs round one of distributed key
    /// generation, and stores its secret and public packages. A failure of
    /// the primitive is reported unchanged.
    pub fn new(identifier: u16, max_signers: u16, min_signers: u16, rng: &mut C::Rng) -> (r:
        Result<Self, Error<C>>)
        requires
            identifier != 0,
        ensures
            min_signers < 2 ==> r == Err::<Self, Error<C>>(
                Error::Frost(FrostError::InvalidMinSigners),
            ),
            min_signers >= 2 && max_signers < 2 ==> r == Err::<Self, Error<C>>(
                Error::Frost(FrostError::InvalidMaxSigners),
            ),
            min_signers >= 2 && max_signers >= 2 && min_signers > max_signers ==> r
                == Err::<Self, Error<C>>(Error::Frost(FrostError::InvalidMinSigners)),
            match r {
                Ok(p) => {
                    &&& p.wf()
                    &&& p.model().identifier == identifier
                    &&& p.model().max_signers == max_signers as int
                    &&& p.model().round1_secret_package is Some
                    &&& p.model().round1_package is Some
                    &&& p.model().round2_secret_package is None
                    &&& p.model().round1_packages is None
                    &&& p.model().round2_culprits is None
                },
                Err(e) => {
                    ||| e matches Error::Frost(FrostError::Primitive(_))
                    ||| e == Error::<C>::Frost(FrostError::InvalidMinSigners)
                    ||| e == Error::<C>::Frost(FrostError::InvalidMaxSigners)
                },
            },
            2 <= min_signers <= max_signers ==> (r matches Err(e) ==> e matches Error::Frost(
                FrostError::Primitive(_),
            )),
    {
        if min_signers < 2 {
            return Err(Error::Frost(FrostError::InvalidMinSigners));
        }
        if max_signers < 2 {
            return Err(Error::Frost(FrostError::InvalidMaxSigners));
        }
        if min_signers > max_signers {
            return Err(Error::Frost(FrostError::InvalidMinSigners));
        }
        let (round1_secret_package, round1_package) = match C::dkg_part1(
            identifier,
            max_signers,
            min_signers,
            rng,
        ) {
            Ok(pair) => pair,
            Err(e) => {
                return Err(Error::Frost(FrostError::Primitive(e)));
            },
        };
        Ok(
            Participant {
                identifier,
                max_signers,
                round1_secret_package: Some(round1_secret_package),
                round1_package: Some(round1_package),
                round2_secret_package: None,
                round1_packages: None,
                round2_culprits_set: None,
            },
        )
    }

    /// This participant's identifier.
    pub fn identifier(&self) -> (id: u16)
        ensures
            id == self.model().identifier,
    {
        self.identifier
    }

    /// Takes the own round-one package for broadcast. Take-once: a second
    /// take fails as an invalid state transition, without any state change.
    pub fn round1_package(&mut self) -> (r: Result<C::Round1Package, Error<C>>)
        ensures
            final(self).wf() == old(self).wf(),
            match old(self).model().round1_package {
                Some(pkg) => r == Ok::<C::Round1Package, Error<C>>(pkg) && final(self).model()
                    == (ParticipantModel { round1_package: None, ..old(self).model() }),
                None => r == Err::<C::Round1Package, Error<C>>(
                    Error::Dkg(DkgError::InvalidStateTransition),
                ) && final(self).model() == old(self).model(),
            },
    {
        match self.round1_package.take() {
            Some(pkg) => Ok(pkg),
            None => Err(Error::Dkg(DkgError::InvalidStateTransition)),
        }
    }

    /// Receives the other participants' round-one packages from the trusted
    /// third party and runs round two: the own entry is discarded, the
    /// round-one secret is consumed, the remaining packages are stashed for
    /// round three, and the outgoing round-two packages, one per other
    /// participant, are returned for delivery.
    ///
    /// Without an unconsumed round-one secret this is an invalid state
    /// transition and nothing changes. A failure of the round-two primitive
    /// is reported unchanged; the round-one secret is consumed regardless.
    pub fn receive_round1_packages(&mut self, round1_packages: IdMap<C::Round1Package>) -> (r:
        Result<IdMap<C::Round2Package>, Error<C>>)
        requires
            old(self).wf(),
            round1_packages.wf(),
            forall|id: u16| #[trigger] round1_packages@.dom().contains(id) ==> id != 0,
        ensures
            final(self).wf(),
            old(self).model().round1_secret_package is None ==> r == Err::<
                IdMap<C::Round2Package>,
                Error<C>,
            >(Error::Dkg(DkgError::InvalidStateTransition)) && final(self).model() == old(
                self,
            ).model(),
            old(self).model().round1_secret_package is Some ==> {
                ||| (r matches Err(e) && (e matches Error::Frost(FrostError::Primitive(_)))
                    && final(self).model() == (ParticipantModel {
                    round1_secret_package: None,
                    ..old(self).model()
                }))
                ||| (r is Ok && final(self).model() == (ParticipantModel {
                    round1_secret_package: None,
                    round2_secret_package: final(self).model().round2_secret_package,
                    round1_packages: Some(
                        round1_packages@.remove(old(self).model().identifier),
                    ),
                    ..old(self).model()
                }) && final(self).model().round2_secret_package is Some)
            },
    {
        let mut cleaned = round1_packages;
        cleaned.remove(self.identifier);
        let round1_secret_package = match self.round1_secret_package.take() {
            Some(secret) => secret,
            None => {
                return Err(Error::Dkg(DkgError::InvalidStateTransition));
            },
        };
        proof {
            cleaned.lemma_view();
            assert forall|k: int| 0 <= k < cleaned.kv().len() implies (#[trigger] cleaned.kv()[k]).0
                != 0 by {
                assert(cleaned@.dom().contains(cleaned.kv()[k].0));
            }
        }
        let (round2_secret_package, round2_packages) = match C::dkg_part2(
            round1_secret_package,
            cleaned.entries(),
        ) {
            Ok(pair) => pair,
            Err(e) => {
                return Err(Error::Frost(FrostError::Primitive(e)));
            },
        };
        self.round2_secret_package = Some(round2_secret_package);
        self.round1_packages = Some(cleaned);
        Ok(IdMap::from_entries(round2_packages))
    }

    /// Receives the round-two packages addressed to this participant and
    /// runs round three: the stashed round-one packages and the round-two
    /// secret are consumed, the delivery's shape is validated against the
    /// stash, each incoming secret share is verified against its sender's
    /// round-one commitment, and on success the participant's key package
    /// and the group's public key package are derived.
    ///
    /// Senders of shares proven inconsistent are collected: if there are
    /// any, round three fails with `InvalidSecretShares` and the culprit set
    /// is stored for [`Self::round2_culprits`].
    pub fn receive_round2_packages(&mut self, round2_packages: IdMap<C::Round2Package>) -> (r:
        Result<(C::KeyPackage, C::PublicKeyPackage), Error<C>>)
        requires
            old(self).wf(),
            round2_packages.wf(),
        ensures
            final(self).wf(),
            old(self).model().round2_secret_package is None ==> r == Err::<
                (C::KeyPackage, C::PublicKeyPackage),
                Error<C>,
            >(Error::Dkg(DkgError::InvalidStateTransition)) && final(self).model() == old(
                self,
            ).model(),
            old(self).model().round2_secret_package is Some && old(
                self,
            ).model().round1_packages is None ==> r == Err::<
                (C::KeyPackage, C::PublicKeyPackage),
                Error<C>,
            >(Error::Dkg(DkgError::InvalidStateTransition)) && final(self).model()
                == (ParticipantModel { round2_secret_package: None, ..old(self).model() }),
            old(self).model().round2_secret_package is Some && old(
                self,
            ).model().round1_packages is Some ==> {
                let stash = old(self).model().round1_packages->0;
                let consumed = ParticipantModel {
                    round2_secret_package: None,
                    round1_packages: None,
                    ..old(self).model()
                };
                if stash.dom().len() != old(self).model().max_signers - 1 {
                    r == Err::<(C::KeyPackage, C::PublicKeyPackage), Error<C>>(
                        Error::Frost(FrostError::IncorrectNumberOfPackages),
                    ) && final(self).model() == consumed
                } else if stash.dom().len() != round2_packages@.dom().len() {
                    r == Err::<(C::KeyPackage, C::PublicKeyPackage), Error<C>>(
                        Error::Frost(FrostError::IncorrectNumberOfPackages),
                    ) && final(self).model() == consumed
                } else if !stash.dom().subset_of(round2_packages@.dom()) {
                    r == Err::<(C::KeyPackage, C::PublicKeyPackage), Error<C>>(
                        Error::Frost(FrostError::IncorrectPackage),
                    ) && final(self).model() == consumed
                } else {
                    ||| (r == Err::<(C::KeyPackage, C::PublicKeyPackage), Error<C>>(
                        Error::Dkg(DkgError::InvalidSecretShares),
                    ) && final(self).model() == (ParticipantModel {
                        round2_culprits: final(self).model().round2_culprits,
                        ..consumed
                    }) && (final(self).model().round2_culprits matches Some(cs)
                        && cs.len() > 0 && cs.to_set() <= round2_packages@.dom()))
                    ||| (r matches Err(e) && (e matches Error::Frost(FrostError::Primitive(_)))
                        && final(self).model() == consumed)
                    ||| (r is Ok && final(self).model() == consumed)
                }
            },
    {
        let round2_secret_package = match self.round2_secret_package.take() {
            Some(secret) => secret,
            None => {
                return Err(Error::Dkg(DkgError::InvalidStateTransition));
            },
        };
        let round1_packages = match self.round1_packages.take() {
            Some(stash) => stash,
            None => {
                return Err(Error::Dkg(DkgError::InvalidStateTransition));
            },
        };
        proof {
            round1_packages.lemma_view();
            round2_packages.lemma_view();
        }
        if round1_packages.len() != (self.max_signers - 1) as usize {
            return Err(Error::Frost(FrostError::IncorrectNumberOfPackages));
        }
        if round1_packages.len() != round2_packages.len() {
            return Err(Error::Frost(FrostError::IncorrectNumberOfPackages));
        }
        let ghost consumed = ParticipantModel {
            round2_secret_package: None,
            round1_packages: None,
            ..old(self).model()
        };
        let stash_entries = round1_packages.entries();
        let mut i: usize = 0;
        while i < stash_entries.len()
            invariant
                old(self).wf(),
                old(self).model().round2_secret_package is Some,
                old(self).model().round1_packages is Some,
                round1_packages@ == old(self).model().round1_packages->0,
                round1_packages@.dom().len() == old(self).model().max_signers - 1,
                round1_packages@.dom().len() == round2_packages@.dom().len(),
                self.wf(),
                self.model() == consumed,
                consumed == (ParticipantModel {
                    round2_secret_package: None,
                    round1_packages: None,
                    ..old(self).model()
                }),
                stash_entries@ == round1_packages.kv(),
                round1_packages.wf(),
                round2_packages.wf(),
                0 <= i <= stash_entries@.len(),
                forall|k: int|
                    0 <= k < i ==> round2_packages@.dom().contains(
                        (#[trigger] stash_entries@[k]).0,
                    ),
            decreases stash_entries@.len() - i,
        {
            let key = stash_entries[i].0;
            proof {
                round1_packages.lemma_view();
            }
            if !round2_packages.contains_key(key) {
                proof {
                    assert(round1_packages@.dom().contains(stash_entries@[i as int].0));
                }
                return Err(Error::Frost(FrostError::IncorrectPackage));
            }
            i += 1;
        }
        proof {
            round1_packages.lemma_view();
            assert forall|id: u16| round1_packages@.dom().contains(id) implies round2_packages@
                .dom().contains(id) by {
                let keys = crate::idmap::key_seq(round1_packages.kv());
                assert(keys.to_set().contains(id));
                let j = choose|j: int| 0 <= j < keys.len() && keys[j] == id;
                assert(round1_packages.kv()[j].0 == id);
            }
            assert(round1_packages@.dom().subset_of(round2_packages@.dom()));
            // equal cardinality makes the subset an equality: every sender of
            // the delivery has a stashed round-one package
            assert forall|id: u16| round2_packages@.dom().contains(id) implies round1_packages@
                .dom().contains(id) by {
                if !round1_packages@.dom().contains(id) {
                    vstd::set_lib::lemma_len_subset(
                        round1_packages@.dom().insert(id),
                        round2_packages@.dom(),
                    );
                    assert(round1_packages@.dom().insert(id).len() == round1_packages@.dom().len()
                        + 1);
                }
            }
            assert(round2_packages@.dom().subset_of(round1_packages@.dom()));
        }
        let mut round2_culprits_set = IdSet::new();
        let incoming = round2_packages.entries();
        let mut j: usize = 0;
        while j < incoming.len()
            invariant
                old(self).wf(),
                old(self).model().round2_secret_package is Some,
                old(self).model().round1_packages is Some,
                round1_packages@ == old(self).model().round1_packages->0,
                round1_packages@.dom().len() == old(self).model().max_signers - 1,
                round1_packages@.dom().len() == round2_packages@.dom().len(),
                round1_packages@.dom().subset_of(round2_packages@.dom()),
                round2_packages@.dom().subset_of(round1_packages@.dom()),
                self.wf(),
                self.model() == consumed,
                consumed == (ParticipantModel {
                    round2_secret_package: None,
                    round1_packages: None,
                    ..old(self).model()
                }),
                self.identifier != 0,
                incoming@ == round2_packages.kv(),
                round1_packages.wf(),
                round2_packages.wf(),
                0 <= j <= incoming@.len(),
                round2_culprits_set.wf(),
                forall|x: u16|
                    #[trigger] round2_culprits_set@.contains(x) ==> round2_packages@
                        .dom().contains(x),
            decreases incoming@.len() - j,
        {
            let sender = incoming[j].0;
            proof {
                round2_packages.lemma_view();
                assert(round2_packages@.dom().contains(incoming@[j as int].0));
            }
            proof {
                assert(round1_packages@.dom().contains(sender));
            }
            let sender_round1_package = round1_packages.get(sender).unwrap();
            if C::secret_share_proven_invalid(self.identifier, &incoming[j].1, sender_round1_package)
            {
                let ghost prev = round2_culprits_set@;
                proof {
                    lemma_sorted_insert(prev, sender);
                }
                round2_culprits_set.insert(sender);
                proof {
                    assert forall|x: u16| #[trigger] round2_culprits_set@.contains(x) implies
                        round2_packages@.dom().contains(x) by {
                        assert(sorted_insert(prev, sender).contains(x));
                        if x != sender {
                            assert(prev.contains(x));
                        }
                    }
                }
            }
            j += 1;
        }
        if round2_culprits_set.len() != 0 {
            proof {
                assert(round2_culprits_set@.to_set() <= round2_packages@.dom());
            }
            self.round2_culprits_set = Some(round2_culprits_set);
            return Err(Error::Dkg(DkgError::InvalidSecretShares));
        }
        proof {
            round1_packages.lemma_view();
            round2_packages.lemma_view();
            assert forall|k: int| 0 <= k < round1_packages.kv().len() implies (#[trigger]
            round1_packages.kv()[k]).0 != 0 by {
                assert(round1_packages@.dom().contains(round1_packages.kv()[k].0));
            }
            assert forall|k: int| 0 <= k < round2_packages.kv().len() implies (#[trigger]
            round2_packages.kv()[k]).0 != 0 by {
                let x = round2_packages.kv()[k].0;
                assert(round2_packages@.dom().contains(x));
                // the key sets coincide: the stash is a subset of equal cardinality
                if !round1_packages@.dom().contains(x) {
                    vstd::set_lib::lemma_len_subset(
                        round1_packages@.dom().insert(x),
                        round2_packages@.dom(),
                    );
                    assert(round1_packages@.dom().insert(x).len() == round1_packages@.dom().len()
                        + 1);
                    assert(false);
                }
            }
        }
        match C::dkg_part3(
            &round2_secret_package,
            round1_packages.entries(),
            round2_packages.entries(),
        ) {
            Ok(pair) => Ok(pair),
            Err(e) => Err(Error::Frost(FrostError::Primitive(e))),
        }
    }

    /// The culprits detected by this participant's failed round three, in
    /// increasing order; available only after such a failure.
    pub fn round2_culprits(&self) -> (r: Result<Vec<u16>, Error<C>>)
        requires
            self.wf(),
        ensures
            match self.model().round2_culprits {
                Some(cs) => r matches Ok(v) && v@ == cs,
                None => r == Err::<Vec<u16>, Error<C>>(
                    Error::Dkg(DkgError::InvalidStateTransition),
                ),
            },
    {
        match &self.round2_culprits_set {
            Some(s) => {
                let mut v: Vec<u16> = Vec::new();
                let elems = s.elements();
                let mut i: usize = 0;
                while i < elems.len()
                    invariant
                        elems@ == s@,
                        0 <= i <= elems@.len(),
                        v@ == elems@.take(i as int),
                    decreases elems@.len() - i,
                {
                    v.push(elems[i]);
                    proof {
                        assert(elems@.take(i + 1) =~= elems@.take(i as int).push(
                            elems@[i as int],
                        ));
                    }
                    i += 1;
                }
                proof {
                    assert(elems@.take(elems@.len() as int) =~= elems@);
                }
                Ok(v)
            },
            None => Err(Error::Dkg(DkgError::InvalidStateTransition)),
        }
    }
}

/// Whether `v` holds `x`.
fn vec_contains(v: &Vec<u16>, x: u16) -> (b: bool)
    ensures
        b == v@.contains(x),
{
    let mut i: usize = 0;
    while i < v.len()
        invariant
            0 <= i <= v@.len(),
            forall|k: int| 0 <= k < i ==> v@[k] != x,
        decreases v@.len() - i,
    {
        if v[i] == x {
            return true;
        }
        i += 1;
    }
    false
}

} // verus!
