//! The ROAST session coordinator.
//!
//! The coordinator assembles overlapping signing sessions as responsive
//! signers report in, verifies incoming partial signatures, permanently
//! banishes misbehaving signers, and aggregates the final signature. Its
//! whole observable behaviour is captured by [`CoordinatorModel`], a
//! mathematical image of the state, and the transition predicates below.

use vstd::prelude::*;
use crate::ciphersuite::Ciphersuite;
use crate::error::{Error, FrostError, MaliciousSignerError, RoastError};
use crate::idmap::{lemma_sorted_insert, sorted_insert, strictly_sorted, IdMap, IdSet};
use crate::SessionId;

verus! {

/// All possible session statuses.
#[verifier::reject_recursive_types(C)]
pub enum SessionStatus<C: Ciphersuite> {
    /// No session was started or finished by this event.
    InProgress,
    /// A session started with `signers` and `signing_package`.
    Started {
        /// The signers forming the session, in increasing identifier order.
        signers: Vec<u16>,
        /// The latest commitment of each of those signers, in the same
        /// order: exactly what the signing package was built over.
        commitments: Vec<(u16, C::SigningCommitments)>,
        /// The signing package the signers are asked to sign.
        signing_package: C::SigningPackage,
    },
    /// A session finished.
    Finished {
        /// The final aggregated signature.
        signature: C::Signature,
    },
}

/// One pending or completed signing session.
struct Session<C: Ciphersuite> {
    signing_package: C::SigningPackage,
    signature_shares: IdMap<C::SignatureShare>,
    members: Ghost<Seq<u16>>,
    commitments: Ghost<Seq<(u16, C::SigningCommitments)>>,
}

/// The mathematical image of one session: its opaque signing package, the
/// verified shares collected so far, and the ordered quorum that formed it.
#[verifier::ext_equal]
#[verifier::reject_recursive_types(C)]
pub ghost struct SessionModel<C: Ciphersuite> {
    /// The signing package handed to the quorum.
    pub signing_package: C::SigningPackage,
    /// The verified signature shares received so far, by signer.
    pub signature_shares: Map<u16, C::SignatureShare>,
    /// The signers that formed the session, in increasing order.
    pub members: Seq<u16>,
    /// The commitment of each member that went into the signing package,
    /// in the same order.
    pub commitments: Seq<(u16, C::SigningCommitments)>,
}

/// The mathematical image of the whole coordinator state.
#[verifier::ext_equal]
#[verifier::reject_recursive_types(C)]
pub ghost struct CoordinatorModel<C: Ciphersuite> {
    /// The number of signers `n`.
    pub max_signers: int,
    /// The threshold `t`.
    pub min_signers: int,
    /// The group's public key material, fixed at construction.
    pub public_key_package: C::PublicKeyPackage,
    /// The fixed message to sign.
    pub message: Seq<u8>,
    /// Signers whose next commitment is on file and who are not yet assigned
    /// to a pending session, in increasing order.
    pub responsive_signers: Seq<u16>,
    /// Banished signers, with the reason each was banished. Append-only.
    pub malicious_signers: Map<u16, MaliciousSignerError>,
    /// The most recent unconsumed commitment of each signer.
    pub latest_signing_commitments: Map<u16, C::SigningCommitments>,
    /// How many sessions have been opened; session ids run from 1 to here.
    pub session_counter: int,
    /// For each signer, the most recent session it was assigned to.
    pub signer_session: Map<u16, SessionId>,
    /// The sessions, in order of opening: session `sid` is at index
    /// `sid - 1`.
    pub sessions: Seq<SessionModel<C>>,
}

impl<C: Ciphersuite> CoordinatorModel<C> {
    /// The signers of session `sid` that still owe it their share.
    pub open spec fn owing(self, sid: SessionId) -> Set<u16> {
        self.sessions[sid - 1].members.to_set().difference(
            self.sessions[sid - 1].signature_shares.dom(),
        )
    }

    /// `self` with `id` banished for `kind`.
    pub open spec fn marked(self, id: u16, kind: MaliciousSignerError) -> Self {
        CoordinatorModel { malicious_signers: self.malicious_signers.insert(id, kind), ..self }
    }

    /// The error that banishing `id` for `kind` reports: the banishment
    /// itself, or the declaration that no quorum is possible any more once
    /// more than `n - t` signers are banished.
    pub open spec fn marking_error(self, id: u16, kind: MaliciousSignerError) -> Error<C> {
        if self.malicious_signers.insert(id, kind).dom().len() > self.max_signers
            - self.min_signers {
            Error::Roast(RoastError::TooManyMaliciousSigners)
        } else {
            Error::Roast(RoastError::MaliciousSigner(kind))
        }
    }

    /// `self` with `share` recorded for `id` in session `sid`.
    pub open spec fn with_share(self, sid: SessionId, id: u16, share: C::SignatureShare) -> Self {
        CoordinatorModel {
            sessions: self.sessions.update(
                sid - 1,
                SessionModel {
                    signature_shares: self.sessions[sid - 1].signature_shares.insert(id, share),
                    ..self.sessions[sid - 1]
                },
            ),
            ..self
        }
    }

    /// `self` with `id`'s fresh commitment registered and `id` made
    /// responsive.
    pub open spec fn registered(self, id: u16, commitments: C::SigningCommitments) -> Self {
        CoordinatorModel {
            responsive_signers: sorted_insert(self.responsive_signers, id),
            latest_signing_commitments: self.latest_signing_commitments.insert(id, commitments),
            ..self
        }
    }

    /// One commitment pair per member of `quorum`, in quorum order, each
    /// drawn from `latest`.
    pub open spec fn quorum_commitments(
        latest: Map<u16, C::SigningCommitments>,
        quorum: Seq<u16>,
    ) -> Seq<(u16, C::SigningCommitments)> {
        quorum.map_values(|x: u16| (x, latest[x]))
    }

    /// `ss` with every identifier of `ids` bound to session `sid`.
    pub open spec fn bind_all(ss: Map<u16, SessionId>, ids: Seq<u16>, sid: SessionId) -> Map<
        u16,
        SessionId,
    >
        decreases ids.len(),
    {
        if ids.len() == 0 {
            ss
        } else {
            Self::bind_all(ss, ids.drop_last(), sid).insert(ids.last(), sid)
        }
    }

    /// `self` after registering `id` and opening a new session with the full
    /// responsive quorum: the quorum is bound to the new session, a session
    /// with signing package `pkg` and no shares is appended, and the
    /// responsive set is drained.
    pub open spec fn opened(
        self,
        id: u16,
        commitments: C::SigningCommitments,
        pkg: C::SigningPackage,
    ) -> Self {
        let quorum = sorted_insert(self.responsive_signers, id);
        let sid = (self.session_counter + 1) as SessionId;
        let latest = self.latest_signing_commitments.insert(id, commitments);
        CoordinatorModel {
            responsive_signers: Seq::empty(),
            latest_signing_commitments: latest,
            session_counter: self.session_counter + 1,
            signer_session: Self::bind_all(self.signer_session, quorum, sid),
            sessions: self.sessions.push(
                SessionModel {
                    signing_package: pkg,
                    signature_shares: Map::empty(),
                    members: quorum,
                    commitments: Self::quorum_commitments(latest, quorum),
                },
            ),
            ..self
        }
    }
}

impl<C: Ciphersuite> CoordinatorModel<C> {
    /// What `bind_all` binds: everything in `ids` points to `sid`, the rest
    /// of the map is untouched.
    pub proof fn lemma_bind_all(ss: Map<u16, SessionId>, ids: Seq<u16>, sid: SessionId)
        ensures
            Self::bind_all(ss, ids, sid).dom() == ss.dom() + ids.to_set(),
            forall|k: u16|
                ids.contains(k) ==> Self::bind_all(ss, ids, sid).dom().contains(k)
                    && Self::bind_all(ss, ids, sid)[k] == sid,
            forall|k: u16|
                !ids.contains(k) && ss.dom().contains(k) ==> Self::bind_all(
                    ss,
                    ids,
                    sid,
                ).dom().contains(k) && Self::bind_all(ss, ids, sid)[k] == ss[k],
        decreases ids.len(),
    {
        broadcast use vstd::seq_lib::group_seq_properties;

        if ids.len() == 0 {
            assert(Self::bind_all(ss, ids, sid).dom() =~= ss.dom() + ids.to_set());
        } else {
            let dl = ids.drop_last();
            Self::lemma_bind_all(ss, dl, sid);
            assert(ids =~= dl.push(ids.last()));
            assert(ids.to_set() =~= dl.to_set().insert(ids.last())) by {
                broadcast use vstd::prelude::Seq::lemma_push_to_set_commute;

            }
            assert(Self::bind_all(ss, ids, sid).dom() =~= ss.dom() + ids.to_set());
        }
    }
}

/// The coordinator of the ROAST protocol.
#[verifier::reject_recursive_types(C)]
pub struct Coordinator<C: Ciphersuite> {
    max_signers: u16,
    min_signers: u16,
    public_key_package: C::PublicKeyPackage,
    message: Vec<u8>,
    responsive_signers: IdSet,
    malicious_signers: IdMap<MaliciousSignerError>,
    latest_signing_commitments: IdMap<C::SigningCommitments>,
    session_counter: SessionId,
    signer_session: IdMap<SessionId>,
    sessions: Vec<Session<C>>,
}

impl<C: Ciphersuite> Coordinator<C> {
    /// The mathematical image of the state.
    pub closed spec fn model(&self) -> CoordinatorModel<C> {
        CoordinatorModel {
            max_signers: self.max_signers as int,
            min_signers: self.min_signers as int,
            public_key_package: self.public_key_package,
            message: self.message@,
            responsive_signers: self.responsive_signers@,
            malicious_signers: self.malicious_signers@,
            latest_signing_commitments: self.latest_signing_commitments@,
            session_counter: self.session_counter as int,
            signer_session: self.signer_session@,
            sessions: self.sessions@.map_values(
                |s: Session<C>| SessionModel {
                    signing_package: s.signing_package,
                    signature_shares: s.signature_shares@,
                    members: s.members@,
                    commitments: s.commitments@,
                },
            ),
        }
    }

    /// The coordinator's state invariant, over its mathematical image.
    pub open spec fn inv(m: CoordinatorModel<C>) -> bool {
        &&& 2 <= m.min_signers <= m.max_signers <= 0xFFFF
        &&& 0 <= m.session_counter == m.sessions.len()
        &&& strictly_sorted(m.responsive_signers)
        &&& m.responsive_signers.len() < m.min_signers
        &&& forall|i: int|
            0 <= i < m.responsive_signers.len() ==> #[trigger] m.responsive_signers[i] != 0
        &&& forall|id: u16|
            m.responsive_signers.contains(id)
                ==> m.latest_signing_commitments.dom().contains(id)
        &&& forall|k: int|
            0 <= k < m.sessions.len() ==> Self::session_inv(m, #[trigger] m.sessions[k])
        &&& forall|id: u16|
            #[trigger] m.signer_session.dom().contains(id) ==> 1 <= m.signer_session[id]
                <= m.sessions.len() && m.sessions[m.signer_session[id] - 1].members.contains(id)
        &&& forall|k: int, id: u16|
            0 <= k < m.sessions.len() && (#[trigger] m.sessions[k].members.contains(id))
                && !m.sessions[k].signature_shares.dom().contains(id)
                ==> m.signer_session.dom().contains(id) && m.signer_session[id] == k + 1
        &&& forall|id: u16|
            #[trigger] m.responsive_signers.contains(id) && m.signer_session.dom().contains(id)
                ==> m.sessions[m.signer_session[id] - 1].signature_shares.dom().contains(id)
    }

    /// The per-session part of the invariant: the quorum is an ordered set of
    /// exactly `t` non-zero identifiers, and only quorum members ever
    /// contribute shares.
    pub open spec fn session_inv(m: CoordinatorModel<C>, s: SessionModel<C>) -> bool {
        &&& strictly_sorted(s.members)
        &&& s.members.len() == m.min_signers
        &&& forall|i: int| 0 <= i < s.members.len() ==> #[trigger] s.members[i] != 0
        &&& s.signature_shares.dom() <= s.members.to_set()
        &&& s.commitments.len() == s.members.len()
        &&& forall|i: int| 0 <= i < s.members.len() ==> (#[trigger] s.commitments[i]).0
            == s.members[i]
    }

    /// Well-formedness: the containers are ordered and the invariant holds.
    pub closed spec fn wf(&self) -> bool {
        &&& self.responsive_signers.wf()
        &&& self.malicious_signers.wf()
        &&& self.latest_signing_commitments.wf()
        &&& self.signer_session.wf()
        &&& forall|k: int|
            0 <= k < self.sessions@.len() ==> (#[trigger] self.sessions@[k]).signature_shares.wf()
        &&& Self::inv(self.model())
    }

    /// A well-formed coordinator satisfies the state invariant.
    pub proof fn lemma_wf_inv(&self)
        requires
            self.wf(),
        ensures
            Self::inv(self.model()),
    {
    }

    /// Creates a new coordinator for signing `message` with `min_signers` of
    /// `max_signers` signers, rejecting parameters for which no `t`-of-`n`
    /// setup exists: a threshold below two, fewer than two signers, or a
    /// threshold above the number of signers.
    pub fn new(
        max_signers: u16,
        min_signers: u16,
        public_key_package: C::PublicKeyPackage,
        message: Vec<u8>,
    ) -> (r: Result<Self, Error<C>>)
        ensures
            min_signers < 2 ==> r == Err::<Self, Error<C>>(
                Error::Frost(FrostError::InvalidMinSigners),
            ),
            min_signers >= 2 && max_signers < 2 ==> r == Err::<Self, Error<C>>(
                Error::Frost(FrostError::InvalidMaxSigners),
            ),
            min_signers >= 2 && max_signers >= 2 && min_signers > max_signers ==> r
                == Err::<Self, Error<C>>(Error::Frost(FrostError::InvalidMinSigners)),
            2 <= min_signers <= max_signers ==> (r matches Ok(c) && c.wf() && c.model()
                == (CoordinatorModel::<C> {
                max_signers: max_signers as int,
                min_signers: min_signers as int,
                public_key_package: public_key_package,
                message: message@,
                responsive_signers: Seq::empty(),
                malicious_signers: Map::empty(),
                latest_signing_commitments: Map::empty(),
                session_counter: 0,
                signer_session: Map::empty(),
                sessions: Seq::empty(),
            })),
    {
        if min_signers < 2 {
            return Err(Error::Frost(FrostError::InvalidMinSigners));
        }
        if max_signers < 2 {
            return Err(Error::Frost(FrostError::InvalidMaxSigners));
        }
        if min_signers > max_signers {
            return Err(Error::Frost(FrostError::InvalidMinSigners));
        }
        let c = Coordinator {
            max_signers,
            min_signers,
            public_key_package,
            message,
            responsive_signers: IdSet::new(),
            malicious_signers: IdMap::new(),
            latest_signing_commitments: IdMap::new(),
            session_counter: 0,
            signer_session: IdMap::new(),
            sessions: Vec::new(),
        };
        proof {
            assert(c.model().sessions =~= Seq::<SessionModel<C>>::empty());
        }
        Ok(c)
    }

    /// What a registration step does, starting from state `m`: `id`'s fresh
    /// commitment is recorded and `id` joins the responsive set; if that set
    /// thereby reaches the threshold, a new session is opened with it.
    pub open spec fn register_post(
        m: CoordinatorModel<C>,
        m1: CoordinatorModel<C>,
        id: u16,
        commitments: C::SigningCommitments,
        r: Result<SessionStatus<C>, Error<C>>,
    ) -> bool {
        if sorted_insert(m.responsive_signers, id).len() == m.min_signers {
            &&& (exists|pkg: C::SigningPackage| m1 == m.opened(id, commitments, pkg))
            &&& (r matches Ok(st) && st matches SessionStatus::Started {
                signers,
                commitments: quorum_commitments,
                ..
            } && signers@ == sorted_insert(m.responsive_signers, id) && quorum_commitments@
                == CoordinatorModel::<C>::quorum_commitments(
                m.latest_signing_commitments.insert(id, commitments),
                sorted_insert(m.responsive_signers, id),
            ))
        } else {
            &&& m1 == m.registered(id, commitments)
            &&& r == Ok::<SessionStatus<C>, Error<C>>(SessionStatus::InProgress)
        }
    }

    /// The full observable behaviour of [`Coordinator::receive`]: the
    /// decision pipeline of the ROAST coordinator, rule by rule. The only
    /// freedom left open is the outcome of the two ciphersuite primitives:
    /// share verification (a rejected share banishes the signer) and
    /// aggregation (whose failure is reported as a primitive error).
    pub open spec fn receive_post(
        m0: CoordinatorModel<C>,
        m1: CoordinatorModel<C>,
        id: u16,
        share: Option<C::SignatureShare>,
        commitments: C::SigningCommitments,
        r: Result<SessionStatus<C>, Error<C>>,
    ) -> bool {
        if m0.malicious_signers.dom().contains(id) {
            &&& m1 == m0
            &&& r == Err::<SessionStatus<C>, Error<C>>(
                Error::Roast(RoastError::MaliciousSigner(m0.malicious_signers[id])),
            )
        } else if m0.responsive_signers.contains(id) {
            &&& m1 == m0.marked(id, MaliciousSignerError::UnsolicitedReply)
            &&& r == Err::<SessionStatus<C>, Error<C>>(
                m0.marking_error(id, MaliciousSignerError::UnsolicitedReply),
            )
        } else if m0.signer_session.dom().contains(id) {
            let sid = m0.signer_session[id];
            match share {
                None => {
                    &&& m1 == m0.marked(id, MaliciousSignerError::InvalidSignatureShare)
                    &&& r == Err::<SessionStatus<C>, Error<C>>(
                        m0.marking_error(id, MaliciousSignerError::InvalidSignatureShare),
                    )
                },
                Some(sh) => {
                    ||| {
                        &&& m1 == m0.marked(id, MaliciousSignerError::InvalidSignatureShare)
                        &&& r == Err::<SessionStatus<C>, Error<C>>(
                            m0.marking_error(id, MaliciousSignerError::InvalidSignatureShare),
                        )
                    }
                    ||| {
                        let mm = m0.with_share(sid, id, sh);
                        if mm.sessions[sid - 1].signature_shares.dom().len() == mm.min_signers {
                            &&& m1 == mm
                            &&& ((r matches Ok(st) && st is Finished) || (r matches Err(e) && e
                                matches Error::Frost(FrostError::Primitive(_))))
                        } else {
                            Self::register_post(mm, m1, id, commitments, r)
                        }
                    }
                },
            }
        } else {
            Self::register_post(m0, m1, id, commitments, r)
        }
    }

    /// Recording a share from a signer bound to session `sid` preserves the
    /// invariant.
    proof fn lemma_inv_with_share(
        m: CoordinatorModel<C>,
        sid: SessionId,
        id: u16,
        share: C::SignatureShare,
    )
        requires
            Self::inv(m),
            m.signer_session.dom().contains(id),
            m.signer_session[id] == sid,
        ensures
            Self::inv(m.with_share(sid, id, share)),
    {
        let mm = m.with_share(sid, id, share);
        assert(m.sessions[sid - 1].members.contains(id));
        assert(mm.sessions[sid - 1].signature_shares.dom() <= mm.sessions[
            sid - 1
        ].members.to_set()) by {
            assert(m.sessions[sid - 1].members.to_set().contains(id));
        }
        assert(forall|k: int|
            0 <= k < mm.sessions.len() && k != sid - 1 ==> mm.sessions[k] == m.sessions[k]);
        assert(Self::session_inv(mm, mm.sessions[sid - 1]));
    }

    /// The hypotheses common to both registration outcomes: the signer is
    /// not yet responsive, is real, and does not owe any session a share.
    pub open spec fn can_register(m: CoordinatorModel<C>, id: u16) -> bool {
        &&& Self::inv(m)
        &&& !m.responsive_signers.contains(id)
        &&& id != 0
        &&& m.signer_session.dom().contains(id) ==> m.sessions[m.signer_session[id]
            - 1].signature_shares.dom().contains(id)
    }

    /// Registering below the threshold preserves the invariant.
    proof fn lemma_inv_registered(m: CoordinatorModel<C>, id: u16, commitments: C::SigningCommitments)
        requires
            Self::can_register(m, id),
            sorted_insert(m.responsive_signers, id).len() != m.min_signers,
        ensures
            Self::inv(m.registered(id, commitments)),
    {
        let m1 = m.registered(id, commitments);
        lemma_sorted_insert(m.responsive_signers, id);
        assert(m1.responsive_signers.len() <= m.responsive_signers.len() + 1);
        assert forall|i: int| 0 <= i < m1.responsive_signers.len() implies #[trigger] m1
            .responsive_signers[i] != 0 by {
            let x = m1.responsive_signers[i];
            assert(m1.responsive_signers.contains(x));
            if m.responsive_signers.contains(x) {
                let j = choose|j: int|
                    0 <= j < m.responsive_signers.len() && m.responsive_signers[j] == x;
                assert(m.responsive_signers[j] != 0);
            }
        }
        assert forall|x: u16| #[trigger] m1.responsive_signers.contains(x) implies m1
            .latest_signing_commitments.dom().contains(x) by {
            if m.responsive_signers.contains(x) {
                assert(m.latest_signing_commitments.dom().contains(x));
            }
        }
        assert forall|x: u16|
            #[trigger] m1.responsive_signers.contains(x) && m1.signer_session.dom().contains(x)
            implies m1.sessions[m1.signer_session[x] - 1].signature_shares.dom().contains(x) by {
            if x == id {
                assert(m.sessions[m.signer_session[id] - 1].signature_shares.dom().contains(id));
            } else {
                assert(m.responsive_signers.contains(x));
                assert(m.sessions[m.signer_session[x] - 1].signature_shares.dom().contains(x));
            }
        }
    }

    /// Registering at the threshold and opening a session with the quorum
    /// preserves the invariant.
    proof fn lemma_inv_opened(
        m: CoordinatorModel<C>,
        id: u16,
        commitments: C::SigningCommitments,
        pkg: C::SigningPackage,
    )
        requires
            Self::can_register(m, id),
            sorted_insert(m.responsive_signers, id).len() == m.min_signers,
            m.session_counter < 0xFFFF,
        ensures
            Self::inv(m.opened(id, commitments, pkg)),
    {
        let m1 = m.opened(id, commitments, pkg);
        let quorum = sorted_insert(m.responsive_signers, id);
        let sid = (m.session_counter + 1) as SessionId;
        lemma_sorted_insert(m.responsive_signers, id);
        CoordinatorModel::<C>::lemma_bind_all(m.signer_session, quorum, sid);
        // quorum members are responsive signers or the newcomer: all non-zero,
        // and none of them owes any session a share.
        assert forall|x: u16| #[trigger] quorum.contains(x) implies x != 0 by {
            if m.responsive_signers.contains(x) {
                let i = choose|i: int|
                    0 <= i < m.responsive_signers.len() && m.responsive_signers[i] == x;
                assert(m.responsive_signers[i] != 0);
            }
        }
        assert forall|i: int| 0 <= i < quorum.len() implies #[trigger] quorum[i] != 0 by {
            assert(quorum.contains(quorum[i]));
        }
        // the new session satisfies the per-session invariant
        assert(Self::session_inv(m1, m1.sessions[sid - 1]));
        assert(forall|k: int| 0 <= k < m.sessions.len() ==> m1.sessions[k] == m.sessions[k]);
        // bindings: quorum members point at the new session and are its
        // members; everything else is untouched
        assert forall|x: u16| #[trigger] m1.signer_session.dom().contains(x) implies 1
            <= m1.signer_session[x] <= m1.sessions.len() && m1.sessions[m1.signer_session[x]
            - 1].members.contains(x) by {
            if quorum.contains(x) {
                assert(m1.signer_session[x] == sid);
            } else {
                assert(m.signer_session.dom().contains(x));
                assert(m1.signer_session[x] == m.signer_session[x]);
            }
        }
        // owing signers of old sessions are not in the quorum, so their
        // binding survives
        assert forall|k: int, x: u16|
            0 <= k < m1.sessions.len() && (#[trigger] m1.sessions[k].members.contains(x))
                && !m1.sessions[k].signature_shares.dom().contains(x) implies m1
            .signer_session.dom().contains(x) && m1.signer_session[x] == k + 1 by {
            if k == sid - 1 {
                assert(quorum.contains(x));
                assert(m1.signer_session[x] == sid);
            } else {
                assert(m.sessions[k].members.contains(x));
                assert(m.signer_session[x] == k + 1);
                if quorum.contains(x) {
                    // a quorum member was responsive or is the newcomer, and
                    // in either case had delivered its share to its bound
                    // session, so it cannot owe session k + 1 a share
                    if x == id {
                        assert(m.sessions[m.signer_session[id] - 1].signature_shares.dom().contains(
                            id,
                        ));
                    } else {
                        assert(m.responsive_signers.contains(x));
                        assert(m.sessions[m.signer_session[x] - 1].signature_shares.dom().contains(
                            x,
                        ));
                    }
                    assert(m.sessions[k].signature_shares.dom().contains(x));
                }
                assert(m1.signer_session[x] == m.signer_session[x]);
            }
        }
    }

    /// Collects, in quorum order, each quorum member's latest registered
    /// commitment: exactly the list the session's signing package is built
    /// over.
    fn collect_quorum_commitments(&self, quorum: &Vec<u16>) -> (v: Vec<
        (u16, C::SigningCommitments),
    >)
        requires
            self.latest_signing_commitments.wf(),
            forall|k: int|
                0 <= k < quorum@.len() ==> self.latest_signing_commitments@.dom().contains(
                    #[trigger] quorum@[k],
                ),
        ensures
            v@ == CoordinatorModel::<C>::quorum_commitments(
                self.latest_signing_commitments@,
                quorum@,
            ),
    {
        let ghost latest = self.latest_signing_commitments@;
        let mut v: Vec<(u16, C::SigningCommitments)> = Vec::new();
        let mut i: usize = 0;
        while i < quorum.len()
            invariant
                self.latest_signing_commitments.wf(),
                self.latest_signing_commitments@ == latest,
                forall|k: int|
                    0 <= k < quorum@.len() ==> latest.dom().contains(#[trigger] quorum@[k]),
                0 <= i <= quorum@.len(),
                v@ == CoordinatorModel::<C>::quorum_commitments(latest, quorum@.take(i as int)),
            decreases quorum@.len() - i,
        {
            let member = quorum[i];
            if let Some(commitment) = self.latest_signing_commitments.get_copy(member) {
                v.push((member, commitment));
            } else {
                proof {
                    assert(latest.dom().contains(quorum@[i as int]));
                    assert(false);
                }
            }
            proof {
                assert(quorum@.take(i + 1) =~= quorum@.take(i as int).push(quorum@[i as int]));
                assert(v@ =~= CoordinatorModel::<C>::quorum_commitments(
                    latest,
                    quorum@.take(i + 1),
                ));
            }
            i += 1;
        }
        proof {
            assert(quorum@.take(quorum@.len() as int) =~= quorum@);
        }
        v
    }

    /// Banishes `identifier` for `malicious_signer_error` and reports the
    /// banishment, or `TooManyMaliciousSigners` once more than `n - t`
    /// signers are banished. Banishment is the only state change.
    fn mark_malicious(
        &mut self,
        identifier: u16,
        malicious_signer_error: MaliciousSignerError,
    ) -> (e: Error<C>)
        requires
            old(self).wf(),
        ensures
            final(self).wf(),
            final(self).model() == old(self).model().marked(identifier, malicious_signer_error),
            e == old(self).model().marking_error(identifier, malicious_signer_error),
    {
        self.malicious_signers.insert(identifier, malicious_signer_error);
        proof {
            assert(final(self).model() =~~= old(self).model().marked(
                identifier,
                malicious_signer_error,
            ));
        }
        if self.malicious_signers.len() > (self.max_signers - self.min_signers) as usize {
            return Error::Roast(RoastError::TooManyMaliciousSigners);
        }
        Error::Roast(RoastError::MaliciousSigner(malicious_signer_error))
    }

    /// Receives one event from signer `identifier`: an optional partial
    /// signature for the session the signer is bound to, and a fresh
    /// commitment for the next session.
    ///
    /// The decision pipeline, in order: a banished signer is rejected with
    /// its recorded reason and no state change; an unsolicited reply banishes
    /// the signer; a missing or rejected share from a signer that owes one
    /// banishes it; an accepted share is recorded and, if it completes its
    /// session's quorum, aggregated into the final signature. In every
    /// remaining case the fresh commitment is registered, and a new session
    /// opens the moment `t` signers are responsive. [`Self::receive_post`]
    /// states all of this precisely.
    pub fn receive(
        &mut self,
        identifier: u16,
        signature_share: Option<C::SignatureShare>,
        signing_commitments: C::SigningCommitments,
    ) -> (r: Result<SessionStatus<C>, Error<C>>)
        requires
            old(self).wf(),
            identifier != 0,
            old(self).model().session_counter < 0xFFFF,
        ensures
            final(self).wf(),
            Self::receive_post(
                old(self).model(),
                final(self).model(),
                identifier,
                signature_share,
                signing_commitments,
                r,
            ),
    {
        let ghost m0 = self.model();
        if let Some(kind) = self.malicious_signers.get_copy(identifier) {
            return Err(Error::Roast(RoastError::MaliciousSigner(kind)));
        }
        if self.responsive_signers.contains(identifier) {
            let e = self.mark_malicious(identifier, MaliciousSignerError::UnsolicitedReply);
            return Err(e);
        }
        let bound = self.signer_session.get_copy(identifier);
        if let Some(session_id) = bound {
            proof {
                assert(m0.signer_session.dom().contains(identifier));
                assert(session_id == m0.signer_session[identifier]);
                assert(1 <= session_id <= self.sessions@.len());
            }
            let share = match signature_share {
                Some(share) => share,
                None => {
                    let e = self.mark_malicious(
                        identifier,
                        MaliciousSignerError::InvalidSignatureShare,
                    );
                    return Err(e);
                },
            };
            let index: usize = (session_id - 1) as usize;
            let verified = match C::verifying_share(&self.public_key_package, identifier) {
                Some(verifying_share) => C::verify_signature_share(
                    identifier,
                    &verifying_share,
                    &share,
                    &self.sessions[index].signing_package,
                    &self.public_key_package,
                ),
                None => false,
            };
            if !verified {
                let e = self.mark_malicious(identifier, MaliciousSignerError::InvalidSignatureShare);
                return Err(e);
            }
            let mut session = self.sessions.remove(index);
            session.signature_shares.insert(identifier, share);
            self.sessions.insert(index, session);
            proof {
                assert(self.sessions@ =~= old(self).sessions@.update(
                    index as int,
                    self.sessions@[index as int],
                ));
                assert(self.model() =~~= m0.with_share(session_id, identifier, share));
                Self::lemma_inv_with_share(m0, session_id, identifier, share);
            }
            let reached = self.sessions[index].signature_shares.len()
                == self.min_signers as usize;
            if reached {
                proof {
                    let s = self.sessions@[index as int];
                    s.signature_shares.lemma_view();
                    assert forall|i: int|
                        0 <= i < s.signature_shares.kv().len() implies (#[trigger] s
                        .signature_shares.kv()[i]).0 != 0 by {
                        let x = s.signature_shares.kv()[i].0;
                        assert(s.signature_shares@.dom().contains(x));
                        assert(s.members@.to_set().contains(x));
                        let j = choose|j: int| 0 <= j < s.members@.len() && s.members@[j] == x;
                        assert(s.members@[j] != 0);
                    }
                }
                let aggregated = C::aggregate(
                    &self.sessions[index].signing_package,
                    self.sessions[index].signature_shares.entries(),
                    &self.public_key_package,
                );
                return match aggregated {
                    Ok(signature) => Ok(SessionStatus::Finished { signature }),
                    Err(e) => Err(Error::Frost(FrostError::Primitive(e))),
                };
            }
        }
        let ghost mbase = self.model();
        proof {
            assert(Self::inv(mbase));
            assert(Self::can_register(mbase, identifier));
        }
        self.latest_signing_commitments.insert(identifier, signing_commitments);
        self.responsive_signers.insert(identifier);
        proof {
            lemma_sorted_insert(mbase.responsive_signers, identifier);
        }
        if self.responsive_signers.len() == self.min_signers as usize {
            self.session_counter = self.session_counter + 1;
            let session_id = self.session_counter;
            let member_ids = self.responsive_signers.take();
            let ghost quorum = member_ids@;
            proof {
                assert(quorum == sorted_insert(mbase.responsive_signers, identifier));
                assert forall|k: int| 0 <= k < quorum.len() implies #[trigger] quorum[k] != 0 by {
                    let x = quorum[k];
                    assert(quorum.contains(x));
                    if mbase.responsive_signers.contains(x) {
                        let j = choose|j: int|
                            0 <= j < mbase.responsive_signers.len() && mbase.responsive_signers[j]
                                == x;
                        assert(mbase.responsive_signers[j] != 0);
                    }
                }
            }
            let ghost latest_now = self.latest_signing_commitments@;
            proof {
                assert(latest_now == mbase.latest_signing_commitments.insert(
                    identifier,
                    signing_commitments,
                ));
                // every quorum member registered a commitment before joining
                assert forall|k: int| 0 <= k < quorum.len() implies latest_now.dom().contains(
                    #[trigger] quorum[k],
                ) by {
                    let x = quorum[k];
                    assert(quorum.contains(x));
                    if x != identifier {
                        assert(mbase.responsive_signers.contains(x));
                        assert(mbase.latest_signing_commitments.dom().contains(x));
                    }
                }
            }
            let commitment_list = self.collect_quorum_commitments(&member_ids);
            proof {
                assert forall|k: int| 0 <= k < commitment_list@.len() implies (#[trigger]
                commitment_list@[k]).0 != 0 by {
                    assert(commitment_list@[k].0 == quorum[k]);
                }
            }
            let signing_package = C::signing_package(&commitment_list, &self.message);
            let ghost before_bind = *self;
            let mut j: usize = 0;
            while j < member_ids.len()
                invariant
                    self.signer_session.wf(),
                    member_ids@ == quorum,
                    0 <= j <= quorum.len(),
                    self.signer_session@ == CoordinatorModel::<C>::bind_all(
                        mbase.signer_session,
                        quorum.take(j as int),
                        session_id,
                    ),
                    self.max_signers == before_bind.max_signers,
                    self.min_signers == before_bind.min_signers,
                    self.public_key_package == before_bind.public_key_package,
                    self.message == before_bind.message,
                    self.responsive_signers == before_bind.responsive_signers,
                    self.malicious_signers == before_bind.malicious_signers,
                    self.latest_signing_commitments == before_bind.latest_signing_commitments,
                    self.session_counter == before_bind.session_counter,
                    self.sessions == before_bind.sessions,
                decreases member_ids@.len() - j,
            {
                proof {
                    assert(quorum.take(j + 1).drop_last() =~= quorum.take(j as int));
                    assert(quorum.take(j + 1).last() == quorum[j as int]);
                }
                self.signer_session.insert(member_ids[j], session_id);
                j += 1;
            }
            proof {
                assert(quorum.take(quorum.len() as int) =~= quorum);
            }
            let stored_package = signing_package.clone();
            self.sessions.push(
                Session {
                    signing_package: stored_package,
                    signature_shares: IdMap::new(),
                    members: Ghost(quorum),
                    commitments: Ghost(commitment_list@),
                },
            );
            proof {
                let pkg = self.sessions@.last().signing_package;
                assert(self.model() =~~= mbase.opened(identifier, signing_commitments, pkg));
                Self::lemma_inv_opened(mbase, identifier, signing_commitments, pkg);
            }
            return Ok(
                SessionStatus::Started {
                    signers: member_ids,
                    commitments: commitment_list,
                    signing_package,
                },
            );
        }
        proof {
            assert(self.model() =~~= mbase.registered(identifier, signing_commitments));
            Self::lemma_inv_registered(mbase, identifier, signing_commitments);
        }
        Ok(SessionStatus::InProgress)
    }

    /// A responsive signer is never awaited by any session: a signer is
    /// either awaiting the coordinator's signing package or available for the
    /// next session, never both.
    pub proof fn lemma_responsive_owe_nothing(m: CoordinatorModel<C>, id: u16, sid: SessionId)
        requires
            Self::inv(m),
            m.responsive_signers.contains(id),
            1 <= sid <= m.sessions.len(),
        ensures
            !m.owing(sid).contains(id),
    {
        if m.owing(sid).contains(id) {
            assert(m.sessions[sid - 1].members.to_set().contains(id));
            assert(m.sessions[sid - 1].members.contains(id));
            assert(!m.sessions[sid - 1].signature_shares.dom().contains(id));
            assert(m.signer_session.dom().contains(id) && m.signer_session[id] == sid);
            assert(m.sessions[sid - 1].signature_shares.dom().contains(id));
        }
    }

    /// No session ever holds more than `t` signature shares.
    pub proof fn lemma_share_count_bound(m: CoordinatorModel<C>, sid: SessionId)
        requires
            Self::inv(m),
            1 <= sid <= m.sessions.len(),
        ensures
            m.sessions[sid - 1].signature_shares.dom().len() <= m.min_signers,
    {
        let s = m.sessions[sid - 1];
        crate::idmap::lemma_strictly_sorted_set_len(s.members);
        vstd::set_lib::lemma_len_subset(s.signature_shares.dom(), s.members.to_set());
    }

    /// Banishment is terminal and idempotent: any further event from a
    /// banished signer is rejected with the originally recorded reason, and
    /// the coordinator's state does not change at all.
    pub proof fn lemma_banishment_is_terminal(
        m0: CoordinatorModel<C>,
        m1: CoordinatorModel<C>,
        id: u16,
        share: Option<C::SignatureShare>,
        commitments: C::SigningCommitments,
        r: Result<SessionStatus<C>, Error<C>>,
    )
        requires
            Self::receive_post(m0, m1, id, share, commitments, r),
            m0.malicious_signers.dom().contains(id),
        ensures
            m1 == m0,
            r == Err::<SessionStatus<C>, Error<C>>(
                Error::Roast(RoastError::MaliciousSigner(m0.malicious_signers[id])),
            ),
            m1.malicious_signers.dom().contains(id),
    {
    }

    /// The banished set is append-only: an event never removes a banished
    /// signer nor rewrites the recorded reason.
    pub proof fn lemma_malicious_append_only(
        m0: CoordinatorModel<C>,
        m1: CoordinatorModel<C>,
        id: u16,
        share: Option<C::SignatureShare>,
        commitments: C::SigningCommitments,
        r: Result<SessionStatus<C>, Error<C>>,
    )
        requires
            Self::receive_post(m0, m1, id, share, commitments, r),
        ensures
            forall|x: u16|
                #[trigger] m0.malicious_signers.dom().contains(x)
                    ==> m1.malicious_signers.dom().contains(x) && m1.malicious_signers[x]
                    == m0.malicious_signers[x],
    {
        if m0.malicious_signers.dom().contains(id) {
        } else if m0.responsive_signers.contains(id) {
        } else if m0.signer_session.dom().contains(id) && share is Some {
            let sid = m0.signer_session[id];
            let sh = share->0;
            let mm = m0.with_share(sid, id, sh);
            if !(m1 == m0.marked(id, MaliciousSignerError::InvalidSignatureShare)) {
                if mm.sessions[sid - 1].signature_shares.dom().len() != mm.min_signers {
                    Self::lemma_register_keeps_malicious(mm, m1, id, commitments, r);
                }
            }
        } else if !m0.signer_session.dom().contains(id) {
            Self::lemma_register_keeps_malicious(m0, m1, id, commitments, r);
        }
    }

    /// The signers still owed to the session at index `k`.
    pub open spec fn owing_at(m: CoordinatorModel<C>, k: int) -> Set<u16> {
        m.sessions[k].members.to_set().difference(m.sessions[k].signature_shares.dom())
    }

    /// Whether no session has produced a full set of `t` shares yet.
    pub open spec fn no_session_full(m: CoordinatorModel<C>) -> bool {
        forall|k: int|
            0 <= k < m.sessions.len() ==> (#[trigger] m.sessions[k]).signature_shares.dom().len()
                < m.min_signers
    }

    /// The signers owed to any of the first `k` sessions.
    pub open spec fn owing_union(m: CoordinatorModel<C>, k: int) -> Set<u16>
        decreases k,
    {
        if k <= 0 {
            Set::empty()
        } else {
            Self::owing_union(m, k - 1) + Self::owing_at(m, k - 1)
        }
    }

    /// While no session is full, every session still awaits at least one
    /// distinct, currently bound, non-responsive signer; so the first `k`
    /// sessions pin down at least `k` such signers.
    proof fn lemma_owing_union(m: CoordinatorModel<C>, k: int)
        requires
            Self::inv(m),
            Self::no_session_full(m),
            0 <= k <= m.sessions.len(),
        ensures
            Self::owing_union(m, k).finite(),
            Self::owing_union(m, k).len() >= k,
            Self::owing_union(m, k) <= m.signer_session.dom(),
            forall|x: u16|
                #[trigger] Self::owing_union(m, k).contains(x) ==> !m.responsive_signers.contains(
                    x,
                ) && m.signer_session[x] <= k,
        decreases k,
    {
        if k == 0 {
        } else {
            Self::lemma_owing_union(m, k - 1);
            let u = Self::owing_union(m, k - 1);
            let s = m.sessions[k - 1];
            let o = Self::owing_at(m, k - 1);
            // every owing signer of session k is bound to it, is not
            // responsive, and is therefore new to the union
            assert forall|x: u16| #[trigger] o.contains(x) implies m.signer_session.dom().contains(
                x,
            ) && m.signer_session[x] == k && !m.responsive_signers.contains(x) && !u.contains(
                x,
            ) by {
                assert(s.members.contains(x));
                assert(m.signer_session[x] == k);
                if m.responsive_signers.contains(x) {
                    assert(m.sessions[m.signer_session[x] - 1].signature_shares.dom().contains(x));
                }
            }
            // session k - 1 is not full, so it has an owing signer
            assert(o.finite()) by {
                crate::idmap::lemma_strictly_sorted_set_len(s.members);
                vstd::set_lib::lemma_len_subset(o, s.members.to_set());
            }
            if o =~= Set::<u16>::empty() {
                assert forall|x: u16| s.members.to_set().contains(x) implies s
                    .signature_shares.dom().contains(x) by {
                    if !s.signature_shares.dom().contains(x) {
                        assert(o.contains(x));
                    }
                }
                assert(s.members.to_set() <= s.signature_shares.dom());
                crate::idmap::lemma_strictly_sorted_set_len(s.members);
                vstd::set_lib::lemma_len_subset(s.members.to_set(), s.signature_shares.dom());
                assert(false);
            }
            let w = o.choose();
            assert(o.contains(w));
            assert(u.insert(w) <= u + o);
            vstd::set_lib::lemma_len_subset(u.insert(w), u + o);
            assert((u + o).finite());
            assert(u.insert(w).len() == u.len() + 1);
        }
    }

    /// The session-count bound of ROAST, as a preservation law: in a run
    /// where every event comes from one of the `n` signers and no session
    /// has yet collected its `t` shares, one `receive` step keeps the number
    /// of sessions opened within `n - t + 1`.
    ///
    /// The heart is the opening step: each of the sessions already open
    /// still awaits a share from a distinct bound signer, none of whom is in
    /// the fresh quorum of `t` responsive signers, so `t` more than the
    /// session count never exceeds `n`.
    pub proof fn lemma_session_count_bound(
        m0: CoordinatorModel<C>,
        m1: CoordinatorModel<C>,
        id: u16,
        share: Option<C::SignatureShare>,
        commitments: C::SigningCommitments,
        r: Result<SessionStatus<C>, Error<C>>,
        ids: Set<u16>,
    )
        requires
            Self::inv(m0),
            Self::receive_post(m0, m1, id, share, commitments, r),
            Self::no_session_full(m0),
            id != 0,
            ids.finite(),
            ids.len() == m0.max_signers,
            m0.signer_session.dom() <= ids,
            m0.responsive_signers.to_set() <= ids,
            ids.contains(id),
            m0.session_counter <= m0.max_signers - m0.min_signers + 1,
        ensures
            m1.session_counter <= m1.max_signers - m1.min_signers + 1,
    {
        if m0.malicious_signers.dom().contains(id) {
        } else if m0.responsive_signers.contains(id) {
        } else if m0.signer_session.dom().contains(id) {
            match share {
                None => {},
                Some(sh) => {
                    if m1 == m0.marked(id, MaliciousSignerError::InvalidSignatureShare) && r
                        == Err::<SessionStatus<C>, Error<C>>(
                        m0.marking_error(id, MaliciousSignerError::InvalidSignatureShare),
                    ) {
                    } else {
                        let sid = m0.signer_session[id];
                        let mm = m0.with_share(sid, id, sh);
                        Self::lemma_inv_with_share(m0, sid, id, sh);
                        if mm.sessions[sid - 1].signature_shares.dom().len() != mm.min_signers {
                            assert(Self::no_session_full(mm)) by {
                                assert(m0.sessions[sid - 1].members.contains(id));
                                crate::idmap::lemma_strictly_sorted_set_len(
                                    m0.sessions[sid - 1].members,
                                );
                                vstd::set_lib::lemma_len_subset(
                                    mm.sessions[sid - 1].signature_shares.dom(),
                                    mm.sessions[sid - 1].members.to_set(),
                                );
                                assert(forall|k: int|
                                    0 <= k < mm.sessions.len() && k != sid - 1
                                        ==> (#[trigger] mm.sessions[k]) == m0.sessions[k]);
                            }
                            assert(mm.signer_session.dom() =~= m0.signer_session.dom());
                            assert(mm.sessions[sid - 1].signature_shares.dom().contains(id));
                            Self::lemma_register_count(mm, m1, id, commitments, r, ids);
                        }
                    }
                },
            }
        } else {
            Self::lemma_register_count(m0, m1, id, commitments, r, ids);
        }
    }

    /// The counting step behind [`Self::lemma_session_count_bound`], for the
    /// registration phase of an event.
    proof fn lemma_register_count(
        m: CoordinatorModel<C>,
        m1: CoordinatorModel<C>,
        id: u16,
        commitments: C::SigningCommitments,
        r: Result<SessionStatus<C>, Error<C>>,
        ids: Set<u16>,
    )
        requires
            Self::inv(m),
            Self::can_register(m, id),
            Self::register_post(m, m1, id, commitments, r),
            Self::no_session_full(m),
            ids.finite(),
            ids.len() == m.max_signers,
            m.signer_session.dom() <= ids,
            m.responsive_signers.to_set() <= ids,
            ids.contains(id),
            m.session_counter <= m.max_signers - m.min_signers + 1,
        ensures
            m1.session_counter <= m1.max_signers - m1.min_signers + 1,
    {
        let quorum = sorted_insert(m.responsive_signers, id);
        lemma_sorted_insert(m.responsive_signers, id);
        if quorum.len() == m.min_signers {
            let u = Self::owing_union(m, m.sessions.len() as int);
            Self::lemma_owing_union(m, m.sessions.len() as int);
            // the owing signers and the quorum are disjoint subsets of the
            // signer population
            assert(quorum.to_set().finite() && quorum.to_set().len() == m.min_signers) by {
                crate::idmap::lemma_strictly_sorted_set_len(quorum);
            }
            assert forall|x: u16| #[trigger] quorum.to_set().contains(x) implies !u.contains(x)
                && ids.contains(x) by {
                if x == id {
                    if u.contains(x) {
                        // a bound signer that has delivered owes nothing
                        assert(m.signer_session.dom().contains(id));
                        let k = m.signer_session[id];
                        assert(!m.responsive_signers.contains(x) && m.signer_session[x]
                            <= m.sessions.len());
                        Self::lemma_owing_member(m, m.sessions.len() as int, x);
                    }
                } else {
                    assert(m.responsive_signers.contains(x));
                    assert(ids.contains(x));
                }
            }
            assert(u + quorum.to_set() <= ids);
            vstd::set_lib::lemma_len_subset(u + quorum.to_set(), ids);
            vstd::set_lib::lemma_set_disjoint_lens(u, quorum.to_set());
            assert(m.sessions.len() + m.min_signers <= m.max_signers);
        }
    }

    /// A signer in the owing union owes the session it is bound to.
    proof fn lemma_owing_member(m: CoordinatorModel<C>, k: int, x: u16)
        requires
            Self::inv(m),
            0 <= k <= m.sessions.len(),
            Self::owing_union(m, k).contains(x),
            m.signer_session.dom().contains(x),
        ensures
            !m.sessions[m.signer_session[x] - 1].signature_shares.dom().contains(x),
        decreases k,
    {
        if k > 0 {
            if Self::owing_at(m, k - 1).contains(x) {
                assert(m.sessions[k - 1].members.contains(x));
                assert(m.signer_session[x] == k);
            } else {
                Self::lemma_owing_member(m, k - 1, x);
            }
        }
    }

    /// A registration step never touches the banished set.
    proof fn lemma_register_keeps_malicious(
        m: CoordinatorModel<C>,
        m1: CoordinatorModel<C>,
        id: u16,
        commitments: C::SigningCommitments,
        r: Result<SessionStatus<C>, Error<C>>,
    )
        requires
            Self::register_post(m, m1, id, commitments, r),
        ensures
            m1.malicious_signers == m.malicious_signers,
    {
        if sorted_insert(m.responsive_signers, id).len() == m.min_signers {
            let pkg = choose|pkg: C::SigningPackage| m1 == m.opened(id, commitments, pkg);
            assert(m1 == m.opened(id, commitments, pkg));
        }
    }
}

} // verus!
