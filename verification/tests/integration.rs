//! End-to-end runs of the ROAST coordinator and the distributed key
//! generation driver against the real FROST ciphersuites.

use std::collections::BTreeMap;
use std::marker::PhantomData;

use frost_core::{Ciphersuite as FrostCiphersuite, Field, Group, Identifier};
use rand_core::OsRng;

use roast_core::dkg::{DkgStatus, Participant, TrustedThirdParty};
use roast_core::{
    Coordinator, DkgError, Error, IdMap, MaliciousSignerError, RoastError, SessionStatus, Signer,
};

/// Adapter plugging any `frost_core` ciphersuite into the library's
/// primitive boundary. Identifiers cross the boundary as non-zero `u16`
/// values and are converted to the ciphersuite's scalar identifiers here.
struct FrostSuite<C: FrostCiphersuite>(PhantomData<C>);

fn ident<C: FrostCiphersuite>(id: u16) -> Identifier<C> {
    Identifier::try_from(id).expect("identifier is non-zero")
}

impl<C: FrostCiphersuite> roast_core::Ciphersuite for FrostSuite<C> {
    type Rng = OsRng;
    type SigningNonces = frost_core::round1::SigningNonces<C>;
    type SigningCommitments = frost_core::round1::SigningCommitments<C>;
    type SigningPackage = frost_core::SigningPackage<C>;
    type SignatureShare = frost_core::round2::SignatureShare<C>;
    type Signature = frost_core::Signature<C>;
    type SigningShare = frost_core::keys::SigningShare<C>;
    type KeyPackage = frost_core::keys::KeyPackage<C>;
    type PublicKeyPackage = frost_core::keys::PublicKeyPackage<C>;
    type VerifyingShare = frost_core::keys::VerifyingShare<C>;
    type Round1SecretPackage = frost_core::keys::dkg::round1::SecretPackage<C>;
    type Round1Package = frost_core::keys::dkg::round1::Package<C>;
    type Round2SecretPackage = frost_core::keys::dkg::round2::SecretPackage<C>;
    type Round2Package = frost_core::keys::dkg::round2::Package<C>;
    type PrimitiveError = frost_core::Error<C>;

    fn commit(
        secret: &Self::SigningShare,
        rng: &mut Self::Rng,
    ) -> (Self::SigningNonces, Self::SigningCommitments) {
        frost_core::round1::commit(secret, rng)
    }

    fn signing_share(key_package: &Self::KeyPackage) -> Self::SigningShare {
        *key_package.signing_share()
    }

    fn sign(
        signing_package: &Self::SigningPackage,
        nonces: &Self::SigningNonces,
        key_package: &Self::KeyPackage,
    ) -> Result<Self::SignatureShare, Self::PrimitiveError> {
        frost_core::round2::sign(signing_package, nonces, key_package)
    }

    fn signing_package(
        commitments: &Vec<(u16, Self::SigningCommitments)>,
        message: &Vec<u8>,
    ) -> Self::SigningPackage {
        let map: BTreeMap<Identifier<C>, Self::SigningCommitments> =
            commitments.iter().map(|(id, c)| (ident::<C>(*id), *c)).collect();
        frost_core::SigningPackage::new(map, message)
    }

    fn verifying_share(
        public_key_package: &Self::PublicKeyPackage,
        id: u16,
    ) -> Option<Self::VerifyingShare> {
        public_key_package.verifying_shares().get(&ident::<C>(id)).copied()
    }

    fn verify_signature_share(
        id: u16,
        verifying_share: &Self::VerifyingShare,
        share: &Self::SignatureShare,
        signing_package: &Self::SigningPackage,
        public_key_package: &Self::PublicKeyPackage,
    ) -> bool {
        frost_core::verify_signature_share(
            ident::<C>(id),
            verifying_share,
            share,
            signing_package,
            public_key_package.verifying_key(),
        )
        .is_ok()
    }

    fn aggregate(
        signing_package: &Self::SigningPackage,
        shares: &Vec<(u16, Self::SignatureShare)>,
        public_key_package: &Self::PublicKeyPackage,
    ) -> Result<Self::Signature, Self::PrimitiveError> {
        let map: BTreeMap<Identifier<C>, Self::SignatureShare> =
            shares.iter().map(|(id, s)| (ident::<C>(*id), *s)).collect();
        frost_core::aggregate(signing_package, &map, public_key_package)
    }

    fn dkg_part1(
        id: u16,
        max_signers: u16,
        min_signers: u16,
        rng: &mut Self::Rng,
    ) -> Result<(Self::Round1SecretPackage, Self::Round1Package), Self::PrimitiveError> {
        frost_core::keys::dkg::part1(ident::<C>(id), max_signers, min_signers, &mut *rng)
    }

    fn dkg_part2(
        round1_secret_package: Self::Round1SecretPackage,
        round1_packages: &Vec<(u16, Self::Round1Package)>,
    ) -> Result<
        (Self::Round2SecretPackage, Vec<(u16, Self::Round2Package)>),
        Self::PrimitiveError,
    > {
        let map: BTreeMap<Identifier<C>, Self::Round1Package> =
            round1_packages.iter().map(|(id, p)| (ident::<C>(*id), p.clone())).collect();
        let (secret, out) = frost_core::keys::dkg::part2(round1_secret_package, &map)?;
        let mut out_vec: Vec<(u16, Self::Round2Package)> = Vec::new();
        for (id, _) in round1_packages.iter() {
            let pkg = out
                .get(&ident::<C>(*id))
                .expect("part2 yields one package per round-one sender")
                .clone();
            out_vec.push((*id, pkg));
        }
        Ok((secret, out_vec))
    }

    fn dkg_part3(
        round2_secret_package: &Self::Round2SecretPackage,
        round1_packages: &Vec<(u16, Self::Round1Package)>,
        round2_packages: &Vec<(u16, Self::Round2Package)>,
    ) -> Result<(Self::KeyPackage, Self::PublicKeyPackage), Self::PrimitiveError> {
        let m1: BTreeMap<Identifier<C>, Self::Round1Package> =
            round1_packages.iter().map(|(id, p)| (ident::<C>(*id), p.clone())).collect();
        let m2: BTreeMap<Identifier<C>, Self::Round2Package> =
            round2_packages.iter().map(|(id, p)| (ident::<C>(*id), p.clone())).collect();
        frost_core::keys::dkg::part3(round2_secret_package, &m1, &m2)
    }

    fn commitment_count(round1_package: &Self::Round1Package) -> usize {
        round1_package.commitment().coefficients().len()
    }

    fn verify_proof_of_knowledge(
        id: u16,
        round1_package: &Self::Round1Package,
    ) -> Result<(), Self::PrimitiveError> {
        frost_core::keys::dkg::verify_proof_of_knowledge(
            ident::<C>(id),
            round1_package.commitment(),
            round1_package.proof_of_knowledge(),
        )
    }

    fn secret_share_proven_invalid(
        recipient: u16,
        round2_package: &Self::Round2Package,
        sender_round1_package: &Self::Round1Package,
    ) -> bool {
        let secret_share = frost_core::keys::SecretShare::new(
            ident::<C>(recipient),
            *round2_package.signing_share(),
            sender_round1_package.commitment().clone(),
        );
        matches!(
            secret_share.verify(),
            Err(frost_core::Error::InvalidSecretShare { .. })
        )
    }

    fn public_key_package(
        round1_packages: &Vec<(u16, Self::Round1Package)>,
    ) -> Result<Self::PublicKeyPackage, Self::PrimitiveError> {
        let map: BTreeMap<
            Identifier<C>,
            &frost_core::keys::VerifiableSecretSharingCommitment<C>,
        > = round1_packages.iter().map(|(id, p)| (ident::<C>(*id), p.commitment())).collect();
        frost_core::keys::PublicKeyPackage::from_dkg_commitments(&map)
    }
}

/// A deliberately cheap ciphersuite for driving large coordinator runs:
/// an honest partial signature is the value `1` and verifies, anything
/// else is rejected. It exercises exactly the coordinator's session
/// bookkeeping, which does not look inside the primitive values.
struct CheapSuite;

impl roast_core::Ciphersuite for CheapSuite {
    type Rng = OsRng;
    type SigningNonces = u64;
    type SigningCommitments = u64;
    type SigningPackage = u64;
    type SignatureShare = u64;
    type Signature = u64;
    type SigningShare = u64;
    type KeyPackage = u64;
    type PublicKeyPackage = u64;
    type VerifyingShare = u64;
    type Round1SecretPackage = u64;
    type Round1Package = u64;
    type Round2SecretPackage = u64;
    type Round2Package = u64;
    type PrimitiveError = u64;

    fn commit(secret: &u64, _rng: &mut OsRng) -> (u64, u64) {
        (*secret, *secret)
    }

    fn signing_share(key_package: &u64) -> u64 {
        *key_package
    }

    fn sign(_signing_package: &u64, _nonces: &u64, _key_package: &u64) -> Result<u64, u64> {
        Ok(1)
    }

    fn signing_package(_commitments: &Vec<(u16, u64)>, _message: &Vec<u8>) -> u64 {
        0
    }

    fn verifying_share(_public_key_package: &u64, _id: u16) -> Option<u64> {
        Some(0)
    }

    fn verify_signature_share(
        _id: u16,
        _verifying_share: &u64,
        share: &u64,
        _signing_package: &u64,
        _public_key_package: &u64,
    ) -> bool {
        *share == 1
    }

    fn aggregate(_signing_package: &u64, _shares: &Vec<(u16, u64)>, _pkp: &u64) -> Result<
        u64,
        u64,
    > {
        Ok(7)
    }

    fn dkg_part1(_id: u16, _max: u16, _min: u16, _rng: &mut OsRng) -> Result<(u64, u64), u64> {
        Ok((0, 0))
    }

    fn dkg_part2(_secret: u64, packages: &Vec<(u16, u64)>) -> Result<(u64, Vec<(u16, u64)>), u64> {
        Ok((0, packages.clone()))
    }

    fn dkg_part3(
        _secret: &u64,
        _round1_packages: &Vec<(u16, u64)>,
        _round2_packages: &Vec<(u16, u64)>,
    ) -> Result<(u64, u64), u64> {
        Ok((0, 0))
    }

    fn commitment_count(_round1_package: &u64) -> usize {
        0
    }

    fn verify_proof_of_knowledge(_id: u16, _round1_package: &u64) -> Result<(), u64> {
        Ok(())
    }

    fn secret_share_proven_invalid(_recipient: u16, round2_package: &u64, _r1: &u64) -> bool {
        *round2_package != 0
    }

    fn public_key_package(_round1_packages: &Vec<(u16, u64)>) -> Result<u64, u64> {
        Ok(0)
    }
}

/// Drives a large coordinator run on [`CheapSuite`]: honest signers answer
/// with valid shares, the `malicious` highest-numbered signers submit an
/// invalid share in every round. Checks termination and the ROAST
/// session-count bound.
fn run_signing_cheap(min_signers: u16, max_signers: u16, malicious: u16) {
    let mut rng = OsRng;
    let Ok(mut coordinator) = Coordinator::<CheapSuite>::new(
        max_signers,
        min_signers,
        0,
        b"message to sign".to_vec(),
    ) else {
        panic!("parameters are valid");
    };
    let mut signers: BTreeMap<u16, Signer<CheapSuite>> = BTreeMap::new();
    for index in 1..=max_signers {
        signers.insert(index, Signer::new(index as u64, &mut rng));
    }

    assert!(malicious <= max_signers - min_signers);
    let mut signing_packages: BTreeMap<u16, u64> = BTreeMap::new();
    let mut session_counter: u16 = 0;

    'outer: loop {
        for index in 1..=max_signers {
            let is_malicious = index > max_signers - malicious;
            let signer = signers.get_mut(&index).expect("signer exists");
            let signature_share = signing_packages.get(&index).and_then(|signing_package| {
                if is_malicious {
                    signer.regenerate_signing_nonces(&mut rng);
                    Some(0)
                } else {
                    signer.receive(signing_package, &mut rng).ok()
                }
            });
            match coordinator.receive(index, signature_share, signer.signing_commitments()) {
                Ok(SessionStatus::InProgress) => continue,
                Ok(SessionStatus::Started {
                    signers: quorum,
                    signing_package,
                    ..
                }) => {
                    session_counter += 1;
                    for member in quorum {
                        signing_packages.insert(member, signing_package);
                    }
                }
                Ok(SessionStatus::Finished { signature }) => {
                    assert_eq!(signature, 7);
                    break 'outer;
                }
                Err(Error::Roast(RoastError::MaliciousSigner(_))) => continue,
                Err(_) => panic!("unexpected coordinator error"),
            }
        }
    }

    assert!(session_counter <= max_signers - min_signers + 1);
}

/// Creates `max_signers` signers with dealer-generated keys and drives the
/// coordinator until it produces a signature, with the given number of
/// signers submitting zero shares in every round. Checks the final
/// signature and the ROAST session-count bound.
fn run_signing<C: FrostCiphersuite>(min_signers: u16, max_signers: u16, malicious: u16) {
    let mut rng = OsRng;
    let (secret_shares, public_key_package) = frost_core::keys::generate_with_dealer::<C, _>(
        max_signers,
        min_signers,
        frost_core::keys::IdentifierList::Default,
        &mut rng,
    )
    .expect("dealer keygen succeeds");

    let group_key = public_key_package.clone();
    let Ok(mut coordinator) = Coordinator::<FrostSuite<C>>::new(
        max_signers,
        min_signers,
        public_key_package,
        b"message to sign".to_vec(),
    ) else {
        panic!("parameters are valid");
    };

    let mut signers: BTreeMap<u16, Signer<FrostSuite<C>>> = BTreeMap::new();
    for index in 1..=max_signers {
        let secret_share = secret_shares
            .get(&ident::<C>(index))
            .expect("dealer produced this share")
            .clone();
        let key_package =
            frost_core::keys::KeyPackage::try_from(secret_share).expect("share is valid");
        signers.insert(index, Signer::new(key_package, &mut rng));
    }

    assert!(malicious <= max_signers - min_signers);
    let mut signing_packages: BTreeMap<u16, frost_core::SigningPackage<C>> = BTreeMap::new();
    let mut session_counter: u16 = 0;

    'outer: loop {
        for index in 1..=max_signers {
            let is_malicious = index > max_signers - malicious;
            let signer = signers.get_mut(&index).expect("signer exists");
            let signature_share = signing_packages.get(&index).and_then(|signing_package| {
                if is_malicious {
                    let zero = <<C::Group as Group>::Field as Field>::zero();
                    let serialization = <<C::Group as Group>::Field as Field>::serialize(&zero);
                    signer.regenerate_signing_nonces(&mut rng);
                    Some(
                        frost_core::round2::SignatureShare::<C>::deserialize(
                            serialization.as_ref(),
                        )
                        .expect("zero share deserializes"),
                    )
                } else {
                    signer.receive(signing_package, &mut rng).ok()
                }
            });
            match coordinator.receive(index, signature_share, signer.signing_commitments()) {
                Ok(SessionStatus::InProgress) => continue,
                Ok(SessionStatus::Started {
                    signers: quorum,
                    signing_package,
                    ..
                }) => {
                    session_counter += 1;
                    for member in quorum {
                        signing_packages.insert(member, signing_package.clone());
                    }
                }
                Ok(SessionStatus::Finished { signature }) => {
                    group_key
                        .verifying_key()
                        .verify(b"message to sign", &signature)
                        .expect("the aggregated signature verifies");
                    break 'outer;
                }
                Err(Error::Roast(RoastError::MaliciousSigner(_))) => continue,
                Err(_) => panic!("unexpected coordinator error"),
            }
        }
    }

    assert!(session_counter <= max_signers - min_signers + 1);
}

/// Runs the three rounds of distributed key generation through the trusted
/// third party. With `tamper`, the first participant overwrites its first
/// outgoing round-two package with a zero share, and the run must convict
/// exactly that participant.
fn run_dkg<C: FrostCiphersuite>(min_signers: u16, max_signers: u16, tamper: bool) {
    let mut rng = OsRng;
    let mut participants: Vec<Participant<FrostSuite<C>>> = Vec::new();
    for index in 1..=max_signers {
        let Ok(participant) =
            Participant::<FrostSuite<C>>::new(index, max_signers, min_signers, &mut rng)
        else {
            panic!("round one succeeds");
        };
        participants.push(participant);
    }

    let Ok(mut ttp) = TrustedThirdParty::<FrostSuite<C>>::new(
        max_signers,
        min_signers,
        (1..=max_signers).collect(),
    ) else {
        panic!("parameters are valid");
    };

    for (i, participant) in participants.iter_mut().enumerate() {
        let Ok(package) = participant.round1_package() else {
            panic!("first take succeeds");
        };
        let Ok(status) = ttp.receive_round1_package(participant.identifier(), package) else {
            panic!("round-one package is accepted");
        };
        if i + 1 == max_signers as usize {
            assert_eq!(status, DkgStatus::FinishedRound1);
            assert!(ttp.blame_round1_participants().is_empty());
        } else {
            assert_eq!(status, DkgStatus::InProgress);
        }
    }

    let mut tampered = false;
    for (i, participant) in participants.iter_mut().enumerate() {
        let Ok(outgoing) = participant.receive_round1_packages(ttp.round1_packages().clone())
        else {
            panic!("round two succeeds");
        };
        let outgoing = if tamper && !tampered {
            tampered = true;
            let mut entries = outgoing.entries().clone();
            let zero_package =
                frost_core::keys::dkg::round2::Package::new(frost_core::keys::SigningShare::<
                    C,
                >::default());
            entries[0].1 = zero_package;
            IdMap::from_entries(entries)
        } else {
            outgoing
        };
        let Ok(status) = ttp.receive_round2_packages(participant.identifier(), outgoing) else {
            panic!("round-two delivery is accepted");
        };
        if i + 1 == max_signers as usize {
            assert_eq!(status, DkgStatus::FinishedRound2);
            assert!(ttp.blame_round2_participants().is_empty());
        } else {
            assert_eq!(status, DkgStatus::InProgress);
        }
    }

    let mut group_keys: Vec<frost_core::keys::PublicKeyPackage<C>> = Vec::new();
    for participant in participants.iter_mut() {
        let inbox = ttp
            .round2_packages(participant.identifier())
            .expect("every participant has an inbox")
            .clone();
        match participant.receive_round2_packages(inbox) {
            Ok((_key_package, public_key_package)) => group_keys.push(public_key_package),
            Err(Error::Dkg(DkgError::InvalidSecretShares)) => {
                assert!(tamper, "culprits appear only in the tampered run");
                let Ok(culprits) = participant.round2_culprits() else {
                    panic!("culprits are available after the failure");
                };
                assert_eq!(culprits, vec![1]);
                let Ok(status) = ttp.receive_round2_culprits(participant.identifier(), &culprits)
                else {
                    panic!("allegations are accepted");
                };
                assert_eq!(status, DkgStatus::InProgress);
            }
            Err(_) => panic!("unexpected round-three error"),
        }
    }

    if tamper {
        assert!(matches!(
            ttp.try_finish(),
            Err(Error::Dkg(DkgError::InvalidSecretShares))
        ));
        assert_eq!(ttp.round2_culprits(), &vec![1]);
    } else {
        assert!(matches!(ttp.try_finish(), Ok(DkgStatus::FinishedRound3)));
        assert_eq!(group_keys.len(), max_signers as usize);
        for key in group_keys.iter() {
            assert_eq!(key, &group_keys[0]);
        }
    }
}

#[test]
fn test_basic() {
    run_signing::<frost_ed25519::Ed25519Sha512>(2, 3, 0);
}

#[test]
fn integration_tests_test_basic() {
    run_signing::<frost_ed448::Ed448Shake256>(2, 3, 0);
    run_signing_cheap(67, 100, 0);
}

#[test]
fn test_malicious() {
    run_signing::<frost_ed448::Ed448Shake256>(2, 3, 1);
    run_signing_cheap(67, 100, 33);
}

#[test]
fn p256_basic() {
    run_signing::<frost_p256::P256Sha256>(2, 3, 0);
}

#[test]
fn ed25519_larger_scale() {
    run_signing::<frost_ed25519::Ed25519Sha512>(20, 30, 10);
}

#[test]
fn ristretto255_with_one_malicious() {
    run_signing::<frost_ristretto255::Ristretto255Sha512>(2, 3, 1);
}

#[test]
fn secp256k1_with_two_malicious() {
    run_signing::<frost_secp256k1::Secp256K1Sha256>(3, 5, 2);
}

/// The stepwise two-of-three happy path: after two commitments the second
/// call starts a session with exactly those two signers, and two valid
/// shares finish it with a verifying signature.
#[test]
fn test_basic_test_basic() {
    type C = frost_secp256k1::Secp256K1Sha256;
    let mut rng = OsRng;
    let max_signers = 3;
    let min_signers = 2;
    let (secret_shares, public_key_package) = frost_core::keys::generate_with_dealer::<C, _>(
        max_signers,
        min_signers,
        frost_core::keys::IdentifierList::Default,
        &mut rng,
    )
    .expect("dealer keygen succeeds");

    let group_key = public_key_package.clone();
    let Ok(mut coordinator) = Coordinator::<FrostSuite<C>>::new(
        max_signers,
        min_signers,
        public_key_package,
        b"message to sign".to_vec(),
    ) else {
        panic!("parameters are valid");
    };

    let mut signers: BTreeMap<u16, Signer<FrostSuite<C>>> = BTreeMap::new();
    for index in 1..=max_signers {
        let secret_share = secret_shares
            .get(&ident::<C>(index))
            .expect("dealer produced this share")
            .clone();
        let key_package =
            frost_core::keys::KeyPackage::try_from(secret_share).expect("share is valid");
        signers.insert(index, Signer::new(key_package, &mut rng));
    }

    let mut statuses = Vec::new();
    for index in 1..=min_signers {
        let signer = signers.get(&index).expect("signer exists");
        let Ok(status) = coordinator.receive(index, None, signer.signing_commitments()) else {
            panic!("honest commitments are accepted");
        };
        statuses.push(status);
    }
    assert_eq!(statuses.len(), min_signers as usize);
    assert!(matches!(statuses.first(), Some(SessionStatus::InProgress)));
    let Some(SessionStatus::Started {
        signers: quorum,
        commitments,
        signing_package,
    }) = statuses.last()
    else {
        panic!("the second commitment starts the session");
    };
    assert_eq!(quorum, &vec![1, 2]);
    // the signing package was built over exactly the quorum's commitments
    let commitment_ids: Vec<u16> = commitments.iter().map(|p| p.0).collect();
    assert_eq!(commitment_ids, vec![1, 2]);
    for (id, commitment) in commitments.iter() {
        let expected = signers.get(id).expect("signer exists").signing_commitments();
        assert!(*commitment == expected);
    }

    let mut finished = 0;
    for index in 1..=min_signers {
        let signer = signers.get_mut(&index).expect("signer exists");
        let Ok(share) = signer.receive(signing_package, &mut rng) else {
            panic!("honest signing succeeds");
        };
        match coordinator.receive(index, Some(share), signer.signing_commitments()) {
            Ok(SessionStatus::InProgress) => {}
            Ok(SessionStatus::Finished { signature }) => {
                finished += 1;
                group_key
                    .verifying_key()
                    .verify(b"message to sign", &signature)
                    .expect("the aggregated signature verifies");
                assert_eq!(index, min_signers);
            }
            _ => panic!("unexpected status"),
        }
    }
    assert_eq!(finished, 1);
}

/// A signer that sends a second commitment before any session opens is
/// banished for an unsolicited reply, and stays banished with the same
/// error on every later call, with no state change in between.
#[test]
fn unsolicited_reply_banishes_forever() {
    type C = frost_ed25519::Ed25519Sha512;
    let mut rng = OsRng;
    let (secret_shares, public_key_package) = frost_core::keys::generate_with_dealer::<C, _>(
        3,
        2,
        frost_core::keys::IdentifierList::Default,
        &mut rng,
    )
    .expect("dealer keygen succeeds");
    let Ok(mut coordinator) =
        Coordinator::<FrostSuite<C>>::new(3, 2, public_key_package, b"message to sign".to_vec())
    else {
        panic!("parameters are valid");
    };
    let secret_share = secret_shares.get(&ident::<C>(1)).expect("share exists").clone();
    let key_package = frost_core::keys::KeyPackage::try_from(secret_share).expect("valid");
    let mut signer: Signer<FrostSuite<C>> = Signer::new(key_package, &mut rng);

    assert!(matches!(
        coordinator.receive(1, None, signer.signing_commitments()),
        Ok(SessionStatus::InProgress)
    ));
    signer.regenerate_signing_nonces(&mut rng);
    assert!(matches!(
        coordinator.receive(1, None, signer.signing_commitments()),
        Err(Error::Roast(RoastError::MaliciousSigner(
            MaliciousSignerError::UnsolicitedReply
        )))
    ));
    // banishment is idempotent: same error, no state change
    for _ in 0..2 {
        assert!(matches!(
            coordinator.receive(1, None, signer.signing_commitments()),
            Err(Error::Roast(RoastError::MaliciousSigner(
                MaliciousSignerError::UnsolicitedReply
            )))
        ));
    }
}

/// With `n = 3, t = 2`, the second misbehaving signer makes a quorum
/// impossible.
#[test]
fn quorum_impossible_after_two_misbehave() {
    type C = frost_ed25519::Ed25519Sha512;
    let mut rng = OsRng;
    let (secret_shares, public_key_package) = frost_core::keys::generate_with_dealer::<C, _>(
        3,
        2,
        frost_core::keys::IdentifierList::Default,
        &mut rng,
    )
    .expect("dealer keygen succeeds");
    let Ok(mut coordinator) =
        Coordinator::<FrostSuite<C>>::new(3, 2, public_key_package, b"message to sign".to_vec())
    else {
        panic!("parameters are valid");
    };
    let mut signers: BTreeMap<u16, Signer<FrostSuite<C>>> = BTreeMap::new();
    for index in 1..=3 {
        let secret_share = secret_shares.get(&ident::<C>(index)).expect("share").clone();
        let key_package = frost_core::keys::KeyPackage::try_from(secret_share).expect("valid");
        signers.insert(index, Signer::new(key_package, &mut rng));
    }

    for index in 1..=2u16 {
        let signer = signers.get_mut(&index).expect("signer exists");
        // first contact is fine; the repeated commitment is unsolicited
        let first = coordinator.receive(index, None, signer.signing_commitments());
        assert!(matches!(
            first,
            Ok(SessionStatus::InProgress) | Ok(SessionStatus::Started { .. })
        ));
    }
    // signer 1 replies unsolicited while not bound to a session: banished
    // (1 of at most n - t = 1 tolerable). Note both signers formed a
    // session, so their replies below are judged as shares.
    let signer1 = signers.get_mut(&1).expect("signer exists");
    assert!(matches!(
        coordinator.receive(1, None, signer1.signing_commitments()),
        Err(Error::Roast(RoastError::MaliciousSigner(
            MaliciousSignerError::InvalidSignatureShare
        )))
    ));
    let signer2 = signers.get_mut(&2).expect("signer exists");
    assert!(matches!(
        coordinator.receive(2, None, signer2.signing_commitments()),
        Err(Error::Roast(RoastError::TooManyMaliciousSigners))
    ));
}

/// Distributed key generation happy path: five participants, threshold
/// three, no tampering; everyone derives the same group key.
#[test]
fn dkg_happy_path() {
    run_dkg::<frost_ed25519::Ed25519Sha512>(3, 5, false);
}

/// Distributed key generation with one zeroed round-two share: the affected
/// recipient fails round three, its allegation convicts exactly the
/// tamperer, and the run cannot finish.
#[test]
fn dkg_with_one_bad_round2_share() {
    run_dkg::<frost_ed25519::Ed25519Sha512>(3, 5, true);
}

/// The coordinator rejects thresholds for which no `t`-of-`n` setup exists.
#[test]
fn coordinator_rejects_bad_parameters() {
    type C = frost_ed25519::Ed25519Sha512;
    let mut rng = OsRng;
    let (_, public_key_package) = frost_core::keys::generate_with_dealer::<C, _>(
        3,
        2,
        frost_core::keys::IdentifierList::Default,
        &mut rng,
    )
    .expect("dealer keygen succeeds");
    assert!(matches!(
        Coordinator::<FrostSuite<C>>::new(3, 1, public_key_package.clone(), b"m".to_vec()),
        Err(Error::Frost(roast_core::FrostError::InvalidMinSigners))
    ));
    assert!(matches!(
        Coordinator::<FrostSuite<C>>::new(1, 2, public_key_package.clone(), b"m".to_vec()),
        Err(Error::Frost(roast_core::FrostError::InvalidMaxSigners))
    ));
    assert!(matches!(
        Coordinator::<FrostSuite<C>>::new(3, 4, public_key_package, b"m".to_vec()),
        Err(Error::Frost(roast_core::FrostError::InvalidMinSigners))
    ));
}

/// The trusted third party rejects duplicated participants and events from
/// unknown participants.
#[test]
fn ttp_rejects_duplicates_and_strangers() {
    type C = frost_ed25519::Ed25519Sha512;
    type S = FrostSuite<C>;
    assert!(matches!(
        TrustedThirdParty::<S>::new(3, 2, vec![1, 2, 2]),
        Err(Error::Dkg(DkgError::DuplicateParticipants))
    ));
    let Ok(mut ttp) = TrustedThirdParty::<S>::new(3, 2, vec![1, 2, 3]) else {
        panic!("parameters are valid");
    };
    let mut rng = OsRng;
    let Ok(mut participant) = Participant::<S>::new(7, 3, 2, &mut rng) else {
        panic!("round one succeeds");
    };
    let Ok(package) = participant.round1_package() else {
        panic!("first take succeeds");
    };
    assert!(matches!(
        ttp.receive_round1_package(7, package),
        Err(Error::Dkg(DkgError::UnknownParticipant))
    ));
    assert!(matches!(
        ttp.receive_round2_culprits(1, &vec![9]),
        Err(Error::Dkg(DkgError::UnknownParticipant))
    ));
}

/// The trusted third party's shape checks, each with the exact error it
/// reports: a commitment to the wrong number of coefficients, a round-two
/// delivery of the wrong size or addressed to the wrong recipients, and an
/// allegation against a sender whose round-one package never arrived.
#[test]
fn ttp_shape_checks() {
    let Ok(mut ttp) = TrustedThirdParty::<CheapSuite>::new(3, 2, vec![1, 2, 3]) else {
        panic!("parameters are valid");
    };
    // the cheap suite's packages commit to zero coefficients, never two
    assert!(matches!(
        ttp.receive_round1_package(1, 0),
        Err(Error::Frost(roast_core::FrostError::IncorrectNumberOfCommitments))
    ));
    assert!(matches!(
        ttp.receive_round2_packages(1, IdMap::from_entries(vec![(2, 0)])),
        Err(Error::Frost(roast_core::FrostError::IncorrectNumberOfPackages))
    ));
    assert!(matches!(
        ttp.receive_round2_packages(1, IdMap::from_entries(vec![(2, 0), (9, 0)])),
        Err(Error::Frost(roast_core::FrostError::IncorrectPackage))
    ));
    assert!(matches!(
        ttp.receive_round2_packages(1, IdMap::from_entries(vec![(2, 0), (3, 0)])),
        Ok(DkgStatus::InProgress)
    ));
    // recipient 2 accuses sender 1, whose round-one package is not on file
    assert!(matches!(
        ttp.receive_round2_culprits(2, &vec![1]),
        Err(Error::Frost(roast_core::FrostError::PackageNotFound))
    ));
}

/// The participant's round-three shape checks and culprit detection, on the
/// cheap suite where a non-zero round-two package is proven invalid.
#[test]
fn participant_shape_and_culprits() {
    let mut rng = OsRng;
    let Ok(mut participant) = Participant::<CheapSuite>::new(1, 3, 2, &mut rng) else {
        panic!("round one succeeds");
    };
    assert!(participant
        .receive_round1_packages(IdMap::from_entries(vec![(2, 0), (3, 0)]))
        .is_ok());
    assert!(matches!(
        participant.receive_round2_packages(IdMap::from_entries(vec![(2, 0)])),
        Err(Error::Frost(roast_core::FrostError::IncorrectNumberOfPackages))
    ));

    let Ok(mut participant) = Participant::<CheapSuite>::new(1, 3, 2, &mut rng) else {
        panic!("round one succeeds");
    };
    assert!(participant
        .receive_round1_packages(IdMap::from_entries(vec![(2, 0), (3, 0)]))
        .is_ok());
    assert!(matches!(
        participant.receive_round2_packages(IdMap::from_entries(vec![(2, 0), (9, 0)])),
        Err(Error::Frost(roast_core::FrostError::IncorrectPackage))
    ));

    let Ok(mut participant) = Participant::<CheapSuite>::new(1, 3, 2, &mut rng) else {
        panic!("round one succeeds");
    };
    assert!(participant
        .receive_round1_packages(IdMap::from_entries(vec![(2, 0), (3, 0)]))
        .is_ok());
    // sender 2's package is non-zero: proven invalid, convicted exactly
    assert!(matches!(
        participant.receive_round2_packages(IdMap::from_entries(vec![(2, 1), (3, 0)])),
        Err(Error::Dkg(DkgError::InvalidSecretShares))
    ));
    let Ok(culprits) = participant.round2_culprits() else {
        panic!("culprits are available after the failure");
    };
    assert_eq!(culprits, vec![2]);
}

/// Take-once fields: a second take of the round-one package, and round
/// transitions out of order, fail as invalid state transitions.
#[test]
fn participant_take_once() {
    type S = FrostSuite<frost_ed25519::Ed25519Sha512>;
    let mut rng = OsRng;
    let Ok(mut participant) = Participant::<S>::new(1, 3, 2, &mut rng) else {
        panic!("round one succeeds");
    };
    assert!(participant.round1_package().is_ok());
    assert!(matches!(
        participant.round1_package(),
        Err(Error::Dkg(DkgError::InvalidStateTransition))
    ));
    assert!(matches!(
        participant.receive_round2_packages(IdMap::new()),
        Err(Error::Dkg(DkgError::InvalidStateTransition))
    ));
    assert!(matches!(
        participant.round2_culprits(),
        Err(Error::Dkg(DkgError::InvalidStateTransition))
    ));
}
