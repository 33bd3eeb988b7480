//! The ciphersuite boundary.
//!
//! The coordinator, signer and key-generation state machines are generic over
//! any ciphersuite exposing the primitive FROST operations with the standard
//! FROST semantics. A ciphersuite supplies the primitives as the methods of
//! this trait; the crate's logic never looks inside the values it hands to or
//! receives from them, so nothing about the primitives is assumed beyond their
//! signatures. Signer identifiers cross this boundary as non-zero `u16`
//! values; an implementation converts them to its own scalar identifiers.

use vstd::prelude::*;

verus! {

/// The primitive operations of one FROST ciphersuite.
///
/// An implementation forwards each method to the corresponding primitive of
/// the chosen ciphersuite. No method carries a postcondition: the verified
/// state machines promise only what holds for every possible outcome of the
/// primitives.
pub trait Ciphersuite: Sized {
    /// The random number generator handed to the nonce- and key-generating
    /// primitives.
    type Rng;
    /// The secret nonce pair produced for one signing attempt.
    type SigningNonces;
    /// The public counterpart of the nonces, advertised to the coordinator.
    type SigningCommitments: Copy;
    /// The quorum's commitments together with the message bytes.
    type SigningPackage: Clone;
    /// One participant's partial signature.
    type SignatureShare: Copy;
    /// The final aggregated signature.
    type Signature;
    /// A participant's secret signing share.
    type SigningShare: Copy;
    /// A participant's private key material.
    type KeyPackage;
    /// The group's public key material.
    type PublicKeyPackage;
    /// The public counterpart of one participant's signing share.
    type VerifyingShare: Copy;
    /// The secret state kept between rounds one and two of key generation.
    type Round1SecretPackage;
    /// The public package broadcast in round one of key generation.
    type Round1Package;
    /// The secret state kept between rounds two and three of key generation.
    type Round2SecretPackage;
    /// The package sent to one recipient in round two of key generation.
    type Round2Package;
    /// An error reported by a primitive.
    type PrimitiveError;

    /// Round-one commit: generates a fresh nonce pair and its commitments.
    fn commit(secret: &Self::SigningShare, rng: &mut Self::Rng) -> (Self::SigningNonces, Self::SigningCommitments);

    /// Returns the signing share held inside a key package.
    fn signing_share(key_package: &Self::KeyPackage) -> Self::SigningShare;

    /// Round-two signing: produces this signer's partial signature over the
    /// signing package.
    fn sign(
        signing_package: &Self::SigningPackage,
        nonces: &Self::SigningNonces,
        key_package: &Self::KeyPackage,
    ) -> Result<Self::SignatureShare, Self::PrimitiveError>;

    /// Builds the round-two input from the quorum's commitments, given in
    /// increasing identifier order, and the message to sign.
    fn signing_package(
        commitments: &Vec<(u16, Self::SigningCommitments)>,
        message: &Vec<u8>,
    ) -> Self::SigningPackage
        requires
            forall|i: int| 0 <= i < commitments@.len() ==> (#[trigger] commitments@[i]).0 != 0,
    ;

    /// Looks up one signer's verifying share in the group's public key
    /// material.
    fn verifying_share(
        public_key_package: &Self::PublicKeyPackage,
        id: u16,
    ) -> Option<Self::VerifyingShare>
        requires
            id != 0,
    ;

    /// Verifies one partial signature against the signer's verifying share
    /// and the session's signing package.
    fn verify_signature_share(
        id: u16,
        verifying_share: &Self::VerifyingShare,
        share: &Self::SignatureShare,
        signing_package: &Self::SigningPackage,
        public_key_package: &Self::PublicKeyPackage,
    ) -> bool
        requires
            id != 0,
    ;

    /// Aggregates a full set of verified partial signatures, given in
    /// increasing identifier order, into the final signature.
    fn aggregate(
        signing_package: &Self::SigningPackage,
        shares: &Vec<(u16, Self::SignatureShare)>,
        public_key_package: &Self::PublicKeyPackage,
    ) -> Result<Self::Signature, Self::PrimitiveError>
        requires
            forall|i: int| 0 <= i < shares@.len() ==> (#[trigger] shares@[i]).0 != 0,
    ;

    /// Round one of distributed key generation for one participant.
    fn dkg_part1(
        id: u16,
        max_signers: u16,
        min_signers: u16,
        rng: &mut Self::Rng,
    ) -> Result<(Self::Round1SecretPackage, Self::Round1Package), Self::PrimitiveError>
        requires
            id != 0,
    ;

    /// Round two of distributed key generation: consumes the round-one secret
    /// and the other participants' round-one packages, and produces the
    /// round-two secret and one outgoing package per other participant.
    fn dkg_part2(
        round1_secret_package: Self::Round1SecretPackage,
        round1_packages: &Vec<(u16, Self::Round1Package)>,
    ) -> Result<(Self::Round2SecretPackage, Vec<(u16, Self::Round2Package)>), Self::PrimitiveError>
        requires
            forall|i: int| 0 <= i < round1_packages@.len() ==> (#[trigger] round1_packages@[i]).0 != 0,
    ;

    /// Round three of distributed key generation: derives the participant's
    /// key package and the group's public key package.
    fn dkg_part3(
        round2_secret_package: &Self::Round2SecretPackage,
        round1_packages: &Vec<(u16, Self::Round1Package)>,
        round2_packages: &Vec<(u16, Self::Round2Package)>,
    ) -> Result<(Self::KeyPackage, Self::PublicKeyPackage), Self::PrimitiveError>
        requires
            forall|i: int| 0 <= i < round1_packages@.len() ==> (#[trigger] round1_packages@[i]).0 != 0,
            forall|i: int| 0 <= i < round2_packages@.len() ==> (#[trigger] round2_packages@[i]).0 != 0,
    ;

    /// The number of coefficient commitments inside a round-one package; it
    /// equals the threshold the sender committed to.
    fn commitment_count(round1_package: &Self::Round1Package) -> usize;

    /// Verifies the proof of knowledge carried by a round-one package.
    fn verify_proof_of_knowledge(
        id: u16,
        round1_package: &Self::Round1Package,
    ) -> Result<(), Self::PrimitiveError>
        requires
            id != 0,
    ;

    /// Reconstructs, from the round-two package that a sender addressed to
    /// `recipient` and the sender's round-one commitment, the recipient's
    /// secret share, and reports whether that share is proven inconsistent
    /// with the commitment. `true` convicts the sender.
    fn secret_share_proven_invalid(
        recipient: u16,
        round2_package: &Self::Round2Package,
        sender_round1_package: &Self::Round1Package,
    ) -> bool
        requires
            recipient != 0,
    ;

    /// Recomputes the group's public key package from all round-one
    /// commitments, given in increasing identifier order.
    fn public_key_package(
        round1_packages: &Vec<(u16, Self::Round1Package)>,
    ) -> Result<Self::PublicKeyPackage, Self::PrimitiveError>
        requires
            forall|i: int| 0 <= i < round1_packages@.len() ==> (#[trigger] round1_packages@[i]).0 != 0,
    ;
}

} // verus!
