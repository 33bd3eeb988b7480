//! Error types.

use vstd::prelude::*;
use crate::ciphersuite::Ciphersuite;

verus! {

/// All possible errors that can occur in the FROST protocol layer.
///
/// The first variants are raised by this crate's own validation; the
/// `Primitive` variant carries an error reported by a ciphersuite primitive.
#[verifier::reject_recursive_types(C)]
pub enum FrostError<C: Ciphersuite> {
    /// The threshold is below two or above the number of signers.
    InvalidMinSigners,
    /// The number of signers is below two.
    InvalidMaxSigners,
    /// A round-one package does not commit to exactly the threshold number of
    /// coefficients.
    IncorrectNumberOfCommitments,
    /// A round-two delivery does not hold one package per other participant.
    IncorrectNumberOfPackages,
    /// A round-two delivery is not addressed to exactly the other
    /// participants.
    IncorrectPackage,
    /// A round-one package needed for verification was never received.
    PackageNotFound,
    /// An error reported by a primitive of the ciphersuite.
    Primitive(C::PrimitiveError),
}

/// All possible reasons for which a signer can be marked as malicious.
#[derive(Debug, Copy, Clone, PartialEq, Eq, Structural)]
pub enum MaliciousSignerError {
    /// Signer unsolicitedly replied to the coordinator.
    UnsolicitedReply,
    /// Signature share is missing or its verification has failed.
    InvalidSignatureShare,
}

/// All possible errors that can occur in the ROAST protocol.
#[derive(Debug, Copy, Clone, PartialEq, Eq, Structural)]
pub enum RoastError {
    /// Malicious signer.
    MaliciousSigner(MaliciousSignerError),
    /// Too many malicious signers: no quorum can ever be assembled again.
    TooManyMaliciousSigners,
}

/// All possible errors that can occur in the distributed key generation
/// protocol.
#[derive(Debug, Copy, Clone, PartialEq, Eq, Structural)]
pub enum DkgError {
    /// Duplicate participants.
    DuplicateParticipants,
    /// Unknown participant.
    UnknownParticipant,
    /// Invalid secret shares.
    InvalidSecretShares,
    /// A take-once state field was consumed twice.
    InvalidStateTransition,
}

/// All possible errors that can occur.
#[verifier::reject_recursive_types(C)]
pub enum Error<C: Ciphersuite> {
    /// Error in the FROST protocol layer.
    Frost(FrostError<C>),
    /// Error in the distributed key generation protocol.
    Dkg(DkgError),
    /// Error in the ROAST protocol.
    Roast(RoastError),
}

} // verus!
