//! A robust asynchronous threshold-signature coordinator (ROAST) around the
//! FROST threshold Schnorr signature scheme, together with a trusted-third-party
//! driven distributed key generation protocol with culprit attribution.
//!
//! The crate is generic over the FROST ciphersuite. Signer identifiers are
//! modelled as non-zero `u16` values throughout; they are converted to the
//! ciphersuite's scalar identifiers at the FROST boundary.

use vstd::prelude::*;

pub mod ciphersuite;
pub mod coordinator;
pub mod dkg;
pub mod idmap;
pub mod error;
pub mod signer;

verus! {

pub use crate::ciphersuite::Ciphersuite;
pub use crate::coordinator::{Coordinator, SessionStatus};
pub use crate::error::{DkgError, Error, FrostError, MaliciousSignerError, RoastError};
pub use crate::idmap::{IdMap, IdSet};
pub use crate::signer::Signer;

/// The identifier of a signing session, allocated by the coordinator.
/// `0` means "no session"; the first session allocated has id `1`.
pub type SessionId = u16;

} // verus!
