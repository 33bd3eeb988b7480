//! The signer of the ROAST protocol.

use vstd::prelude::*;
use crate::ciphersuite::Ciphersuite;
use crate::error::{Error, FrostError};

verus! {

/// One signer's long-term key material and current signing nonce pair.
///
/// A signer always holds exactly one unused nonce pair; its public
/// commitments are advertised through [`Signer::signing_commitments`]. The
/// ghost `nonce_epoch` counts how often the nonce pair has been replaced.
pub struct Signer<C: Ciphersuite> {
    key_package: C::KeyPackage,
    signing_nonces: C::SigningNonces,
    signing_commitments: C::SigningCommitments,
    nonce_epoch: Ghost<nat>,
}

impl<C: Ciphersuite> Signer<C> {
    /// The number of nonce rotations this signer has performed so far.
    pub closed spec fn nonce_epoch(&self) -> nat {
        self.nonce_epoch@
    }

    /// The commitments advertised for the current, unused nonce pair.
    pub closed spec fn current_commitments(&self) -> C::SigningCommitments {
        self.signing_commitments
    }

    /// The long-term key material this signer signs with.
    pub closed spec fn key_package(&self) -> C::KeyPackage {
        self.key_package
    }

    /// Creates a new signer: commits to a fresh nonce pair and stores it.
    pub fn new(key_package: C::KeyPackage, rng: &mut C::Rng) -> (signer: Self)
        ensures
            signer.nonce_epoch() == 0,
            signer.key_package() == key_package,
    {
        let secret = C::signing_share(&key_package);
        let (signing_nonces, signing_commitments) = C::commit(&secret, rng);
        Signer {
            key_package,
            signing_nonces,
            signing_commitments,
            nonce_epoch: Ghost(0),
        }
    }

    /// Returns the commitments of the currently held nonce pair. Pure: the
    /// signer itself is untouched.
    pub fn signing_commitments(&self) -> (c: C::SigningCommitments)
        ensures
            c == self.current_commitments(),
    {
        self.signing_commitments
    }

    /// Signs the coordinator's signing package with the current nonce pair.
    ///
    /// On success the nonce pair has been rotated before the share is
    /// returned: the consumed nonces are overwritten by a fresh pair, so the
    /// signer is immediately ready for the next, possibly overlapping,
    /// session. A failure of the signing primitive is returned unchanged and
    /// leaves the signer untouched.
    pub fn receive(&mut self, signing_package: &C::SigningPackage, rng: &mut C::Rng) -> (r: Result<
        C::SignatureShare,
        Error<C>,
    >)
        ensures
            r is Ok ==> final(self).nonce_epoch() == old(self).nonce_epoch() + 1,
            r is Err ==> *final(self) == *old(self),
            r matches Err(e) ==> e is Frost && (e->Frost_0 is Primitive),
            final(self).key_package() == old(self).key_package(),
    {
        let signature_share = match C::sign(signing_package, &self.signing_nonces, &self.key_package) {
            Ok(share) => share,
            Err(e) => {
                return Err(Error::Frost(FrostError::Primitive(e)));
            },
        };
        self.rotate_nonces(rng);
        Ok(signature_share)
    }

    /// Discards the current nonce pair and commits to a fresh one.
    pub fn regenerate_signing_nonces(&mut self, rng: &mut C::Rng)
        ensures
            final(self).nonce_epoch() == old(self).nonce_epoch() + 1,
            final(self).key_package() == old(self).key_package(),
    {
        self.rotate_nonces(rng);
    }

    /// Replaces the stored nonce pair by a freshly committed one.
    fn rotate_nonces(&mut self, rng: &mut C::Rng)
        ensures
            final(self).nonce_epoch() == old(self).nonce_epoch() + 1,
            final(self).key_package() == old(self).key_package(),
    {
        let secret = C::signing_share(&self.key_package);
        let (signing_nonces, signing_commitments) = C::commit(&secret, rng);
        self.signing_nonces = signing_nonces;
        self.signing_commitments = signing_commitments;
        proof {
            self.nonce_epoch@ = self.nonce_epoch@ + 1;
        }
    }
}

} // verus!
