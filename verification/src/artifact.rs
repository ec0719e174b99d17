//! Artifacts: location-tagged resources that agents discover and track.
//!
//! Knowledge of artifacts is dispersed through the swarm with the INFO or
//! BROADCAST RPC, depending on the importance attached to the artifact.

use vstd::prelude::*;
use crate::byteid::ByteId;
use crate::Location;

verus! {

/// A location-tagged resource observed by some agent.
///
/// The identity is assigned at construction from the injected randomness and
/// never mutates; the location may be updated.
#[derive(Clone, Debug, PartialEq, Eq)]
pub struct SwarmArtifact<L> {
    pub id: ByteId,
    pub location: L,
}

/// The mathematical value of a [`SwarmArtifact`].
pub struct ArtifactV<L> {
    pub id: Seq<u8>,
    pub loc: L,
}

impl<L> ArtifactV<L> {
    /// Every view of a real artifact has a 20-byte identity.
    pub open spec fn wf(self) -> bool {
        self.id.len() == crate::byteid::BYTE_ID_LEN as int
    }
}

impl<L> View for SwarmArtifact<L> {
    type V = ArtifactV<L>;

    open spec fn view(&self) -> ArtifactV<L> {
        ArtifactV { id: self.id@, loc: self.location }
    }
}

impl<L: Location> SwarmArtifact<L> {
    /// A fresh artifact at `loc` with a random identity.
    pub fn new(loc: L) -> (r: SwarmArtifact<L>)
        ensures
            r.location == loc,
    {
        SwarmArtifact { id: ByteId::random_id(), location: loc }
    }

    /// The artifact's current location.
    pub fn location(&self) -> (r: &L)
        ensures
            *r == self.location,
    {
        &self.location
    }

    /// The artifact's identity.
    pub fn id(&self) -> (r: &ByteId)
        ensures
            *r == self.id,
    {
        &self.id
    }

    /// Moves the artifact; the identity is untouched.
    pub fn update_location(&mut self, location: L)
        ensures
            final(self).location == location,
            final(self).id == old(self).id,
    {
        self.location = location;
    }

    /// An equal copy of this artifact.
    pub fn dup(&self) -> (r: SwarmArtifact<L>)
        ensures
            r == *self,
    {
        SwarmArtifact { id: self.id, location: self.location.dup() }
    }
}

} // verus!
