//! Swarm agents: the participants of the overlay network.
//!
//! An agent bundles a random 160-bit identity, a location in the
//! user-defined space, and the wire-representable endpoint it is bound to.

use vstd::prelude::*;
use crate::byteid::ByteId;
use crate::Location;

verus! {

/// A wire-representable endpoint: an IPv4 quad and a UDP port.
///
/// IPv6 is reserved on the wire but not implemented; decoding an IPv6 form
/// fails with `SwarmError::UnsupportedAddressForm`.
#[derive(Clone, Copy, Debug, PartialEq, Eq, Structural)]
pub struct SwarmAddr {
    pub a: u8,
    pub b: u8,
    pub c: u8,
    pub d: u8,
    pub port: u16,
}

impl SwarmAddr {
    /// The endpoint `a.b.c.d:port`.
    pub fn new(a: u8, b: u8, c: u8, d: u8, port: u16) -> (r: SwarmAddr)
        ensures
            r == (SwarmAddr { a, b, c, d, port }),
    {
        SwarmAddr { a, b, c, d, port }
    }
}

/// A network participant: identity, location and bound address.
///
/// The identity is assigned at construction from the injected randomness and
/// never mutates; the address is immutable after construction; the location
/// may be updated as the agent moves.
#[derive(Clone, Debug, PartialEq, Eq)]
pub struct SwarmAgent<L> {
    pub swarm_id: ByteId,
    pub loc: L,
    pub addr: SwarmAddr,
}

/// The mathematical value of a [`SwarmAgent`].
pub struct AgentV<L> {
    pub id: Seq<u8>,
    pub loc: L,
    pub addr: SwarmAddr,
}

impl<L> AgentV<L> {
    /// Every view of a real agent has a 20-byte identity.
    pub open spec fn wf(self) -> bool {
        self.id.len() == crate::byteid::BYTE_ID_LEN as int
    }
}

impl<L> View for SwarmAgent<L> {
    type V = AgentV<L>;

    open spec fn view(&self) -> AgentV<L> {
        AgentV { id: self.swarm_id@, loc: self.loc, addr: self.addr }
    }
}

impl<L: Location> SwarmAgent<L> {
    /// A fresh agent at `location`, bound to `address`, with a random
    /// identity.
    pub fn new(location: L, address: SwarmAddr) -> (r: SwarmAgent<L>)
        ensures
            r.loc == location,
            r.addr == address,
    {
        SwarmAgent { loc: location, swarm_id: ByteId::random_id(), addr: address }
    }

    /// The agent's current location.
    pub fn location(&self) -> (r: &L)
        ensures
            *r == self.loc,
    {
        &self.loc
    }

    /// Moves the agent; identity and address are untouched.
    pub fn update_location(&mut self, location: L)
        ensures
            final(self).loc == location,
            final(self).swarm_id == old(self).swarm_id,
            final(self).addr == old(self).addr,
    {
        self.loc = location;
    }

    /// The agent's identity.
    pub fn id(&self) -> (r: &ByteId)
        ensures
            *r == self.swarm_id,
    {
        &self.swarm_id
    }

    /// The endpoint the agent is bound to.
    pub fn address(&self) -> (r: &SwarmAddr)
        ensures
            *r == self.addr,
    {
        &self.addr
    }

    /// An equal copy of this agent.
    pub fn dup(&self) -> (r: SwarmAgent<L>)
        ensures
            r == *self,
    {
        SwarmAgent { swarm_id: self.swarm_id, loc: self.loc.dup(), addr: self.addr }
    }
}

} // verus!
