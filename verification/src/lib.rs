//! A peer-to-peer overlay for cooperating autonomous agents spread over a
//! logical location space.
//!
//! Each agent owns a 160-bit identity, a location and a bound address, and
//! keeps a small routing table of neighbor agents.  Five wire messages —
//! HRTBT, HRTBTACK, JOIN, INFO and BROADCAST — drive membership maintenance,
//! greedy distance-based routing and event dissemination.  The library holds
//! the data model, the length-delimited wire codec and the routing state
//! machine; the host supplies the datagram transport, the location metric and
//! the reactor that consumes delivered messages.

use vstd::prelude::*;

pub mod agent;
pub mod artifact;
pub mod byteid;
pub mod codec;
pub mod network;
pub mod scalar;
pub mod swarm;

use crate::codec::SwarmError;

verus! {

/// A value in the user-defined location space.
///
/// The core is parametric in the location type: it needs only a distance
/// metric into the non-negative integers, a wire form with a round-trip
/// inverse, and plain value copying.  A failed wire read is always reported
/// as [`SwarmError::DecodingFailure`].
pub trait Location: Sized + Clone {
    /// Mathematical distance between two locations.
    spec fn dist_spec(self, other: Self) -> nat;

    /// The bytes this location contributes to an encoded record.
    spec fn wire_spec(self) -> Seq<u8>;

    /// Reading one location out of `s` at position `i`: the value and the
    /// position just past it, or `None` when no location starts there.
    spec fn read_spec(s: Seq<u8>, i: int) -> Option<(Self, int)>;

    /// Computes the distance to `other`.
    fn distance(&self, other: &Self) -> (d: u64)
        ensures
            d == self.dist_spec(*other),
    ;

    /// An equal copy of this location.
    fn dup(&self) -> (r: Self)
        ensures
            r == *self,
    ;

    /// Appends this location's wire form to `out`.
    fn write_wire(&self, out: &mut Vec<u8>)
        ensures
            final(out)@ == old(out)@ + self.wire_spec(),
    ;

    /// Reads one location out of `buf` at `pos`.
    fn read_wire(buf: &[u8], pos: usize) -> (r: Result<(Self, usize), SwarmError>)
        requires
            pos <= buf@.len(),
        ensures
            (match r {
                Ok((v, next)) => {
                    &&& pos <= next <= buf@.len()
                    &&& Self::read_spec(buf@, pos as int) == Some((v, next as int))
                },
                Err(e) => {
                    &&& Self::read_spec(buf@, pos as int) is None
                    &&& e == SwarmError::DecodingFailure
                },
            }),
    ;

    /// Whatever was written can be read back: where a slice of `s` holds
    /// exactly this location's wire form, reading at its start yields this
    /// location and stops just past it.
    proof fn lemma_read_write(self, s: Seq<u8>, i: int)
        requires
            0 <= i,
            i + self.wire_spec().len() <= s.len(),
            s.subrange(i, i + self.wire_spec().len() as int) == self.wire_spec(),
        ensures
            Self::read_spec(s, i) == Some((self, i + self.wire_spec().len() as int)),
    ;

    /// The wire form is canonical: whatever was read is the exact encoding
    /// of the bytes consumed.
    proof fn lemma_write_read(s: Seq<u8>, i: int)
        requires
            0 <= i <= s.len(),
        ensures
            (Self::read_spec(s, i) matches Some((v, n)) ==> {
                &&& i <= n <= s.len()
                &&& v.wire_spec() == s.subrange(i, n)
            }),
    ;
}

/// The host-supplied sink that consumes messages delivered locally.
///
/// `seen` is the ghost history of delivered messages; each call of `react`
/// appends exactly the message it was handed.  The library proves this for
/// its own reactors; host implementations are trusted at this boundary.
pub trait ReactToSwarm<L: Location> {
    /// The messages this reactor has consumed, oldest first.  A reactor
    /// that does not model its history may leave the default in place;
    /// nothing is then provable about what it saw.
    open spec fn seen(&self) -> Seq<crate::swarm::SwarmMsg<L>> {
        Seq::empty()
    }

    /// Consumes one delivered message.
    fn react(&mut self, msg: &crate::swarm::SwarmMsg<L>)
        ensures
            final(self).seen() == old(self).seen().push(*msg),
    ;
}


/// A whole swarm endpoint: the controller that owns the host's reactor,
/// and the network node with its neighbor table.
pub struct Swarm<T, L> {
    pub controller: crate::swarm::SwarmController<T, L>,
    pub network: crate::network::SwarmNetwork<L>,
}

} // verus!
