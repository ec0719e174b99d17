//! 160-bit agent and artifact identifiers with bitwise algebra.

use vstd::prelude::*;

verus! {

/// Number of bytes in an identifier.
pub const BYTE_ID_LEN: usize = 20;

/// A 160-bit identifier, held as 20 raw bytes.
///
/// Identifiers are drawn at random when an agent or an artifact is created;
/// equality is byte-wise and no ordering is defined.
#[derive(Clone, Copy, Debug)]
pub struct ByteId(pub [u8; BYTE_ID_LEN]);

impl View for ByteId {
    type V = Seq<u8>;

    open spec fn view(&self) -> Seq<u8> {
        self.0@
    }
}

impl PartialEq for ByteId {
    fn eq(&self, other: &ByteId) -> (r: bool) {
        let mut k: usize = 0;
        while k < BYTE_ID_LEN
            invariant
                k <= BYTE_ID_LEN,
                forall|t: int| 0 <= t < k ==> self.0@[t] == other.0@[t],
            decreases BYTE_ID_LEN - k,
        {
            if self.0[k] != other.0[k] {
                return false;
            }
            k += 1;
        }
        proof {
            assert(self.0@ =~= other.0@);
        }
        true
    }
}

impl vstd::std_specs::cmp::PartialEqSpecImpl for ByteId {
    open spec fn obeys_eq_spec() -> bool {
        true
    }

    open spec fn eq_spec(&self, other: &ByteId) -> bool {
        self@ == other@
    }
}

impl Eq for ByteId {}

/// Draws 20 uniformly random bytes.
///
/// Relies on `rand::random`, the thread-local generator of the `rand` crate;
/// nothing can be promised of the value that comes back.
#[verifier::external_body]
fn random_bytes() -> [u8; BYTE_ID_LEN] {
    rand::random::<[u8; BYTE_ID_LEN]>()
}

impl ByteId {
    /// A fresh identifier with random content.
    pub fn random_id() -> ByteId {
        ByteId(random_bytes())
    }

    /// The identifier holding exactly the given bytes.
    pub fn from_bytes(data: [u8; BYTE_ID_LEN]) -> (r: ByteId)
        ensures
            r@ == data@,
    {
        ByteId(data)
    }

    /// Overwrites one byte; the index is taken modulo 20.
    pub fn set_byte(&mut self, index: usize, val: u8)
        ensures
            final(self)@ == old(self)@.update((index % BYTE_ID_LEN) as int, val),
    {
        self.0[index % BYTE_ID_LEN] = val;
    }

    /// Reads one byte; the index is taken modulo 20.
    pub fn byte(&self, index: usize) -> (r: u8)
        ensures
            r == self@[(index % BYTE_ID_LEN) as int],
    {
        self.0[index % BYTE_ID_LEN]
    }

    /// Elementwise bitwise and.
    pub fn bitand(&self, other: &ByteId) -> (r: ByteId)
        ensures
            r@.len() == BYTE_ID_LEN,
            forall|t: int| 0 <= t < BYTE_ID_LEN ==> r@[t] == (self@[t] & other@[t]),
    {
        let mut ret: [u8; BYTE_ID_LEN] = [0u8; BYTE_ID_LEN];
        let mut k: usize = 0;
        while k < BYTE_ID_LEN
            invariant
                k <= BYTE_ID_LEN,
                forall|t: int| 0 <= t < k ==> ret@[t] == (self.0@[t] & other.0@[t]),
            decreases BYTE_ID_LEN - k,
        {
            ret[k] = self.0[k] & other.0[k];
            k += 1;
        }
        ByteId(ret)
    }

    /// Elementwise bitwise or.
    pub fn bitor(&self, other: &ByteId) -> (r: ByteId)
        ensures
            r@.len() == BYTE_ID_LEN,
            forall|t: int| 0 <= t < BYTE_ID_LEN ==> r@[t] == (self@[t] | other@[t]),
    {
        let mut ret: [u8; BYTE_ID_LEN] = [0u8; BYTE_ID_LEN];
        let mut k: usize = 0;
        while k < BYTE_ID_LEN
            invariant
                k <= BYTE_ID_LEN,
                forall|t: int| 0 <= t < k ==> ret@[t] == (self.0@[t] | other.0@[t]),
            decreases BYTE_ID_LEN - k,
        {
            ret[k] = self.0[k] | other.0[k];
            k += 1;
        }
        ByteId(ret)
    }

    /// Elementwise bitwise exclusive or.
    pub fn bitxor(&self, other: &ByteId) -> (r: ByteId)
        ensures
            r@.len() == BYTE_ID_LEN,
            forall|t: int| 0 <= t < BYTE_ID_LEN ==> r@[t] == (self@[t] ^ other@[t]),
    {
        let mut ret: [u8; BYTE_ID_LEN] = [0u8; BYTE_ID_LEN];
        let mut k: usize = 0;
        while k < BYTE_ID_LEN
            invariant
                k <= BYTE_ID_LEN,
                forall|t: int| 0 <= t < k ==> ret@[t] == (self.0@[t] ^ other.0@[t]),
            decreases BYTE_ID_LEN - k,
        {
            ret[k] = self.0[k] ^ other.0[k];
            k += 1;
        }
        ByteId(ret)
    }

    /// Elementwise bitwise complement.
    pub fn not(&self) -> (r: ByteId)
        ensures
            r@.len() == BYTE_ID_LEN,
            forall|t: int| 0 <= t < BYTE_ID_LEN ==> r@[t] == !self@[t],
    {
        let mut ret: [u8; BYTE_ID_LEN] = [0u8; BYTE_ID_LEN];
        let mut k: usize = 0;
        while k < BYTE_ID_LEN
            invariant
                k <= BYTE_ID_LEN,
                forall|t: int| 0 <= t < k ==> ret@[t] == !self.0@[t],
            decreases BYTE_ID_LEN - k,
        {
            ret[k] = !self.0[k];
            k += 1;
        }
        ByteId(ret)
    }
}

} // verus!
