//! The library's reference location space: points on a signed number line.

use vstd::prelude::*;
use vstd::bytes::{
    lemma_auto_spec_u64_to_from_le_bytes, spec_u64_from_le_bytes, spec_u64_to_le_bytes,
    u64_from_le_bytes, u64_to_le_bytes,
};
use crate::codec::SwarmError;
use crate::Location;

verus! {

/// A location on a number line; the distance between two locations is the
/// absolute difference of their coordinates.
///
/// On the wire a scalar location is its coordinate's two's-complement bit
/// pattern, eight bytes little-endian.
#[derive(Clone, Copy, Debug, PartialEq, Eq, Structural)]
pub struct ScalarLocation {
    pub val: i64,
}

impl Location for ScalarLocation {
    open spec fn dist_spec(self, other: Self) -> nat {
        if self.val >= other.val {
            (self.val - other.val) as nat
        } else {
            (other.val - self.val) as nat
        }
    }

    open spec fn wire_spec(self) -> Seq<u8> {
        spec_u64_to_le_bytes(self.val as u64)
    }

    open spec fn read_spec(s: Seq<u8>, i: int) -> Option<(Self, int)> {
        if 0 <= i && i + 8 <= s.len() {
            Some(
                (
                    ScalarLocation { val: spec_u64_from_le_bytes(s.subrange(i, i + 8)) as i64 },
                    i + 8,
                ),
            )
        } else {
            None
        }
    }

    fn distance(&self, other: &Self) -> (d: u64) {
        if self.val >= other.val {
            (self.val as i128 - other.val as i128) as u64
        } else {
            (other.val as i128 - self.val as i128) as u64
        }
    }

    fn dup(&self) -> (r: Self) {
        ScalarLocation { val: self.val }
    }

    fn write_wire(&self, out: &mut Vec<u8>) {
        proof {
            lemma_auto_spec_u64_to_from_le_bytes();
        }
        let mut bytes = u64_to_le_bytes(self.val as u64);
        out.append(&mut bytes);
    }

    fn read_wire(buf: &[u8], pos: usize) -> (r: Result<(Self, usize), SwarmError>) {
        if buf.len() - pos >= 8 {
            let sub = vstd::slice::slice_subrange(buf, pos, pos + 8);
            let x = u64_from_le_bytes(sub);
            Ok((ScalarLocation { val: x as i64 }, pos + 8))
        } else {
            Err(SwarmError::DecodingFailure)
        }
    }

    proof fn lemma_read_write(self, s: Seq<u8>, i: int) {
        lemma_auto_spec_u64_to_from_le_bytes();
        let x = self.val;
        assert(((x as u64) as i64) == x) by (bit_vector);
    }

    proof fn lemma_write_read(s: Seq<u8>, i: int) {
        lemma_auto_spec_u64_to_from_le_bytes();
        if Self::read_spec(s, i) is Some {
            let y = spec_u64_from_le_bytes(s.subrange(i, i + 8));
            assert(((y as i64) as u64) == y) by (bit_vector);
            assert(s.subrange(i, i + 8).len() == 8);
        }
    }
}

} // verus!
