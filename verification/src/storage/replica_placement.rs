//! How many copies of a volume are kept, and where: on other data centers, on other
//! racks of the same data center, and on other nodes of the same rack.
use vstd::prelude::*;
use vstd::string::*;
use crate::storage::errors::Error;
use crate::text::{dec_str, dec_string};

verus! {

/// The replication of a volume. Its text has three digits: data centers, racks, same rack.
#[derive(Copy, Clone, Debug, PartialEq, Eq, Structural)]
pub struct ReplicaPlacement {
    pub same_rack_count: u8,
    pub diff_rack_count: u8,
    pub diff_data_center_count: u8,
}

/// `b - '0'` in a byte, wrapping at 2^8 below zero.
pub open spec fn digit_byte(b: u8) -> u8 {
    ((b - 48) % 256) as u8
}

/// The placement that a three-byte text `b` is read as: the first byte gives the
/// same-rack count, the second gives both the other-rack and the other-data-center count.
pub open spec fn placement_of_bytes(b: Seq<u8>) -> ReplicaPlacement {
    ReplicaPlacement {
        same_rack_count: digit_byte(b[0]),
        diff_rack_count: digit_byte(b[1]),
        diff_data_center_count: digit_byte(b[1]),
    }
}

/// The three decimal digits of `u`, zero-padded, as bytes.
pub open spec fn three_digits(u: u8) -> Seq<u8> {
    seq![(u / 100 + 48) as u8, ((u / 10) % 10 + 48) as u8, (u % 10 + 48) as u8]
}

/// The text of a placement: data centers, racks, same rack, each in decimal.
pub open spec fn placement_text(rp: ReplicaPlacement) -> Seq<char> {
    dec_str(rp.diff_data_center_count as nat) + dec_str(rp.diff_rack_count as nat) + dec_str(
        rp.same_rack_count as nat,
    )
}

impl Default for ReplicaPlacement {
    fn default() -> (r: ReplicaPlacement)
        ensures
            r == (ReplicaPlacement {
                same_rack_count: 0,
                diff_rack_count: 0,
                diff_data_center_count: 0,
            }),
    {
        ReplicaPlacement { same_rack_count: 0, diff_rack_count: 0, diff_data_center_count: 0 }
    }
}

impl ReplicaPlacement {
    /// Reads the placement stored as a byte, through its three-digit decimal text.
    pub fn from_u8(u: u8) -> (r: Result<ReplicaPlacement, Error>)
        ensures
            r matches Ok(rp) && rp == placement_of_bytes(three_digits(u)),
    {
        let b0 = u / 100 + 48;
        let b1 = (u / 10) % 10 + 48;
        Ok(ReplicaPlacement {
            same_rack_count: b0 - 48,
            diff_rack_count: b1 - 48,
            diff_data_center_count: b1 - 48,
        })
    }

    /// The byte that stores this placement: data centers times 100, plus racks times 10,
    /// plus same rack, wrapping at 256.
    pub fn byte(&self) -> (r: u8)
        ensures
            r == (self.diff_data_center_count * 100 + self.diff_rack_count * 10
                + self.same_rack_count) % 256,
    {
        let v: u32 = self.diff_data_center_count as u32 * 100 + self.diff_rack_count as u32 * 10
            + self.same_rack_count as u32;
        (v % 256) as u8
    }

    /// Reads a placement from its three-byte text.
    pub fn new(s: &str) -> (r: Result<ReplicaPlacement, Error>)
        ensures
            s.spec_bytes().len() == 3 ==> (r matches Ok(rp) && rp == placement_of_bytes(
                s.spec_bytes(),
            )),
            s.spec_bytes().len() != 3 ==> (r matches Err(Error::ParseReplicaPlacement(m)) && m@
                == s@),
    {
        let bytes = s.as_bytes();
        if bytes.len() != 3 {
            return Err(Error::ParseReplicaPlacement(String::from_str(s)));
        }
        Ok(ReplicaPlacement {
            same_rack_count: bytes[0].wrapping_sub(48),
            diff_rack_count: bytes[1].wrapping_sub(48),
            diff_data_center_count: bytes[1].wrapping_sub(48),
        })
    }

    /// The text of this placement: data centers, racks, same rack.
    pub fn string(&self) -> (r: String)
        ensures
            r@ == placement_text(*self),
    {
        let mut s = dec_string(self.diff_data_center_count as u64);
        let a = dec_string(self.diff_rack_count as u64);
        let b = dec_string(self.same_rack_count as u64);
        s.append(a.as_str());
        s.append(b.as_str());
        s
    }

    /// How many copies of a volume this placement asks for: one more than the three
    /// counts together, wrapping at 256.
    pub fn get_copy_count(&self) -> (r: i64)
        ensures
            r == (self.diff_data_center_count + self.diff_rack_count + self.same_rack_count + 1)
                % 256,
    {
        let v: u32 = self.diff_data_center_count as u32 + self.diff_rack_count as u32
            + self.same_rack_count as u32 + 1;
        (v % 256) as i64
    }
}

} // verus!
