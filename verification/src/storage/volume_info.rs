//! What the directory server knows of a volume.
use vstd::prelude::*;
use crate::pb::zergling::VolumeInformationMessage;
use crate::storage::errors::Error;
use crate::storage::replica_placement::{ReplicaPlacement, placement_of_bytes, three_digits};
use crate::storage::ttl::{TTL, Unit, ttl_from_bytes, ttl_u32_bytes, unit_from_index, unit_index};
use crate::storage::version::Version;
use crate::storage::VolumeId;

verus! {

/// What the directory server knows of a volume.
#[derive(Debug)]
pub struct VolumeInfo {
    pub id: VolumeId,
    pub size: u64,
    pub replica_placement: ReplicaPlacement,
    pub ttl: TTL,
    pub collection: String,
    pub version: Version,
    pub file_count: i64,
    pub delete_count: i64,
    pub delte_byte_count: u64,
    pub read_only: bool,
}

impl Clone for VolumeInfo {
    fn clone(&self) -> (r: VolumeInfo)
        ensures
            r == *self,
    {
        VolumeInfo {
            id: self.id,
            size: self.size,
            replica_placement: self.replica_placement,
            ttl: self.ttl,
            collection: self.collection.clone(),
            version: self.version,
            file_count: self.file_count,
            delete_count: self.delete_count,
            delte_byte_count: self.delte_byte_count,
            read_only: self.read_only,
        }
    }
}

impl Default for VolumeInfo {
    fn default() -> (r: VolumeInfo)
        ensures
            r.id == 0 && r.size == 0 && r.collection@.len() == 0 && r.version == 0 && r.file_count
                == 0 && r.delete_count == 0 && r.delte_byte_count == 0 && !r.read_only,
            r.replica_placement == (ReplicaPlacement {
                same_rack_count: 0,
                diff_rack_count: 0,
                diff_data_center_count: 0,
            }),
            r.ttl == (TTL { count: 0, unit: Unit::Empty }),
    {
        VolumeInfo {
            id: 0,
            size: 0,
            replica_placement: ReplicaPlacement::default(),
            ttl: TTL::default(),
            collection: String::new(),
            version: 0,
            file_count: 0,
            delete_count: 0,
            delte_byte_count: 0,
            read_only: false,
        }
    }
}

/// The volume information that a heartbeat message `m` carries.
pub open spec fn info_of_message(m: VolumeInformationMessage) -> VolumeInfo {
    VolumeInfo {
        id: m.id,
        size: m.size,
        replica_placement: placement_of_bytes(three_digits(m.replica_placement as u8)),
        ttl: ttl_from_bytes(ttl_u32_bytes(m.ttl)),
        collection: m.collection,
        version: m.version as u8,
        file_count: m.file_count as i64,
        delete_count: m.delete_count as i64,
        delte_byte_count: m.deleted_byte_count,
        read_only: m.read_only,
    }
}

/// The ttl of a heartbeat message names a known unit.
pub open spec fn message_ttl_ok(m: VolumeInformationMessage) -> bool {
    unit_from_index(ttl_u32_bytes(m.ttl)[1]) is Some
}

/// Law: the volume information read from a heartbeat message keeps the message's time to
/// live: its count is the message's ttl number modulo 255, and its unit is the one numbered
/// by the ttl number's second byte (modulo 255), as the heartbeat's reader does it; a unit
/// number other than 0 gives a ttl with a unit.
pub proof fn law_message_ttl_is_kept(m: VolumeInformationMessage)
    requires
        message_ttl_ok(m),
    ensures
        info_of_message(m).ttl.count as u32 == m.ttl % 255,
        unit_index(info_of_message(m).ttl.unit) as u32 == (m.ttl / 256) % 255,
        (m.ttl / 256) % 255 != 0 ==> info_of_message(m).ttl.unit != Unit::Empty,
{
    let u = ttl_u32_bytes(m.ttl)[1];
    assert(u as u32 == (m.ttl / 256) % 255);
    assert(unit_index(unit_from_index(u).unwrap()) == u);
}

impl VolumeInfo {
    /// The volume information that a heartbeat message carries.
    pub fn new(m: &VolumeInformationMessage) -> (r: Result<VolumeInfo, Error>)
        requires
            message_ttl_ok(*m),
        ensures
            r matches Ok(vi) && vi == info_of_message(*m),
    {
        let rp = ReplicaPlacement::from_u8(m.replica_placement as u8)?;
        Ok(VolumeInfo {
            id: m.id,
            size: m.size,
            collection: m.collection.clone(),
            file_count: m.file_count as i64,
            delete_count: m.delete_count as i64,
            delte_byte_count: m.deleted_byte_count,
            read_only: m.read_only,
            version: m.version as u8,
            ttl: TTL::from_u32(m.ttl),
            replica_placement: rp,
        })
    }
}

} // verus!
