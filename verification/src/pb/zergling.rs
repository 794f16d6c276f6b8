//! The messages that volume servers and the directory server exchange.
use vstd::prelude::*;

verus! {

/// A heartbeat that a volume server sends to the directory server: where it is, its capacity, its largest key, and its volumes.
#[derive(Debug)]
pub struct Heartbeat {
    pub ip: String,
    pub port: u32,
    pub public_url: String,
    pub max_volume_count: u32,
    pub max_file_key: u64,
    pub data_center: String,
    pub rack: String,
    pub admin_port: u32,
    pub volumes: Vec<VolumeInformationMessage>,
}

/// A Heartbeat whose fields are all zero, false or empty.
pub open spec fn empty_heartbeat(m: Heartbeat) -> bool {
    m.ip@.len() == 0
    && m.port == 0
    && m.public_url@.len() == 0
    && m.max_volume_count == 0
    && m.max_file_key == 0
    && m.data_center@.len() == 0
    && m.rack@.len() == 0
    && m.admin_port == 0
    && m.volumes@.len() == 0
}

#[allow(non_snake_case)]
impl Heartbeat {
    /// A message with every field zero, false or empty.
    pub fn new() -> (r: Heartbeat)
        ensures
            empty_heartbeat(r),
    {
        Heartbeat {
            ip: String::new(),
            port: 0,
            public_url: String::new(),
            max_volume_count: 0,
            max_file_key: 0,
            data_center: String::new(),
            rack: String::new(),
            admin_port: 0,
            volumes: Vec::new(),
        }
    }

    /// Empties `ip`.
    pub fn clear_ip(&mut self)
        ensures
            final(self).ip@.len() == 0,
            *final(self) == (Heartbeat { ip: final(self).ip, ..*old(self) }),
    {
        self.ip = String::new();
    }

    /// Sets `ip`.
    pub fn set_ip(&mut self, v: String)
        ensures
            *final(self) == (Heartbeat { ip: v, ..*old(self) }),
    {
        self.ip = v;
    }

    /// `ip`, to change in place.
    pub fn mut_ip(&mut self) -> (r: &mut String)
        ensures
            *r == old(self).ip,
            *final(self) == (Heartbeat { ip: *final(r), ..*old(self) }),
    {
        &mut self.ip
    }

    /// Takes `ip` out, leaving it empty.
    pub fn take_ip(&mut self) -> (r: String)
        ensures
            r == old(self).ip,
            final(self).ip@.len() == 0,
            *final(self) == (Heartbeat { ip: final(self).ip, ..*old(self) }),
    {
        let mut s = String::new();
        std::mem::swap(&mut self.ip, &mut s);
        s
    }

    /// `ip`.
    pub fn get_ip(&self) -> (r: &str)
        ensures
            r@ == self.ip@,
    {
        self.ip.as_str()
    }

    /// Resets `port` to 0.
    pub fn clear_port(&mut self)
        ensures
            *final(self) == (Heartbeat { port: 0, ..*old(self) }),
    {
        self.port = 0;
    }

    /// Sets `port`.
    pub fn set_port(&mut self, v: u32)
        ensures
            *final(self) == (Heartbeat { port: v, ..*old(self) }),
    {
        self.port = v;
    }

    /// `port`.
    pub fn get_port(&self) -> (r: u32)
        ensures
            r == self.port,
    {
        self.port
    }

    /// Empties `public_url`.
    pub fn clear_public_url(&mut self)
        ensures
            final(self).public_url@.len() == 0,
            *final(self) == (Heartbeat { public_url: final(self).public_url, ..*old(self) }),
    {
        self.public_url = String::new();
    }

    /// Sets `public_url`.
    pub fn set_public_url(&mut self, v: String)
        ensures
            *final(self) == (Heartbeat { public_url: v, ..*old(self) }),
    {
        self.public_url = v;
    }

    /// `public_url`, to change in place.
    pub fn mut_public_url(&mut self) -> (r: &mut String)
        ensures
            *r == old(self).public_url,
            *final(self) == (Heartbeat { public_url: *final(r), ..*old(self) }),
    {
        &mut self.public_url
    }

    /// Takes `public_url` out, leaving it empty.
    pub fn take_public_url(&mut self) -> (r: String)
        ensures
            r == old(self).public_url,
            final(self).public_url@.len() == 0,
            *final(self) == (Heartbeat { public_url: final(self).public_url, ..*old(self) }),
    {
        let mut s = String::new();
        std::mem::swap(&mut self.public_url, &mut s);
        s
    }

    /// `public_url`.
    pub fn get_public_url(&self) -> (r: &str)
        ensures
            r@ == self.public_url@,
    {
        self.public_url.as_str()
    }

    /// Resets `max_volume_count` to 0.
    pub fn clear_max_volume_count(&mut self)
        ensures
            *final(self) == (Heartbeat { max_volume_count: 0, ..*old(self) }),
    {
        self.max_volume_count = 0;
    }

    /// Sets `max_volume_count`.
    pub fn set_max_volume_count(&mut self, v: u32)
        ensures
            *final(self) == (Heartbeat { max_volume_count: v, ..*old(self) }),
    {
        self.max_volume_count = v;
    }

    /// `max_volume_count`.
    pub fn get_max_volume_count(&self) -> (r: u32)
        ensures
            r == self.max_volume_count,
    {
        self.max_volume_count
    }

    /// Resets `max_file_key` to 0.
    pub fn clear_max_file_key(&mut self)
        ensures
            *final(self) == (Heartbeat { max_file_key: 0, ..*old(self) }),
    {
        self.max_file_key = 0;
    }

    /// Sets `max_file_key`.
    pub fn set_max_file_key(&mut self, v: u64)
        ensures
            *final(self) == (Heartbeat { max_file_key: v, ..*old(self) }),
    {
        self.max_file_key = v;
    }

    /// `max_file_key`.
    pub fn get_max_file_key(&self) -> (r: u64)
        ensures
            r == self.max_file_key,
    {
        self.max_file_key
    }

    /// Empties `data_center`.
    pub fn clear_data_center(&mut self)
        ensures
            final(self).data_center@.len() == 0,
            *final(self) == (Heartbeat { data_center: final(self).data_center, ..*old(self) }),
    {
        self.data_center = String::new();
    }

    /// Sets `data_center`.
    pub fn set_data_center(&mut self, v: String)
        ensures
            *final(self) == (Heartbeat { data_center: v, ..*old(self) }),
    {
        self.data_center = v;
    }

    /// `data_center`, to change in place.
    pub fn mut_data_center(&mut self) -> (r: &mut String)
        ensures
            *r == old(self).data_center,
            *final(self) == (Heartbeat { data_center: *final(r), ..*old(self) }),
    {
        &mut self.data_center
    }

    /// Takes `data_center` out, leaving it empty.
    pub fn take_data_center(&mut self) -> (r: String)
        ensures
            r == old(self).data_center,
            final(self).data_center@.len() == 0,
            *final(self) == (Heartbeat { data_center: final(self).data_center, ..*old(self) }),
    {
        let mut s = String::new();
        std::mem::swap(&mut self.data_center, &mut s);
        s
    }

    /// `data_center`.
    pub fn get_data_center(&self) -> (r: &str)
        ensures
            r@ == self.data_center@,
    {
        self.data_center.as_str()
    }

    /// Empties `rack`.
    pub fn clear_rack(&mut self)
        ensures
            final(self).rack@.len() == 0,
            *final(self) == (Heartbeat { rack: final(self).rack, ..*old(self) }),
    {
        self.rack = String::new();
    }

    /// Sets `rack`.
    pub fn set_rack(&mut self, v: String)
        ensures
            *final(self) == (Heartbeat { rack: v, ..*old(self) }),
    {
        self.rack = v;
    }

    /// `rack`, to change in place.
    pub fn mut_rack(&mut self) -> (r: &mut String)
        ensures
            *r == old(self).rack,
            *final(self) == (Heartbeat { rack: *final(r), ..*old(self) }),
    {
        &mut self.rack
    }

    /// Takes `rack` out, leaving it empty.
    pub fn take_rack(&mut self) -> (r: String)
        ensures
            r == old(self).rack,
            final(self).rack@.len() == 0,
            *final(self) == (Heartbeat { rack: final(self).rack, ..*old(self) }),
    {
        let mut s = String::new();
        std::mem::swap(&mut self.rack, &mut s);
        s
    }

    /// `rack`.
    pub fn get_rack(&self) -> (r: &str)
        ensures
            r@ == self.rack@,
    {
        self.rack.as_str()
    }

    /// Resets `admin_port` to 0.
    pub fn clear_admin_port(&mut self)
        ensures
            *final(self) == (Heartbeat { admin_port: 0, ..*old(self) }),
    {
        self.admin_port = 0;
    }

    /// Sets `admin_port`.
    pub fn set_admin_port(&mut self, v: u32)
        ensures
            *final(self) == (Heartbeat { admin_port: v, ..*old(self) }),
    {
        self.admin_port = v;
    }

    /// `admin_port`.
    pub fn get_admin_port(&self) -> (r: u32)
        ensures
            r == self.admin_port,
    {
        self.admin_port
    }

    /// Empties `volumes`.
    pub fn clear_volumes(&mut self)
        ensures
            final(self).volumes@.len() == 0,
            *final(self) == (Heartbeat { volumes: final(self).volumes, ..*old(self) }),
    {
        self.volumes = Vec::new();
    }

    /// Sets `volumes`.
    pub fn set_volumes(&mut self, v: Vec<VolumeInformationMessage>)
        ensures
            *final(self) == (Heartbeat { volumes: v, ..*old(self) }),
    {
        self.volumes = v;
    }

    /// `volumes`, to change in place.
    pub fn mut_volumes(&mut self) -> (r: &mut Vec<VolumeInformationMessage>)
        ensures
            *r == old(self).volumes,
            *final(self) == (Heartbeat { volumes: *final(r), ..*old(self) }),
    {
        &mut self.volumes
    }

    /// Takes `volumes` out, leaving it empty.
    pub fn take_volumes(&mut self) -> (r: Vec<VolumeInformationMessage>)
        ensures
            r == old(self).volumes,
            final(self).volumes@.len() == 0,
            *final(self) == (Heartbeat { volumes: final(self).volumes, ..*old(self) }),
    {
        let mut s: Vec<VolumeInformationMessage> = Vec::new();
        std::mem::swap(&mut self.volumes, &mut s);
        s
    }

    /// `volumes`.
    pub fn get_volumes(&self) -> (r: &[VolumeInformationMessage])
        ensures
            r@ == self.volumes@,
    {
        self.volumes.as_slice()
    }

}

/// The directory server's answer to a heartbeat.
#[allow(non_snake_case)]
#[derive(Debug)]
pub struct HeartbeatResponse {
    pub volumeSizeLimit: u64,
    pub secretKey: String,
    pub leader: String,
}

/// A HeartbeatResponse whose fields are all zero, false or empty.
pub open spec fn empty_heartbeatresponse(m: HeartbeatResponse) -> bool {
    m.volumeSizeLimit == 0
    && m.secretKey@.len() == 0
    && m.leader@.len() == 0
}

#[allow(non_snake_case)]
impl HeartbeatResponse {
    /// A message with every field zero, false or empty.
    pub fn new() -> (r: HeartbeatResponse)
        ensures
            empty_heartbeatresponse(r),
    {
        HeartbeatResponse {
            volumeSizeLimit: 0,
            secretKey: String::new(),
            leader: String::new(),
        }
    }

    /// Resets `volumeSizeLimit` to 0.
    pub fn clear_volumeSizeLimit(&mut self)
        ensures
            *final(self) == (HeartbeatResponse { volumeSizeLimit: 0, ..*old(self) }),
    {
        self.volumeSizeLimit = 0;
    }

    /// Sets `volumeSizeLimit`.
    pub fn set_volumeSizeLimit(&mut self, v: u64)
        ensures
            *final(self) == (HeartbeatResponse { volumeSizeLimit: v, ..*old(self) }),
    {
        self.volumeSizeLimit = v;
    }

    /// `volumeSizeLimit`.
    pub fn get_volumeSizeLimit(&self) -> (r: u64)
        ensures
            r == self.volumeSizeLimit,
    {
        self.volumeSizeLimit
    }

    /// Empties `secretKey`.
    pub fn clear_secretKey(&mut self)
        ensures
            final(self).secretKey@.len() == 0,
            *final(self) == (HeartbeatResponse { secretKey: final(self).secretKey, ..*old(self) }),
    {
        self.secretKey = String::new();
    }

    /// Sets `secretKey`.
    pub fn set_secretKey(&mut self, v: String)
        ensures
            *final(self) == (HeartbeatResponse { secretKey: v, ..*old(self) }),
    {
        self.secretKey = v;
    }

    /// `secretKey`, to change in place.
    pub fn mut_secretKey(&mut self) -> (r: &mut String)
        ensures
            *r == old(self).secretKey,
            *final(self) == (HeartbeatResponse { secretKey: *final(r), ..*old(self) }),
    {
        &mut self.secretKey
    }

    /// Takes `secretKey` out, leaving it empty.
    pub fn take_secretKey(&mut self) -> (r: String)
        ensures
            r == old(self).secretKey,
            final(self).secretKey@.len() == 0,
            *final(self) == (HeartbeatResponse { secretKey: final(self).secretKey, ..*old(self) }),
    {
        let mut s = String::new();
        std::mem::swap(&mut self.secretKey, &mut s);
        s
    }

    /// `secretKey`.
    pub fn get_secretKey(&self) -> (r: &str)
        ensures
            r@ == self.secretKey@,
    {
        self.secretKey.as_str()
    }

    /// Empties `leader`.
    pub fn clear_leader(&mut self)
        ensures
            final(self).leader@.len() == 0,
            *final(self) == (HeartbeatResponse { leader: final(self).leader, ..*old(self) }),
    {
        self.leader = String::new();
    }

    /// Sets `leader`.
    pub fn set_leader(&mut self, v: String)
        ensures
            *final(self) == (HeartbeatResponse { leader: v, ..*old(self) }),
    {
        self.leader = v;
    }

    /// `leader`, to change in place.
    pub fn mut_leader(&mut self) -> (r: &mut String)
        ensures
            *r == old(self).leader,
            *final(self) == (HeartbeatResponse { leader: *final(r), ..*old(self) }),
    {
        &mut self.leader
    }

    /// Takes `leader` out, leaving it empty.
    pub fn take_leader(&mut self) -> (r: String)
        ensures
            r == old(self).leader,
            final(self).leader@.len() == 0,
            *final(self) == (HeartbeatResponse { leader: final(self).leader, ..*old(self) }),
    {
        let mut s = String::new();
        std::mem::swap(&mut self.leader, &mut s);
        s
    }

    /// `leader`.
    pub fn get_leader(&self) -> (r: &str)
        ensures
            r@ == self.leader@,
    {
        self.leader.as_str()
    }

}

/// What a heartbeat says of one volume.
#[derive(Debug)]
pub struct VolumeInformationMessage {
    pub id: u32,
    pub size: u64,
    pub collection: String,
    pub file_count: u64,
    pub delete_count: u64,
    pub deleted_byte_count: u64,
    pub read_only: bool,
    pub replica_placement: u32,
    pub version: u32,
    pub ttl: u32,
}

/// A VolumeInformationMessage whose fields are all zero, false or empty.
pub open spec fn empty_volumeinformationmessage(m: VolumeInformationMessage) -> bool {
    m.id == 0
    && m.size == 0
    && m.collection@.len() == 0
    && m.file_count == 0
    && m.delete_count == 0
    && m.deleted_byte_count == 0
    && !m.read_only
    && m.replica_placement == 0
    && m.version == 0
    && m.ttl == 0
}

#[allow(non_snake_case)]
impl VolumeInformationMessage {
    /// A message with every field zero, false or empty.
    pub fn new() -> (r: VolumeInformationMessage)
        ensures
            empty_volumeinformationmessage(r),
    {
        VolumeInformationMessage {
            id: 0,
            size: 0,
            collection: String::new(),
            file_count: 0,
            delete_count: 0,
            deleted_byte_count: 0,
            read_only: false,
            replica_placement: 0,
            version: 0,
            ttl: 0,
        }
    }

    /// Resets `id` to 0.
    pub fn clear_id(&mut self)
        ensures
            *final(self) == (VolumeInformationMessage { id: 0, ..*old(self) }),
    {
        self.id = 0;
    }

    /// Sets `id`.
    pub fn set_id(&mut self, v: u32)
        ensures
            *final(self) == (VolumeInformationMessage { id: v, ..*old(self) }),
    {
        self.id = v;
    }

    /// `id`.
    pub fn get_id(&self) -> (r: u32)
        ensures
            r == self.id,
    {
        self.id
    }

    /// Resets `size` to 0.
    pub fn clear_size(&mut self)
        ensures
            *final(self) == (VolumeInformationMessage { size: 0, ..*old(self) }),
    {
        self.size = 0;
    }

    /// Sets `size`.
    pub fn set_size(&mut self, v: u64)
        ensures
            *final(self) == (VolumeInformationMessage { size: v, ..*old(self) }),
    {
        self.size = v;
    }

    /// `size`.
    pub fn get_size(&self) -> (r: u64)
        ensures
            r == self.size,
    {
        self.size
    }

    /// Empties `collection`.
    pub fn clear_collection(&mut self)
        ensures
            final(self).collection@.len() == 0,
            *final(self) == (VolumeInformationMessage { collection: final(self).collection, ..*old(self) }),
    {
        self.collection = String::new();
    }

    /// Sets `collection`.
    pub fn set_collection(&mut self, v: String)
        ensures
            *final(self) == (VolumeInformationMessage { collection: v, ..*old(self) }),
    {
        self.collection = v;
    }

    /// `collection`, to change in place.
    pub fn mut_collection(&mut self) -> (r: &mut String)
        ensures
            *r == old(self).collection,
            *final(self) == (VolumeInformationMessage { collection: *final(r), ..*old(self) }),
    {
        &mut self.collection
    }

    /// Takes `collection` out, leaving it empty.
    pub fn take_collection(&mut self) -> (r: String)
        ensures
            r == old(self).collection,
            final(self).collection@.len() == 0,
            *final(self) == (VolumeInformationMessage { collection: final(self).collection, ..*old(self) }),
    {
        let mut s = String::new();
        std::mem::swap(&mut self.collection, &mut s);
        s
    }

    /// `collection`.
    pub fn get_collection(&self) -> (r: &str)
        ensures
            r@ == self.collection@,
    {
        self.collection.as_str()
    }

    /// Resets `file_count` to 0.
    pub fn clear_file_count(&mut self)
        ensures
            *final(self) == (VolumeInformationMessage { file_count: 0, ..*old(self) }),
    {
        self.file_count = 0;
    }

    /// Sets `file_count`.
    pub fn set_file_count(&mut self, v: u64)
        ensures
            *final(self) == (VolumeInformationMessage { file_count: v, ..*old(self) }),
    {
        self.file_count = v;
    }

    /// `file_count`.
    pub fn get_file_count(&self) -> (r: u64)
        ensures
            r == self.file_count,
    {
        self.file_count
    }

    /// Resets `delete_count` to 0.
    pub fn clear_delete_count(&mut self)
        ensures
            *final(self) == (VolumeInformationMessage { delete_count: 0, ..*old(self) }),
    {
        self.delete_count = 0;
    }

    /// Sets `delete_count`.
    pub fn set_delete_count(&mut self, v: u64)
        ensures
            *final(self) == (VolumeInformationMessage { delete_count: v, ..*old(self) }),
    {
        self.delete_count = v;
    }

    /// `delete_count`.
    pub fn get_delete_count(&self) -> (r: u64)
        ensures
            r == self.delete_count,
    {
        self.delete_count
    }

    /// Resets `deleted_byte_count` to 0.
    pub fn clear_deleted_byte_count(&mut self)
        ensures
            *final(self) == (VolumeInformationMessage { deleted_byte_count: 0, ..*old(self) }),
    {
        self.deleted_byte_count = 0;
    }

    /// Sets `deleted_byte_count`.
    pub fn set_deleted_byte_count(&mut self, v: u64)
        ensures
            *final(self) == (VolumeInformationMessage { deleted_byte_count: v, ..*old(self) }),
    {
        self.deleted_byte_count = v;
    }

    /// `deleted_byte_count`.
    pub fn get_deleted_byte_count(&self) -> (r: u64)
        ensures
            r == self.deleted_byte_count,
    {
        self.deleted_byte_count
    }

    /// Resets `read_only` to false.
    pub fn clear_read_only(&mut self)
        ensures
            *final(self) == (VolumeInformationMessage { read_only: false, ..*old(self) }),
    {
        self.read_only = false;
    }

    /// Sets `read_only`.
    pub fn set_read_only(&mut self, v: bool)
        ensures
            *final(self) == (VolumeInformationMessage { read_only: v, ..*old(self) }),
    {
        self.read_only = v;
    }

    /// `read_only`.
    pub fn get_read_only(&self) -> (r: bool)
        ensures
            r == self.read_only,
    {
        self.read_only
    }

    /// Resets `replica_placement` to 0.
    pub fn clear_replica_placement(&mut self)
        ensures
            *final(self) == (VolumeInformationMessage { replica_placement: 0, ..*old(self) }),
    {
        self.replica_placement = 0;
    }

    /// Sets `replica_placement`.
    pub fn set_replica_placement(&mut self, v: u32)
        ensures
            *final(self) == (VolumeInformationMessage { replica_placement: v, ..*old(self) }),
    {
        self.replica_placement = v;
    }

    /// `replica_placement`.
    pub fn get_replica_placement(&self) -> (r: u32)
        ensures
            r == self.replica_placement,
    {
        self.replica_placement
    }

    /// Resets `version` to 0.
    pub fn clear_version(&mut self)
        ensures
            *final(self) == (VolumeInformationMessage { version: 0, ..*old(self) }),
    {
        self.version = 0;
    }

    /// Sets `version`.
    pub fn set_version(&mut self, v: u32)
        ensures
            *final(self) == (VolumeInformationMessage { version: v, ..*old(self) }),
    {
        self.version = v;
    }

    /// `version`.
    pub fn get_version(&self) -> (r: u32)
        ensures
            r == self.version,
    {
        self.version
    }

    /// Resets `ttl` to 0.
    pub fn clear_ttl(&mut self)
        ensures
            *final(self) == (VolumeInformationMessage { ttl: 0, ..*old(self) }),
    {
        self.ttl = 0;
    }

    /// Sets `ttl`.
    pub fn set_ttl(&mut self, v: u32)
        ensures
            *final(self) == (VolumeInformationMessage { ttl: v, ..*old(self) }),
    {
        self.ttl = v;
    }

    /// `ttl`.
    pub fn get_ttl(&self) -> (r: u32)
        ensures
            r == self.ttl,
    {
        self.ttl
    }

}

impl Clone for VolumeInformationMessage {
    fn clone(&self) -> (r: VolumeInformationMessage)
        ensures
            r == *self,
    {
        VolumeInformationMessage {
            id: self.id,
            size: self.size,
            collection: self.collection.clone(),
            file_count: self.file_count,
            delete_count: self.delete_count,
            deleted_byte_count: self.deleted_byte_count,
            read_only: self.read_only,
            replica_placement: self.replica_placement,
            version: self.version,
            ttl: self.ttl,
        }
    }
}

} // verus!
