//! Server configuration: which level to run and which appearances to
//! load.
//!
//! The file itself is read and parsed outside the replication core; what
//! stands here is the parsed configuration the server runs on.

use crate::components::AppearanceRecord;
use vstd::prelude::*;

verus! {

/// The server's whole configuration: the appearance catalog to load and
/// the level to run, its name carried as UTF-8 bytes.
pub struct ServerConfig {
    pub appearance_record: AppearanceRecord,
    pub level: Vec<u8>,
}

impl ServerConfig {
    pub fn new(appearance_record: AppearanceRecord, level: Vec<u8>) -> (r: ServerConfig)
        ensures
            r.appearance_record == appearance_record,
            r.level == level,
    {
        ServerConfig { appearance_record, level }
    }
}

} // verus!
