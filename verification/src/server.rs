//! Server startup configuration: the listen address, the snapshot
//! directory, the shard count fixed for the process lifetime, and the
//! snapshot ticker's period.

use vstd::prelude::*;

verus! {

/// Validated startup configuration.
#[derive(Debug)]
pub struct Config {
    pub addr: String,
    pub snapshot_dir: String,
    pub shards: usize,
    pub snapshot_interval_secs: u64,
}

impl Config {
    /// Validates the startup parameters: the snapshot directory must not be
    /// empty, and the snapshot interval and shard count must be positive.
    /// Exactly the first failing check names the error.
    pub fn new(addr: String, snapshot_dir: String, shards: usize, snapshot_interval_secs: u64) -> (r: Result<Config, String>)
        ensures
            r is Ok <==> snapshot_dir@.len() > 0 && snapshot_interval_secs != 0 && shards != 0,
            r matches Ok(c) ==> c.addr@ == addr@ && c.snapshot_dir@ == snapshot_dir@ && c.shards
                == shards && c.snapshot_interval_secs == snapshot_interval_secs,
            r matches Err(m) ==> m@ == (if snapshot_dir@.len() == 0 {
                "Snapshot directory cannot be empty"@
            } else if snapshot_interval_secs == 0 {
                "Snapshot interval cannot be 0"@
            } else {
                "Shard count cannot be 0"@
            }),
    {
        if snapshot_dir.as_str().is_empty() {
            return Err("Snapshot directory cannot be empty".to_owned());
        }
        if snapshot_interval_secs == 0 {
            return Err("Snapshot interval cannot be 0".to_owned());
        }
        if shards == 0 {
            return Err("Shard count cannot be 0".to_owned());
        }
        Ok(Config { addr, snapshot_dir, shards, snapshot_interval_secs })
    }
}

} // verus!
