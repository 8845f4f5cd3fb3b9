use vstd::prelude::*;

use crate::retention::CustomDuration;

verus! {

/// The settings of a backup: where the source subvolume and its snapshots
/// live locally, where the backups live remotely, the suffix that marks the
/// snapshots, and the retention policies on both sides.
pub struct Configuration {
    pub source_subvolume_path: String,
    pub snapshot_device: String,
    pub snapshot_subvolume_path: String,
    pub snapshot_path: String,
    pub snapshot_suffix: String,
    pub user_local: String,
    pub policy_local: Vec<CustomDuration>,
    pub config_ssh: ConfigurationSsh,
    pub backup_device: String,
    pub backup_subvolume_path: String,
    pub backup_path: String,
    pub policy_remote: Vec<CustomDuration>,
}

/// How the backup host is reached over SSH.
pub struct ConfigurationSsh {
    pub host: String,
    pub user: String,
    pub identity: String,
}

} // verus!
