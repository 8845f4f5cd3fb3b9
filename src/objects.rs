use vstd::prelude::*;

verus! {

/// The 128-bit value of the UUID that `s` spells, in any form that the uuid
/// crate reads (simple, hyphenated, braced or URN); `None` where `s` is no
/// UUID.
pub uninterp spec fn uuid_value(s: Seq<char>) -> Option<u128>;

/// Relies on uuid's `Uuid::parse_str`, read as a number by `Uuid::as_u128`.
/// `parse_str` refuses every input whose length is not 32, 36, 38 or 45 ASCII
/// bytes, so a text of fewer than 32 characters is no UUID.
#[verifier::external_body]
pub(crate) fn parse_uuid(s: &str) -> (r: Option<u128>)
    ensures
        r == uuid_value(s@),
        s@.len() < 32 ==> r is None,
{
    uuid::Uuid::parse_str(s).ok().map(|u| u.as_u128())
}

/// A node of the filesystem's subvolume tree, as a listing reports it.
///
/// * `btrfs_path` - absolute path within the subvolume tree
/// * `uuid` - UUID of the subvolume
/// * `parent_uuid` - UUID of the subvolume it was snapshotted from
/// * `received_uuid` - UUID, on the sending side, of the subvolume it was received from
#[derive(Debug, Clone, PartialEq)]
pub struct Subvolume {
    pub btrfs_path: String,
    pub uuid: u128,
    pub parent_uuid: Option<u128>,
    pub received_uuid: Option<u128>,
}

impl Subvolume {
    /// A copy of this subvolume.
    pub fn copy(&self) -> (r: Subvolume)
        ensures
            r == *self,
    {
        Subvolume {
            btrfs_path: self.btrfs_path.clone(),
            uuid: self.uuid,
            parent_uuid: self.parent_uuid,
            received_uuid: self.received_uuid,
        }
    }
}

/// What a subvolume holds, with its path as characters.
pub struct SubvolumeView {
    pub btrfs_path: Seq<char>,
    pub uuid: u128,
    pub parent_uuid: Option<u128>,
    pub received_uuid: Option<u128>,
}

impl View for Subvolume {
    type V = SubvolumeView;

    open spec fn view(&self) -> SubvolumeView {
        SubvolumeView {
            btrfs_path: self.btrfs_path@,
            uuid: self.uuid,
            parent_uuid: self.parent_uuid,
            received_uuid: self.received_uuid,
        }
    }
}

/// A single subvolume found by a point lookup.
///
/// * `fs_path` - path through which the operating system reaches it
/// * `btrfs_path` - path within the subvolume tree
/// * `uuid` - UUID of the subvolume
#[derive(Debug, Clone, PartialEq)]
pub struct SubvolumeInfo {
    pub fs_path: String,
    pub btrfs_path: String,
    pub uuid: u128,
}

/// One mounted instance of a filesystem.
///
/// * `device` - device string
/// * `root` - path within the volume that the mount starts from
/// * `mount_point` - mount point
/// * `fs_type` - type of filesystem
/// * `properties` - mount options, each key once (see `well_formed`), with its value if it has one
#[derive(Debug, Clone, PartialEq)]
pub struct MountInformation {
    pub device: String,
    pub root: String,
    pub mount_point: String,
    pub fs_type: String,
    pub properties: Vec<(String, Option<String>)>,
}

} // verus!
