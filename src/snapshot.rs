use vstd::prelude::*;

use crate::naming::Timestamp;

verus! {

/// A snapshot that carries the instant and the suffix of its name.
pub trait Snapshot {
    spec fn spec_path(&self) -> Seq<char>;

    spec fn spec_timestamp(&self) -> Timestamp;

    spec fn spec_suffix(&self) -> Seq<char>;

    fn path(&self) -> (r: &str)
        ensures
            r@ == self.spec_path(),
    ;

    fn timestamp(&self) -> (r: &Timestamp)
        ensures
            *r == self.spec_timestamp(),
    ;

    fn suffix(&self) -> (r: &str)
        ensures
            r@ == self.spec_suffix(),
    ;
}

/// A local snapshot of a subvolume: `parent_uuid` is the UUID of the
/// subvolume it was taken from.
#[derive(Debug, Clone, PartialEq)]
pub struct SnapshotLocal {
    pub path: String,
    pub timestamp: Timestamp,
    pub uuid: u128,
    pub parent_uuid: u128,
    pub suffix: String,
}

/// A snapshot received on the backup side: `received_uuid` is the UUID of
/// the local snapshot it was sent from.
#[derive(Debug, Clone, PartialEq)]
pub struct SnapshotRemote {
    pub path: String,
    pub timestamp: Timestamp,
    pub uuid: u128,
    pub received_uuid: u128,
    pub suffix: String,
}

impl Snapshot for SnapshotLocal {
    open spec fn spec_path(&self) -> Seq<char> {
        self.path@
    }

    open spec fn spec_timestamp(&self) -> Timestamp {
        self.timestamp
    }

    open spec fn spec_suffix(&self) -> Seq<char> {
        self.suffix@
    }

    fn path(&self) -> (r: &str) {
        self.path.as_str()
    }

    fn timestamp(&self) -> (r: &Timestamp) {
        &self.timestamp
    }

    fn suffix(&self) -> (r: &str) {
        self.suffix.as_str()
    }
}

impl Snapshot for SnapshotRemote {
    open spec fn spec_path(&self) -> Seq<char> {
        self.path@
    }

    open spec fn spec_timestamp(&self) -> Timestamp {
        self.timestamp
    }

    open spec fn spec_suffix(&self) -> Seq<char> {
        self.suffix@
    }

    fn path(&self) -> (r: &str) {
        self.path.as_str()
    }

    fn timestamp(&self) -> (r: &Timestamp) {
        &self.timestamp
    }

    fn suffix(&self) -> (r: &str) {
        self.suffix.as_str()
    }
}

} // verus!
