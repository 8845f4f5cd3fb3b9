use vstd::prelude::*;

use crate::error::{BackupError, CustomError};
use crate::naming::{decode_snapshot_name, decoded_name};
use crate::objects::{Subvolume, SubvolumeView};
use crate::snapshot::{SnapshotLocal, SnapshotRemote};
use crate::subvolumes::subvolume_views;
use crate::text::same_text;

verus! {

/// Whether `s` is the local snapshot that the subvolume `v` is.
pub open spec fn local_snapshot_of(s: SnapshotLocal, v: SubvolumeView) -> bool {
    &&& s.path@ == v.btrfs_path
    &&& s.uuid == v.uuid
    &&& v.parent_uuid == Some(s.parent_uuid)
    &&& decoded_name(v.btrfs_path) == Some(((s.timestamp.seconds, s.timestamp.nanos), s.suffix@))
}

/// Whether `s` is the received snapshot that the subvolume `v` is.
pub open spec fn remote_snapshot_of(s: SnapshotRemote, v: SubvolumeView) -> bool {
    &&& s.path@ == v.btrfs_path
    &&& s.uuid == v.uuid
    &&& v.received_uuid == Some(s.received_uuid)
    &&& decoded_name(v.btrfs_path) == Some(((s.timestamp.seconds, s.timestamp.nanos), s.suffix@))
}

impl SnapshotLocal {
    /// The local snapshot that `value` is: its name must encode an instant
    /// and a suffix, and it must have a parent.
    pub fn try_from(value: &Subvolume) -> (r: Result<SnapshotLocal, CustomError>)
        ensures
            match r {
                Ok(s) => local_snapshot_of(s, value@),
                Err(e) => decoded_name(value.btrfs_path@) is None
                    || value.parent_uuid is None,
            },
    {
        let (timestamp, suffix) = decode_snapshot_name(value.btrfs_path.as_str())?;
        match value.parent_uuid {
            Some(parent_uuid) => Ok(
                SnapshotLocal {
                    path: value.btrfs_path.clone(),
                    timestamp,
                    uuid: value.uuid,
                    parent_uuid,
                    suffix,
                },
            ),
            None => Err(CustomError::SnapshotError(String::from_str("no uuid found for snapshot"))),
        }
    }
}

impl SnapshotRemote {
    /// The received snapshot that `value` is: its name must encode an
    /// instant and a suffix, and it must have been received.
    pub fn try_from(value: &Subvolume) -> (r: Result<SnapshotRemote, CustomError>)
        ensures
            match r {
                Ok(s) => remote_snapshot_of(s, value@),
                Err(e) => decoded_name(value.btrfs_path@) is None
                    || value.received_uuid is None,
            },
    {
        let (timestamp, suffix) = decode_snapshot_name(value.btrfs_path.as_str())?;
        match value.received_uuid {
            Some(received_uuid) => Ok(
                SnapshotRemote {
                    path: value.btrfs_path.clone(),
                    timestamp,
                    uuid: value.uuid,
                    received_uuid,
                    suffix,
                },
            ),
            None => Err(CustomError::SnapshotError(String::from_str("no uuid found for snapshot"))),
        }
    }
}

/// The position of the first subvolume of `svs` at `path`.
pub open spec fn first_at_path(svs: Seq<SubvolumeView>, path: Seq<char>) -> Option<int>
    decreases svs.len(),
{
    if svs.len() == 0 {
        None
    } else {
        match first_at_path(svs.drop_last(), path) {
            Some(k) => Some(k),
            None => if svs.last().btrfs_path == path {
                Some(svs.len() - 1)
            } else {
                None
            },
        }
    }
}

/// The first subvolume of `subvolumes` whose path is `path`.
pub fn get_subvolume_by_path<'a>(path: &str, subvolumes: &'a Vec<Subvolume>) -> (r: Result<
    &'a Subvolume,
    BackupError,
>)
    ensures
        match first_at_path(subvolume_views(subvolumes@), path@) {
            Some(k) => r matches Ok(s) && 0 <= k < subvolumes@.len() && *s == subvolumes@[k],
            None => r matches Err(e) && e is NotFound,
        },
{
    let ghost sv = subvolume_views(subvolumes@);
    let mut i: usize = 0;
    assert(sv.take(0) =~= Seq::<SubvolumeView>::empty());
    while i < subvolumes.len()
        invariant
            sv == subvolume_views(subvolumes@),
            i <= sv.len(),
            first_at_path(sv.take(i as int), path@) is None,
        decreases sv.len() - i,
    {
        let ghost next = sv.take(i + 1);
        assert(next.drop_last() =~= sv.take(i as int));
        if same_text(subvolumes[i].btrfs_path.as_str(), path) {
            proof {
                assert(next.last() == sv[i as int]);
                lemma_first_at_path_stays(sv, path@, i + 1);
            }
            return Ok(&subvolumes[i]);
        }
        i = i + 1;
    }
    assert(sv.take(i as int) =~= sv);
    Err(BackupError::NotFound(String::from_str("subvolume to be backed up not found")))
}

proof fn lemma_first_at_path_stays(svs: Seq<SubvolumeView>, path: Seq<char>, n: int)
    requires
        0 <= n <= svs.len(),
        first_at_path(svs.take(n), path) is Some,
    ensures
        first_at_path(svs, path) == first_at_path(svs.take(n), path),
    decreases svs.len() - n,
{
    if n < svs.len() {
        assert(svs.take(n + 1).drop_last() =~= svs.take(n));
        lemma_first_at_path_stays(svs, path, n + 1);
    } else {
        assert(svs.take(n) =~= svs);
    }
}

/// The subvolumes of `svs` that were snapshotted from the subvolume `parent`.
pub open spec fn children_of(svs: Seq<SubvolumeView>, parent: u128) -> Seq<SubvolumeView>
    decreases svs.len(),
{
    if svs.len() == 0 {
        Seq::empty()
    } else {
        let c = children_of(svs.drop_last(), parent);
        if svs.last().parent_uuid == Some(parent) {
            c.push(svs.last())
        } else {
            c
        }
    }
}

/// The subvolumes of `svs` that were received.
pub open spec fn received_of(svs: Seq<SubvolumeView>) -> Seq<SubvolumeView>
    decreases svs.len(),
{
    if svs.len() == 0 {
        Seq::empty()
    } else {
        let c = received_of(svs.drop_last());
        if svs.last().received_uuid is Some {
            c.push(svs.last())
        } else {
            c
        }
    }
}

/// The snapshots of `subvolume` among `subvolumes`, in order, as local
/// snapshots; fails where the name of one of them does not encode an instant
/// and a suffix.
pub fn get_local_snapshots(subvolume: &Subvolume, subvolumes: &Vec<Subvolume>) -> (r: Result<
    Vec<SnapshotLocal>,
    CustomError,
>)
    ensures
        match r {
            Ok(v) => {
                let c = children_of(subvolume_views(subvolumes@), subvolume.uuid);
                &&& v@.len() == c.len()
                &&& forall|k: int| 0 <= k < c.len() ==> local_snapshot_of(#[trigger] v@[k], c[k])
            },
            Err(_) => exists|k: int|
                0 <= k < children_of(subvolume_views(subvolumes@), subvolume.uuid).len()
                    && decoded_name(
                    (#[trigger] children_of(subvolume_views(subvolumes@), subvolume.uuid)[k]).btrfs_path,
                ) is None,
        },
{
    let ghost sv = subvolume_views(subvolumes@);
    let mut out: Vec<SnapshotLocal> = Vec::new();
    let mut i: usize = 0;
    assert(sv.take(0) =~= Seq::<SubvolumeView>::empty());
    while i < subvolumes.len()
        invariant
            sv == subvolume_views(subvolumes@),
            i <= sv.len(),
            out@.len() == children_of(sv.take(i as int), subvolume.uuid).len(),
            forall|k: int|
                0 <= k < out@.len() ==> local_snapshot_of(
                    #[trigger] out@[k],
                    children_of(sv.take(i as int), subvolume.uuid)[k],
                ),
        decreases sv.len() - i,
    {
        let ghost prev = sv.take(i as int);
        let ghost next = sv.take(i + 1);
        assert(next.drop_last() =~= prev);
        assert(next.last() == sv[i as int]);
        let s = &subvolumes[i];
        let is_child = match s.parent_uuid {
            Some(p) => p == subvolume.uuid,
            None => false,
        };
        if is_child {
            match SnapshotLocal::try_from(s) {
                Ok(snapshot) => {
                    out.push(snapshot);
                },
                Err(e) => {
                    proof {
                        lemma_children_grow(sv, subvolume.uuid, i + 1);
                        let k = children_of(prev, subvolume.uuid).len() as int;
                        assert(children_of(next, subvolume.uuid)[k] == sv[i as int]);
                        assert(children_of(sv, subvolume.uuid)[k] == sv[i as int]);
                    }
                    return Err(e);
                },
            }
        }
        i = i + 1;
    }
    assert(sv.take(i as int) =~= sv);
    Ok(out)
}

proof fn lemma_children_grow(svs: Seq<SubvolumeView>, parent: u128, n: int)
    requires
        0 <= n <= svs.len(),
    ensures
        children_of(svs, parent).len() >= children_of(svs.take(n), parent).len(),
        forall|k: int|
            0 <= k < children_of(svs.take(n), parent).len() ==> children_of(svs, parent)[k]
                == #[trigger] children_of(svs.take(n), parent)[k],
    decreases svs.len() - n,
{
    if n < svs.len() {
        assert(svs.take(n + 1).drop_last() =~= svs.take(n));
        lemma_children_grow(svs, parent, n + 1);
        assert forall|k: int| 0 <= k < children_of(svs.take(n), parent).len() implies children_of(svs.take(n + 1), parent)[k] == children_of(svs.take(n), parent)[k] by {}
    } else {
        assert(svs.take(n) =~= svs);
    }
}

proof fn lemma_received_grow(svs: Seq<SubvolumeView>, n: int)
    requires
        0 <= n <= svs.len(),
    ensures
        received_of(svs).len() >= received_of(svs.take(n)).len(),
        forall|k: int|
            0 <= k < received_of(svs.take(n)).len() ==> received_of(svs)[k]
                == #[trigger] received_of(svs.take(n))[k],
    decreases svs.len() - n,
{
    if n < svs.len() {
        assert(svs.take(n + 1).drop_last() =~= svs.take(n));
        lemma_received_grow(svs, n + 1);
        assert forall|k: int| 0 <= k < received_of(svs.take(n)).len() implies received_of(svs.take(n + 1))[k] == received_of(svs.take(n))[k] by {}
    } else {
        assert(svs.take(n) =~= svs);
    }
}

/// The received subvolumes among `subvolumes`, in order, as received
/// snapshots; fails where the name of one of them does not encode an instant
/// and a suffix.
pub fn get_remote_snapshots(subvolumes: &Vec<Subvolume>) -> (r: Result<
    Vec<SnapshotRemote>,
    CustomError,
>)
    ensures
        match r {
            Ok(v) => {
                let c = received_of(subvolume_views(subvolumes@));
                &&& v@.len() == c.len()
                &&& forall|k: int| 0 <= k < c.len() ==> remote_snapshot_of(#[trigger] v@[k], c[k])
            },
            Err(_) => exists|k: int|
                0 <= k < received_of(subvolume_views(subvolumes@)).len() && decoded_name(
                    (#[trigger] received_of(subvolume_views(subvolumes@))[k]).btrfs_path,
                ) is None,
        },
{
    let ghost sv = subvolume_views(subvolumes@);
    let mut out: Vec<SnapshotRemote> = Vec::new();
    let mut i: usize = 0;
    assert(sv.take(0) =~= Seq::<SubvolumeView>::empty());
    while i < subvolumes.len()
        invariant
            sv == subvolume_views(subvolumes@),
            i <= sv.len(),
            out@.len() == received_of(sv.take(i as int)).len(),
            forall|k: int|
                0 <= k < out@.len() ==> remote_snapshot_of(
                    #[trigger] out@[k],
                    received_of(sv.take(i as int))[k],
                ),
        decreases sv.len() - i,
    {
        let ghost prev = sv.take(i as int);
        let ghost next = sv.take(i + 1);
        assert(next.drop_last() =~= prev);
        assert(next.last() == sv[i as int]);
        let s = &subvolumes[i];
        if s.received_uuid.is_some() {
            match SnapshotRemote::try_from(s) {
                Ok(snapshot) => {
                    out.push(snapshot);
                },
                Err(e) => {
                    proof {
                        lemma_received_grow(sv, i + 1);
                        let k = received_of(prev).len() as int;
                        assert(received_of(next)[k] == sv[i as int]);
                        assert(received_of(sv)[k] == sv[i as int]);
                    }
                    return Err(e);
                },
            }
        }
        i = i + 1;
    }
    assert(sv.take(i as int) =~= sv);
    Ok(out)
}

/// The position of the last snapshot of `local` with UUID `u`.
pub open spec fn last_local_with_uuid(local: Seq<SnapshotLocal>, u: u128) -> Option<int>
    decreases local.len(),
{
    if local.len() == 0 {
        None
    } else if local.last().uuid == u {
        Some(local.len() - 1)
    } else {
        last_local_with_uuid(local.drop_last(), u)
    }
}

/// The position in `local` of the snapshot that the last of `remote` received
/// from a snapshot still in `local` was received from.
pub open spec fn last_common_snapshot(local: Seq<SnapshotLocal>, remote: Seq<SnapshotRemote>) -> Option<
    int,
>
    decreases remote.len(),
{
    if remote.len() == 0 {
        None
    } else {
        match last_local_with_uuid(local, remote.last().received_uuid) {
            Some(j) => Some(j),
            None => last_common_snapshot(local, remote.drop_last()),
        }
    }
}

/// Finds the last snapshot of `local` with UUID `u`.
fn find_local(local: &Vec<SnapshotLocal>, u: u128) -> (r: Option<usize>)
    ensures
        match r {
            Some(j) => j < local@.len() && last_local_with_uuid(local@, u) == Some(j as int),
            None => last_local_with_uuid(local@, u) is None,
        },
{
    let mut j: usize = local.len();
    let ghost lv = local@;
    assert(lv.take(j as int) =~= lv);
    while j > 0
        invariant
            lv == local@,
            j <= lv.len(),
            last_local_with_uuid(lv, u) == last_local_with_uuid(lv.take(j as int), u),
        decreases j,
    {
        assert(lv.take(j as int).drop_last() =~= lv.take(j - 1));
        if local[j - 1].uuid == u {
            assert(lv.take(j as int).last() == lv[j - 1]);
            return Some(j - 1);
        }
        j = j - 1;
    }
    assert(lv.take(0) =~= Seq::<SnapshotLocal>::empty());
    None
}

/// The newest local snapshot that was received on the remote side and is
/// still there locally: the one that the last snapshot of `snapshots_remote`
/// that was received from one of `snapshots_local` names.
pub fn get_common_parent<'a>(
    snapshots_local: &'a Vec<SnapshotLocal>,
    snapshots_remote: &Vec<SnapshotRemote>,
) -> (r: Option<&'a SnapshotLocal>)
    ensures
        match last_common_snapshot(snapshots_local@, snapshots_remote@) {
            None => r is None,
            Some(j) => r matches Some(s) && 0 <= j < snapshots_local@.len() && *s
                == snapshots_local@[j],
        },
{
    let mut k: usize = snapshots_remote.len();
    let ghost rv = snapshots_remote@;
    assert(rv.take(k as int) =~= rv);
    while k > 0
        invariant
            rv == snapshots_remote@,
            k <= rv.len(),
            last_common_snapshot(snapshots_local@, rv) == last_common_snapshot(
                snapshots_local@,
                rv.take(k as int),
            ),
        decreases k,
    {
        let ghost cur = rv.take(k as int);
        assert(cur.drop_last() =~= rv.take(k - 1));
        assert(cur.last() == rv[k - 1]);
        let u = snapshots_remote[k - 1].received_uuid;
        if let Some(j) = find_local(snapshots_local, u) {
            return Some(&snapshots_local[j]);
        }
        k = k - 1;
    }
    assert(rv.take(0) =~= Seq::<SnapshotRemote>::empty());
    None
}

} // verus!
