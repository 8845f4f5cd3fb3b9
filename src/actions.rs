use vstd::prelude::*;

use crate::btrfs::{gives_info, link_paths, snapshot_target, Btrfs};
use crate::command::{
    delete_text, lemma_one_more_keeps, list_text, mount_command, mount_text, one_more,
    readlink_text, receive_text, restricted,
    send_text, show_text, snapshot_text, Context, Exchange, LoggedCommand,
};
use crate::info::info_of;
use crate::naming::{EARLIEST_SECONDS, LATEST_SECONDS};
use crate::subvolumes::listing_of;
use crate::text::trim;
use crate::error::BackupError;
use crate::mount::{mount_listing_of, mount_views, parse_mount_information, resolved_path, MountView};
use crate::naming::{decode_snapshot_name, decoded_name, Timestamp};
use crate::objects::{MountInformation, Subvolume, SubvolumeInfo, SubvolumeView};
use crate::parent::common_parent;
use crate::retention::{
    newest_first, retention_walk,
    backups_to_delete, find_backups_to_be_deleted, policy_representable, policy_seconds,
    CustomDuration,
};
use crate::snapshot::Snapshot;
use crate::subvolumes::subvolume_views;
use crate::text::{same_text, views};
use crate::utils::children_of;

verus! {

/// The steps of a backup cycle, run through `commander`.
pub struct ActionsSystem<C: LoggedCommand> {
    pub commander: Btrfs<C>,
}

/// A subvolume whose name encodes an instant and a suffix.
pub struct DatedSubvolume {
    pub subvolume: Subvolume,
    pub timestamp: Timestamp,
    pub suffix: String,
}

impl Snapshot for DatedSubvolume {
    open spec fn spec_path(&self) -> Seq<char> {
        self.subvolume.btrfs_path@
    }

    open spec fn spec_timestamp(&self) -> Timestamp {
        self.timestamp
    }

    open spec fn spec_suffix(&self) -> Seq<char> {
        self.suffix@
    }

    fn path(&self) -> (r: &str) {
        self.subvolume.btrfs_path.as_str()
    }

    fn timestamp(&self) -> (r: &Timestamp) {
        &self.timestamp
    }

    fn suffix(&self) -> (r: &str) {
        self.suffix.as_str()
    }
}

/// Whether `dated` are the subvolumes of `svs` whose names encode an instant
/// and the suffix `suffix`, in order, each with that instant.
pub open spec fn dated_subvolumes(
    dated: Seq<DatedSubvolume>,
    svs: Seq<Subvolume>,
    suffix: Seq<char>,
) -> bool
    decreases svs.len(),
{
    if svs.len() == 0 {
        dated.len() == 0
    } else {
        match decoded_name(svs.last().btrfs_path@) {
            Some((t, s)) => if s == suffix {
                &&& dated.len() > 0
                &&& dated.last().subvolume == svs.last()
                &&& dated.last().timestamp == Timestamp { seconds: t.0, nanos: t.1 }
                &&& dated.last().suffix@ == suffix
                &&& dated_subvolumes(dated.drop_last(), svs.drop_last(), suffix)
            } else {
                dated_subvolumes(dated, svs.drop_last(), suffix)
            },
            None => dated_subvolumes(dated, svs.drop_last(), suffix),
        }
    }
}

/// Whether the subvolume `sv` is the snapshot `latest` or was received from it.
pub open spec fn is_latest(sv: Subvolume, latest: SubvolumeInfo) -> bool {
    sv.uuid == latest.uuid || sv.received_uuid == Some(latest.uuid)
}

/// The operating-system paths of the subvolumes of `ds` other than `latest`,
/// in order; `None` where one of them cannot be resolved.
pub open spec fn paths_to_delete(
    ds: Seq<DatedSubvolume>,
    latest: SubvolumeInfo,
    ms: Seq<MountView>,
    device: Seq<char>,
) -> Option<Seq<Seq<char>>>
    decreases ds.len(),
{
    if ds.len() == 0 {
        Some(Seq::empty())
    } else {
        match paths_to_delete(ds.drop_last(), latest, ms, device) {
            None => None,
            Some(ps) => if is_latest(ds.last().subvolume, latest) {
                Some(ps)
            } else {
                match resolved_path(ms, device, ds.last().subvolume.btrfs_path@) {
                    None => None,
                    Some(p) => Some(ps.push(p)),
                }
            },
        }
    }
}

/// The subvolumes of `subvolumes` whose names encode an instant and the
/// suffix `suffix`.
fn dated_of(subvolumes: &Vec<Subvolume>, suffix: &str) -> (r: Vec<DatedSubvolume>)
    ensures
        dated_subvolumes(r@, subvolumes@, suffix@),
{
    let mut out: Vec<DatedSubvolume> = Vec::new();
    let mut i: usize = 0;
    assert(subvolumes@.take(0) =~= Seq::<Subvolume>::empty());
    while i < subvolumes.len()
        invariant
            i <= subvolumes@.len(),
            dated_subvolumes(out@, subvolumes@.take(i as int), suffix@),
        decreases subvolumes@.len() - i,
    {
        let ghost next = subvolumes@.take(i + 1);
        assert(next.drop_last() =~= subvolumes@.take(i as int));
        assert(next.last() == subvolumes@[i as int]);
        let sv = &subvolumes[i];
        match decode_snapshot_name(sv.btrfs_path.as_str()) {
            Ok((timestamp, s)) => {
                if same_text(s.as_str(), suffix) {
                    let ghost before = out@;
                    out.push(DatedSubvolume { subvolume: sv.copy(), timestamp, suffix: s });
                    assert(out@.drop_last() =~= before);
                }
            },
            Err(_) => {},
        }
        i = i + 1;
    }
    assert(subvolumes@.take(i as int) =~= subvolumes@);
    out
}

/// The parent for an incremental send that the local listing `local`, the
/// UUID `parent_uuid` of the source subvolume, the remote listing `remote`
/// and the mounts `ms` of `device` give: `Some(None)` where there is no
/// common parent, `Some(Some((btrfs path, operating-system path, UUID)))`
/// where there is one, and `None` where its path cannot be resolved.
pub open spec fn parent_choice(
    local: Seq<SubvolumeView>,
    parent_uuid: u128,
    remote: Seq<SubvolumeView>,
    ms: Seq<MountView>,
    device: Seq<char>,
) -> Option<Option<(Seq<char>, Seq<char>, u128)>> {
    let c = children_of(local, parent_uuid);
    match common_parent(c, remote) {
        None => Some(None),
        Some(j) => match resolved_path(ms, device, c[j].btrfs_path) {
            None => None,
            Some(p) => Some(Some((c[j].btrfs_path, p, c[j].uuid))),
        },
    }
}

/// The parent choice that the exchanges of `g` from position `n` on give:
/// the point lookup of the source subvolume, then the local and the remote
/// listing.
pub open spec fn logged_parent_choice(
    g: Seq<Exchange>,
    n: int,
    ms: Seq<MountView>,
    device: Seq<char>,
) -> Option<Option<(Seq<char>, Seq<char>, u128)>> {
    parent_choice(
        listing_of(g[n + 1].output->Some_0)->Some_0,
        info_of(g[n].output->Some_0)->Some_0.1,
        listing_of(g[n + 2].output->Some_0)->Some_0,
        ms,
        device,
    )
}

/// The fields of an optional subvolume found by a point lookup.
pub open spec fn info_view(o: Option<SubvolumeInfo>) -> Option<(Seq<char>, Seq<char>, u128)> {
    match o {
        Some(i) => Some((i.btrfs_path@, i.fs_path@, i.uuid)),
        None => None,
    }
}

/// Whether no name of the subvolumes `vs` encodes an instant and `suffix`.
pub open spec fn none_carries(vs: Seq<SubvolumeView>, suffix: Seq<char>) -> bool {
    forall|k: int| 0 <= k < vs.len() ==> !carries_suffix(#[trigger] vs[k], suffix)
}

/// Whether the name of the subvolume `v` encodes an instant and `suffix`.
pub open spec fn carries_suffix(v: SubvolumeView, suffix: Seq<char>) -> bool {
    decoded_name(v.btrfs_path) matches Some((_, s)) && s == suffix
}

/// Whether `paths` are the operating-system paths that a policing pass over
/// `svs` deletes (see `snapshots_to_delete`).
pub open spec fn deletion_plan(
    svs: Seq<Subvolume>,
    latest: SubvolumeInfo,
    policy: Seq<CustomDuration>,
    timestamp: Timestamp,
    suffix: Seq<char>,
    device: Seq<char>,
    ms: Seq<MountView>,
    paths: Seq<Seq<char>>,
) -> bool {
    &&& policy_representable(policy)
    &&& exists|dated: Seq<DatedSubvolume>|
        #[trigger] dated_subvolumes(dated, svs, suffix) && paths_to_delete(
            backups_to_delete(timestamp, policy_seconds(policy), dated, suffix),
            latest,
            ms,
            device,
        ) == Some(paths)
}

proof fn lemma_no_suffix_no_dated(dated: Seq<DatedSubvolume>, svs: Seq<Subvolume>, suffix: Seq<char>)
    requires
        dated_subvolumes(dated, svs, suffix),
        forall|k: int| 0 <= k < svs.len() ==> !carries_suffix(#[trigger] svs[k]@, suffix),
    ensures
        dated.len() == 0,
    decreases svs.len(),
{
    if svs.len() > 0 {
        let prev = svs.drop_last();
        assert(svs.last() == svs[svs.len() - 1]);
        assert(!carries_suffix(svs[svs.len() - 1]@, suffix));
        assert forall|k: int| 0 <= k < prev.len() implies !carries_suffix(#[trigger] prev[k]@, suffix) by {
            assert(prev[k] == svs[k]);
        }
        lemma_no_suffix_no_dated(dated, prev, suffix);
    }
}

/// Whether the exchanges of `g` from position `at` on are, for each path of
/// `paths` in turn, its resolution by `readlink -f` and the deletion of the
/// canonical path that came back, all in `context`, and nothing else.
pub open spec fn deletes_each(g: Seq<Exchange>, at: int, paths: Seq<Seq<char>>, context: Context) -> bool {
    &&& g.len() == at + 2 * paths.len()
    &&& forall|i: int|
        0 <= i < paths.len() ==> {
            &&& (#[trigger] g[at + 2 * i]).commands == seq![(readlink_text(paths[i]), context)]
            &&& g[at + 2 * i].output is Some
            &&& g[at + 2 * i + 1].commands == seq![
                (delete_text(link_paths(paths[i], trim(g[at + 2 * i].output->Some_0)).last()), context),
            ]
            &&& g[at + 2 * i + 1].output is Some
        }
}

/// Whether the policing of `svs` fails because a path to delete cannot be
/// resolved.
pub open spec fn plan_fails(
    svs: Seq<Subvolume>,
    latest: SubvolumeInfo,
    policy: Seq<CustomDuration>,
    timestamp: Timestamp,
    suffix: Seq<char>,
    device: Seq<char>,
    ms: Seq<MountView>,
) -> bool {
    &&& policy_representable(policy)
    &&& exists|dated: Seq<DatedSubvolume>|
        #[trigger] dated_subvolumes(dated, svs, suffix) && paths_to_delete(
            backups_to_delete(timestamp, policy_seconds(policy), dated, suffix),
            latest,
            ms,
            device,
        ) is None
}

/// What a policing pass over the listed subvolumes `svs`, whose exchanges
/// after the listing at position `n` of `g` are the rest of `g`, does and
/// returns: either a path to delete cannot be resolved, nothing more is run
/// and the pass fails; or the exchanges begin the deletion of the planned
/// paths, and the pass succeeds exactly when all of them were deleted.
pub open spec fn police_outcome(
    svs: Seq<Subvolume>,
    latest: SubvolumeInfo,
    policy: Seq<CustomDuration>,
    timestamp: Timestamp,
    suffix: Seq<char>,
    device: Seq<char>,
    ms: Seq<MountView>,
    g: Seq<Exchange>,
    n: int,
    context: Context,
    r: Result<(), BackupError>,
) -> bool {
    ||| (plan_fails(svs, latest, policy, timestamp, suffix, device, ms) && r == Err::<
        (),
        BackupError,
    >(BackupError::PathConversionError) && g.len() == n + 1)
    ||| exists|paths: Seq<Seq<char>>|
        #[trigger] deletion_plan(svs, latest, policy, timestamp, suffix, device, ms, paths)
            && deletes_upto(g, n + 1, paths, context) && (r is Ok <==> deletes_each(
            g,
            n + 1,
            paths,
            context,
        ))
}

/// Whether the exchanges of `g` from position `at` on are a beginning of
/// what `deletes_each` describes: for each path in turn its resolution, then
/// the deletion of the canonical path, each step only after the one before
/// succeeded.
pub open spec fn deletes_upto(g: Seq<Exchange>, at: int, paths: Seq<Seq<char>>, context: Context) -> bool {
    &&& at <= g.len() <= at + 2 * paths.len()
    &&& forall|i: int|
        0 <= i < paths.len() && at + 2 * i < g.len() ==> (#[trigger] g[at + 2 * i]).commands
            == seq![(readlink_text(paths[i]), context)]
    &&& forall|i: int|
        0 <= i < paths.len() && at + 2 * i + 1 < g.len() ==> g[at + 2 * i].output is Some && (
        #[trigger] g[at + 2 * i + 1]).commands == seq![
            (delete_text(link_paths(paths[i], trim(g[at + 2 * i].output->Some_0)).last()), context),
        ]
    &&& forall|k: int| at <= k < g.len() - 1 ==> (#[trigger] g[k]).output is Some
}

/// The deletions so far, with one more step begun: the resolution of the
/// next path (`extra` is 1), or it and the deletion (`extra` is 2).
proof fn lemma_deletes_upto_extend(
    g0: Seq<Exchange>,
    g: Seq<Exchange>,
    at: int,
    paths: Seq<Seq<char>>,
    i: int,
    extra: int,
    context: Context,
)
    requires
        0 <= at,
        0 <= i <= paths.len(),
        deletes_each(g0, at, paths.take(i), context),
        g.take(g0.len() as int) == g0,
        g.len() == g0.len() + extra,
        0 <= extra <= 2,
        extra == 0 || i < paths.len(),
        extra >= 1 ==> g[g0.len() as int].commands == seq![(readlink_text(paths[i]), context)],
        extra == 2 ==> g[g0.len() as int].output is Some && g[g0.len() as int + 1].commands
            == seq![
            (delete_text(link_paths(paths[i], trim(g[g0.len() as int].output->Some_0)).last()), context),
        ],
    ensures
        deletes_upto(g, at, paths, context),
{
    let m = g0.len() as int;
    assert forall|k: int| 0 <= k < m implies g[k] == g0[k] by {
        assert(g.take(m)[k] == g[k]);
    }
    assert forall|j: int| 0 <= j < i implies paths.take(i)[j] == paths[j] by {}
    assert forall|j: int|
        0 <= j < paths.len() && at + 2 * j < g.len() implies (#[trigger] g[at + 2 * j]).commands
        == seq![(readlink_text(paths[j]), context)] by {
        if j < i {
            assert(g0[at + 2 * j].commands == seq![(readlink_text(paths.take(i)[j]), context)]);
        }
    }
    assert forall|j: int|
        0 <= j < paths.len() && at + 2 * j + 1 < g.len() implies g[at + 2 * j].output is Some && (
        #[trigger] g[at + 2 * j + 1]).commands == seq![
            (delete_text(link_paths(paths[j], trim(g[at + 2 * j].output->Some_0)).last()), context),
        ] by {
        if j < i {
            assert(g0[at + 2 * j].commands == seq![(readlink_text(paths.take(i)[j]), context)]);
        }
    }
    assert forall|k: int| at <= k < g.len() - 1 implies (#[trigger] g[k]).output is Some by {
        if k < m {
            let j = (k - at) / 2;
            if (k - at) % 2 == 0 {
                assert(k == at + 2 * j);
                assert(g0[at + 2 * j].output is Some);
            } else {
                assert(k == at + 2 * j + 1);
                assert(g0[at + 2 * j + 1].output is Some);
            }
        }
    }
}

proof fn lemma_deletes_each_grows(
    g0: Seq<Exchange>,
    g2: Seq<Exchange>,
    at: int,
    paths: Seq<Seq<char>>,
    p: Seq<char>,
    context: Context,
)
    requires
        0 <= at,
        deletes_each(g0, at, paths, context),
        g2.len() == g0.len() + 2,
        g2.take(g0.len() as int) == g0,
        g2[g0.len() as int].commands == seq![(readlink_text(p), context)],
        g2[g0.len() as int].output is Some,
        g2[g0.len() as int + 1].commands == seq![
            (delete_text(link_paths(p, trim(g2[g0.len() as int].output->Some_0)).last()), context),
        ],
        g2[g0.len() as int + 1].output is Some,
    ensures
        deletes_each(g2, at, paths.push(p), context),
{
    let q = paths.push(p);
    assert forall|i: int| 0 <= i < q.len() implies {
        &&& (#[trigger] g2[at + 2 * i]).commands == seq![(readlink_text(q[i]), context)]
        &&& g2[at + 2 * i].output is Some
        &&& g2[at + 2 * i + 1].commands == seq![
            (delete_text(link_paths(q[i], trim(g2[at + 2 * i].output->Some_0)).last()), context),
        ]
        &&& g2[at + 2 * i + 1].output is Some
    } by {
        if i < paths.len() {
            assert(g2[at + 2 * i] == g0[at + 2 * i]);
            assert(g2[at + 2 * i + 1] == g0[at + 2 * i + 1]);
            assert(g0[at + 2 * i] == g0[at + 2 * i]);
        }
    }
}

/// Once a prefix fails to resolve, the whole list fails.
proof fn lemma_paths_error_stays(
    ds: Seq<DatedSubvolume>,
    latest: SubvolumeInfo,
    ms: Seq<MountView>,
    device: Seq<char>,
    n: int,
)
    requires
        0 <= n <= ds.len(),
        paths_to_delete(ds.take(n), latest, ms, device) is None,
    ensures
        paths_to_delete(ds, latest, ms, device) is None,
    decreases ds.len() - n,
{
    if n < ds.len() {
        assert(ds.take(n + 1).drop_last() =~= ds.take(n));
        lemma_paths_error_stays(ds, latest, ms, device, n + 1);
    } else {
        assert(ds.take(n) =~= ds);
    }
}

impl<C: LoggedCommand> ActionsSystem<C> {
    /// The operating-system paths of the snapshots among `subvolumes` that a
    /// policing pass deletes: those whose names encode an instant and
    /// `suffix` are pruned under `policy` at `timestamp`, the snapshot
    /// `latest_local_snapshot` (or one received from it) is spared, and each
    /// of the others is resolved through `mount_information` on `device`.
    pub fn snapshots_to_delete(
        subvolumes: &Vec<Subvolume>,
        latest_local_snapshot: &SubvolumeInfo,
        policy: &Vec<CustomDuration>,
        timestamp: &Timestamp,
        suffix: &str,
        device: &str,
        mount_information: &Vec<MountInformation>,
    ) -> (r: Result<Vec<String>, BackupError>)
        ensures
            match r {
                Ok(paths) => policy_representable(policy@) && exists|dated: Seq<DatedSubvolume>|
                    #[trigger] dated_subvolumes(dated, subvolumes@, suffix@) && paths_to_delete(
                        backups_to_delete(*timestamp, policy_seconds(policy@), dated, suffix@),
                        *latest_local_snapshot,
                        mount_views(mount_information@),
                        device@,
                    ) == Some(views(paths@)),
                Err(BackupError::DurationConversionError) => !policy_representable(policy@),
                Err(BackupError::PathConversionError) => policy_representable(policy@) && exists|
                    dated: Seq<DatedSubvolume>,
                |
                    #[trigger] dated_subvolumes(dated, subvolumes@, suffix@) && paths_to_delete(
                        backups_to_delete(*timestamp, policy_seconds(policy@), dated, suffix@),
                        *latest_local_snapshot,
                        mount_views(mount_information@),
                        device@,
                    ) is None,
                Err(_) => false,
            },
            r matches Ok(paths) ==> deletion_plan(
                subvolumes@,
                *latest_local_snapshot,
                policy@,
                *timestamp,
                suffix@,
                device@,
                mount_views(mount_information@),
                views(paths@),
            ),
            (forall|k: int|
                0 <= k < subvolumes@.len() ==> !carries_suffix(#[trigger] subvolumes@[k]@, suffix@))
                ==> (r matches Ok(paths) ==> paths@.len() == 0),
            (policy_representable(policy@) && forall|k: int|
                0 <= k < subvolumes@.len() ==> !carries_suffix(#[trigger] subvolumes@[k]@, suffix@))
                ==> (r matches Ok(paths) && paths@.len() == 0),
    {
        let dated = dated_of(subvolumes, suffix);
        proof {
            if forall|k: int|
                0 <= k < subvolumes@.len() ==> !carries_suffix(#[trigger] subvolumes@[k]@, suffix@) {
                lemma_no_suffix_no_dated(dated@, subvolumes@, suffix@);
                assert(dated@ =~= Seq::<DatedSubvolume>::empty());
                let none = Seq::<DatedSubvolume>::empty();
                assert(newest_first(none, suffix@) == none);
                assert(retention_walk(*timestamp, policy_seconds(policy@), none) == (
                    none,
                    0nat,
                    none,
                ));
                assert(backups_to_delete(*timestamp, policy_seconds(policy@), none, suffix@) == none);
            }
        }
        let mut refs: Vec<&DatedSubvolume> = Vec::new();
        for i in 0..dated.len()
            invariant
                refs@.len() == i,
                forall|k: int| 0 <= k < i ==> *refs@[k] == dated@[k],
        {
            refs.push(&dated[i]);
        }
        assert(refs@.map_values(|b: &DatedSubvolume| *b) =~= dated@);
        let deletions = match find_backups_to_be_deleted(timestamp, policy, &refs, suffix) {
            Ok(d) => d,
            Err(_) => {
                return Err(BackupError::DurationConversionError);
            },
        };
        let ghost ds = deletions@.map_values(|b: &DatedSubvolume| *b);
        let ghost ms = mount_views(mount_information@);
        let mut paths: Vec<String> = Vec::new();
        let mut i: usize = 0;
        assert(ds.take(0) =~= Seq::<DatedSubvolume>::empty());
        assert(views(paths@) =~= Seq::<Seq<char>>::empty());
        while i < deletions.len()
            invariant
                ds == deletions@.map_values(|b: &DatedSubvolume| *b),
                ds == backups_to_delete(*timestamp, policy_seconds(policy@), dated@, suffix@),
                dated_subvolumes(dated@, subvolumes@, suffix@),
                policy_representable(policy@),
                (forall|k: int|
                    0 <= k < subvolumes@.len() ==> !carries_suffix(#[trigger] subvolumes@[k]@, suffix@))
                    ==> ds.len() == 0,
                ms == mount_views(mount_information@),
                i <= ds.len(),
                paths_to_delete(ds.take(i as int), *latest_local_snapshot, ms, device@) == Some(
                    views(paths@),
                ),
            decreases ds.len() - i,
        {
            let ghost next = ds.take(i + 1);
            assert(next.drop_last() =~= ds.take(i as int));
            assert(next.last() == *deletions@[i as int]);
            let sv = &deletions[i].subvolume;
            if !Self::eq_or_received(sv, latest_local_snapshot) {
                match Self::btrfs_to_fs_path(mount_information, device, sv.btrfs_path.as_str()) {
                    Ok(p) => {
                        let ghost before = paths@;
                        paths.push(p);
                        assert(views(paths@) =~= views(before).push(p@));
                    },
                    Err(_) => {
                        proof {
                            lemma_paths_error_stays(ds, *latest_local_snapshot, ms, device@, i + 1);
                        }
                        return Err(BackupError::PathConversionError);
                    },
                }
            }
            i = i + 1;
        }
        assert(ds.take(i as int) =~= ds);
        Ok(paths)
    }

    /// The common parent, among the snapshots in `local` of the subvolume
    /// with UUID `parent_uuid`, for an incremental send to the side that
    /// holds `remote`, with the operating-system path through which
    /// `mount_information` on `device` reaches it; `None` where there is no
    /// common parent.
    pub fn incremental_parent(
        local: &Vec<Subvolume>,
        parent_uuid: u128,
        remote: &Vec<Subvolume>,
        device: &str,
        mount_information: &Vec<MountInformation>,
    ) -> (r: Result<Option<SubvolumeInfo>, BackupError>)
        ensures
            match parent_choice(
                subvolume_views(local@),
                parent_uuid,
                subvolume_views(remote@),
                mount_views(mount_information@),
                device@,
            ) {
                None => r matches Err(e) && e is PathConversionError,
                Some(x) => r matches Ok(p) && info_view(p) == x,
            },
    {
        let mut children: Vec<Subvolume> = Vec::new();
        let ghost lv = subvolume_views(local@);
        let mut i: usize = 0;
        assert(lv.take(0) =~= Seq::<SubvolumeView>::empty());
        assert(subvolume_views(children@) =~= Seq::<SubvolumeView>::empty());
        while i < local.len()
            invariant
                lv == subvolume_views(local@),
                i <= lv.len(),
                subvolume_views(children@) == children_of(lv.take(i as int), parent_uuid),
            decreases lv.len() - i,
        {
            let ghost next = lv.take(i + 1);
            assert(next.drop_last() =~= lv.take(i as int));
            assert(next.last() == local@[i as int]@);
            if local[i].parent_uuid == Some(parent_uuid) {
                let ghost before = children@;
                let c = local[i].copy();
                children.push(c);
                assert(subvolume_views(children@) =~= subvolume_views(before).push(c@));
            }
            i = i + 1;
        }
        assert(lv.take(i as int) =~= lv);
        match Self::get_common_parent(&children, remote) {
            None => Ok(None),
            Some(sv) => {
                let fs_path = Self::btrfs_to_fs_path(
                    mount_information,
                    device,
                    sv.btrfs_path.as_str(),
                )?;
                Ok(Some(SubvolumeInfo { btrfs_path: sv.btrfs_path.clone(), fs_path, uuid: sv.uuid }))
            },
        }
    }

    /// The btrfs mounts that `context` sees.
    pub fn get_mount_information(&mut self, context: &Context) -> (r: Result<
        Vec<MountInformation>,
        BackupError,
    >)
        ensures
            one_more(
                old(self).commander.command.log(),
                final(self).commander.command.log(),
                seq![(mount_text(), *context)],
            ),
            match final(self).commander.command.log().last().output {
                None => r is Err,
                Some(out) => match mount_listing_of(out) {
                    None => r is Err,
                    Some(v) => r matches Ok(m) && mount_views(m@) == v,
                },
            },
    {
        match self.commander.command.run(mount_command().as_str(), context) {
            Ok(output) => parse_mount_information(output.as_str()),
            Err(e) => Err(e),
        }
    }

    /// Takes a read-only snapshot of `subvolume_path` in the directory
    /// `snapshot_path`, named for the instant `timestamp` and
    /// `snapshot_suffix`, and looks the new snapshot up.
    pub fn create_snapshot(
        &mut self,
        subvolume_path: &str,
        snapshot_path: &str,
        snapshot_suffix: &str,
        context: &Context,
        timestamp: &Timestamp,
    ) -> (r: Result<SubvolumeInfo, BackupError>)
        ensures
            !(EARLIEST_SECONDS <= timestamp.seconds <= LATEST_SECONDS) ==> r is Err && *final(self)
                == *old(self),
            (EARLIEST_SECONDS <= timestamp.seconds <= LATEST_SECONDS) ==> ({
                let before = old(self).commander.command.log();
                let after = final(self).commander.command.log();
                let n = before.len() as int;
                let target = snapshot_target(snapshot_path@, snapshot_suffix@, *timestamp);
                &&& after.len() > n
                &&& after.take(n) == before
                &&& after[n].commands == seq![(snapshot_text(subvolume_path@, target), *context)]
                &&& after[n].output is None ==> r is Err && after.len() == n + 1
                &&& after[n].output is Some ==> after.len() == n + 2 && after[n + 1].commands
                    == seq![(show_text(target), *context)] && gives_info(
                    after[n + 1].output,
                    target,
                    r,
                )
            }),
    {
        let ghost before = self.commander.command.log();
        let path = match self.commander.snapshot_subvolume(
            subvolume_path,
            snapshot_path,
            snapshot_suffix,
            timestamp,
            context,
        ) {
            Ok(p) => p,
            Err(e) => {
                proof {
                    if EARLIEST_SECONDS <= timestamp.seconds <= LATEST_SECONDS {
                        lemma_one_more_keeps(before, self.commander.command.log());
                    }
                }
                return Err(e);
            },
        };
        let ghost mid = self.commander.command.log();
        proof {
            lemma_one_more_keeps(before, mid);
        }
        let r = self.commander.get_subvolume_info(path.as_str(), context);
        let ghost after = self.commander.command.log();
        proof {
            lemma_one_more_keeps(mid, after);
            assert(after.take(before.len() as int) =~= before);
        }
        r
    }

    /// Sends `snapshot` to the remote side, as the difference to the common
    /// parent where there is one, and gives back that parent: the parent is
    /// sought among the local snapshots (below `local_subvolume_path`) of the
    /// subvolume at `parent_subvolume_path` and the remote subvolumes below
    /// `remote_subvolume_path`; the snapshot is received into
    /// `remote_snapshot_path`. Where the parent's path cannot be resolved,
    /// nothing is sent.
    pub fn send_snapshot(
        &mut self,
        parent_subvolume_path: &str,
        local_device: &str,
        local_subvolume_path: &str,
        local_mount_information: &Vec<MountInformation>,
        snapshot: &SubvolumeInfo,
        context_local: &Context,
        remote_subvolume_path: &str,
        remote_snapshot_path: &str,
        context_remote: &Context,
    ) -> (r: Result<Option<SubvolumeInfo>, BackupError>)
        ensures
            ({
                let before = old(self).commander.command.log();
                let g = final(self).commander.command.log();
                let n = before.len() as int;
                &&& n < g.len() <= n + 4
                &&& g.take(n) == before
                &&& g[n].commands == seq![(show_text(parent_subvolume_path@), *context_local)]
                &&& g.len() > n + 1 ==> {
                    &&& g[n].output is Some
                    &&& info_of(g[n].output->Some_0) is Some
                    &&& g[n + 1].commands == seq![(list_text(local_subvolume_path@), *context_local)]
                }
                &&& g.len() > n + 2 ==> {
                    &&& g[n + 1].output is Some
                    &&& listing_of(g[n + 1].output->Some_0) is Some
                    &&& g[n + 2].commands == seq![
                        (list_text(remote_subvolume_path@), *context_remote),
                    ]
                }
                &&& g.len() == n + 4 ==> {
                    let choice = logged_parent_choice(
                        g,
                        n,
                        mount_views(local_mount_information@),
                        local_device@,
                    );
                    &&& g[n + 2].output is Some
                    &&& listing_of(g[n + 2].output->Some_0) is Some
                    &&& choice is Some
                    &&& g[n + 3].commands == seq![
                        (
                            send_text(
                                snapshot.fs_path@,
                                match choice->Some_0 {
                                    Some(t) => Some(t.1),
                                    None => None,
                                },
                            ),
                            *context_local,
                        ),
                        (receive_text(remote_snapshot_path@), *context_remote),
                    ]
                    &&& (r is Ok <==> g[n + 3].output is Some)
                    &&& r matches Ok(p) ==> info_view(p) == choice->Some_0
                }
                &&& r is Ok ==> g.len() == n + 4
                &&& (g[n].output is Some && info_of(g[n].output->Some_0) is Some) ==> g.len() > n
                    + 1
                &&& (g.len() > n + 1 && g[n + 1].output is Some && listing_of(
                    g[n + 1].output->Some_0,
                ) is Some) ==> g.len() > n + 2
                &&& (g.len() > n + 2 && g[n + 2].output is Some && listing_of(
                    g[n + 2].output->Some_0,
                ) is Some) ==> {
                    let choice = logged_parent_choice(
                        g,
                        n,
                        mount_views(local_mount_information@),
                        local_device@,
                    );
                    &&& choice is Some ==> g.len() == n + 4
                    &&& choice is None ==> g.len() == n + 3 && r == Err::<
                        Option<SubvolumeInfo>,
                        BackupError,
                    >(BackupError::PathConversionError)
                }
                &&& g.len() == n + 4 ==> (g[n + 3].failure matches Some(e) ==> r == Err::<
                    Option<SubvolumeInfo>,
                    BackupError,
                >(e))
            }),
    {
        let ghost l0 = self.commander.command.log();
        let ghost n = l0.len() as int;
        let parent = self.commander.get_subvolume_info(parent_subvolume_path, context_local);
        let ghost l1 = self.commander.command.log();
        proof {
            lemma_one_more_keeps(l0, l1);
        }
        let parent = match parent {
            Ok(p) => p,
            Err(e) => {
                return Err(e);
            },
        };
        let local = self.commander.get_subvolumes(local_subvolume_path, context_local);
        let ghost l2 = self.commander.command.log();
        proof {
            lemma_one_more_keeps(l1, l2);
            assert(l2.take(n) =~= l0);
            assert(l2[n] == l1[n]);
        }
        let local = match local {
            Ok(v) => v,
            Err(e) => {
                return Err(e);
            },
        };
        let remote = self.commander.get_subvolumes(remote_subvolume_path, context_remote);
        let ghost l3 = self.commander.command.log();
        proof {
            lemma_one_more_keeps(l2, l3);
            assert(l3.take(n) =~= l0);
            assert(l2[n] == l1[n]);
            assert(l3[n] == l1[n]);
            assert(l3[n + 1] == l2[n + 1]);
        }
        let remote = match remote {
            Ok(v) => v,
            Err(e) => {
                return Err(e);
            },
        };
        let common = match Self::incremental_parent(
            &local,
            parent.uuid,
            &remote,
            local_device,
            local_mount_information,
        ) {
            Ok(c) => c,
            Err(e) => {
                return Err(e);
            },
        };
        let common_ref = match &common {
            Some(c) => Some(c),
            None => None,
        };
        let sent = self.commander.send_snapshot(
            snapshot,
            common_ref,
            context_local,
            remote_snapshot_path,
            context_remote,
        );
        let ghost l4 = self.commander.command.log();
        proof {
            lemma_one_more_keeps(l3, l4);
            assert(l4.take(n) =~= l0);
            assert(l4[n] == l1[n]);
            assert(l4[n + 1] == l2[n + 1]);
            assert(l4[n + 2] == l3[n + 2]);
            assert(l1[n].output is Some);
            assert(info_of(l1[n].output->Some_0)->Some_0.1 == parent.uuid);
            assert(listing_of(l2[n + 1].output->Some_0)->Some_0 == subvolume_views(local@));
            assert(listing_of(l3[n + 2].output->Some_0)->Some_0 == subvolume_views(remote@));
        }
        match sent {
            Ok(_) => Ok(common),
            Err(e) => Err(e),
        }
    }

    /// Prunes the snapshots below `subvolume_path` under `policy` at
    /// `timestamp`: of those whose names encode an instant and `suffix`, each
    /// that the policy deletes, but `latest_local_snapshot`, is deleted
    /// through its operating-system path, made canonical by `readlink -f`;
    /// the canonical paths `home`, `/home`, `root` and `/` are refused.
    pub fn police_snapshots(
        &mut self,
        subvolume_path: &str,
        context: &Context,
        latest_local_snapshot: &SubvolumeInfo,
        policy: &Vec<CustomDuration>,
        timestamp: &Timestamp,
        suffix: &str,
        device: &str,
        mount_information: &Vec<MountInformation>,
    ) -> (r: Result<(), BackupError>)
        ensures
            !policy_representable(policy@) ==> r is Err && final(self).commander.command.log().len()
                == old(self).commander.command.log().len() + 1,
            ({
                let before = old(self).commander.command.log();
                let g = final(self).commander.command.log();
                let n = before.len() as int;
                let listed = g[n].output is Some && listing_of(g[n].output->Some_0) is Some;
                &&& n < g.len()
                &&& g.take(n) == before
                &&& g[n].commands == seq![(list_text(subvolume_path@), *context)]
                &&& !listed ==> r is Err && g.len() == n + 1
                &&& g.last().failure matches Some(e) ==> r == Err::<(), BackupError>(e)
                &&& (listed && policy_representable(policy@)) ==> exists|svs: Seq<Subvolume>|
                    subvolume_views(svs) == listing_of(g[n].output->Some_0)->Some_0
                        && #[trigger] police_outcome(
                        svs,
                        *latest_local_snapshot,
                        policy@,
                        *timestamp,
                        suffix@,
                        device@,
                        mount_views(mount_information@),
                        g,
                        n,
                        *context,
                        r,
                    )
                &&& (listed && policy_representable(policy@) && none_carries(
                    listing_of(g[n].output->Some_0)->Some_0,
                    suffix@,
                )) ==> r is Ok && g.len() == n + 1
            }),
    {
        let ghost l0 = self.commander.command.log();
        let ghost n = l0.len() as int;
        let ghost ms = mount_views(mount_information@);
        let listed = self.commander.get_subvolumes(subvolume_path, context);
        let ghost l1 = self.commander.command.log();
        proof {
            lemma_one_more_keeps(l0, l1);
        }
        let subvolumes = match listed {
            Ok(v) => v,
            Err(e) => {
                return Err(e);
            },
        };
        proof {
            if none_carries(listing_of(l1[n].output->Some_0)->Some_0, suffix@) {
                assert forall|k: int| 0 <= k < subvolumes@.len() implies !carries_suffix(
                    #[trigger] subvolumes@[k]@,
                    suffix@,
                ) by {
                    assert(subvolume_views(subvolumes@)[k] == subvolumes@[k]@);
                }
            }
        }
        let paths = match Self::snapshots_to_delete(
            &subvolumes,
            latest_local_snapshot,
            policy,
            timestamp,
            suffix,
            device,
            mount_information,
        ) {
            Ok(p) => p,
            Err(e) => {
                proof {
                    if policy_representable(policy@) {
                        assert(police_outcome(
                            subvolumes@,
                            *latest_local_snapshot,
                            policy@,
                            *timestamp,
                            suffix@,
                            device@,
                            ms,
                            l1,
                            n,
                            *context,
                            Err(e),
                        ));
                    }
                }
                return Err(e);
            },
        };
        let ghost pv = views(paths@);
        assert(pv.take(0) =~= Seq::<Seq<char>>::empty());
        let mut i: usize = 0;
        while i < paths.len()
            invariant
                l0 == old(self).commander.command.log(),
                l1 == l0.push(l1.last()),
                n == l0.len(),
                l1.last().commands == seq![(list_text(subvolume_path@), *context)],
                l1.last().output is Some,
                l1.last().failure is None,
                listing_of(l1.last().output->Some_0) == Some(subvolume_views(subvolumes@)),
                pv == views(paths@),
                deletion_plan(
                    subvolumes@,
                    *latest_local_snapshot,
                    policy@,
                    *timestamp,
                    suffix@,
                    device@,
                    ms,
                    pv,
                ),
                ms == mount_views(mount_information@),
                i <= paths@.len(),
                self.commander.command.log().len() == n + 1 + 2 * i,
                self.commander.command.log().take(n + 1) == l1,
                deletes_each(self.commander.command.log(), n + 1, pv.take(i as int), *context),
                self.commander.command.log().last().failure is None,
                (policy_representable(policy@) && none_carries(
                    listing_of(l1.last().output->Some_0)->Some_0,
                    suffix@,
                )) ==> paths@.len() == 0,
            decreases paths@.len() - i,
        {
            let ghost g0 = self.commander.command.log();
            proof {
                assert(g0.take(n + 1)[n] == g0[n]);
                assert(l1[n] == l1.last());
                assert(g0[n] == l1.last());
            }
            let links = match self.commander.read_link(paths[i].as_str(), context) {
                Ok(v) => v,
                Err(e) => {
                    proof {
                        let g1 = self.commander.command.log();
                        lemma_one_more_keeps(g0, g1);
                        assert(pv[i as int] == paths@[i as int]@);
                        lemma_deletes_upto_extend(g0, g1, n + 1, pv, i as int, 1, *context);
                        assert(g1.take(n) =~= l0) by {
                            assert(g1.take(n) =~= g0.take(n + 1).take(n));
                        }
                        assert(g1[n] == g0[n]);
                        assert(subvolume_views(subvolumes@) == listing_of(g1[n].output->Some_0)->Some_0);
                        assert(police_outcome(
                            subvolumes@,
                            *latest_local_snapshot,
                            policy@,
                            *timestamp,
                            suffix@,
                            device@,
                            ms,
                            g1,
                            n,
                            *context,
                            Err(e),
                        ));
                    }
                    return Err(e);
                },
            };
            let ghost g1 = self.commander.command.log();
            proof {
                lemma_one_more_keeps(g0, g1);
                assert(views(links@).len() == links@.len());
                assert(pv[i as int] == paths@[i as int]@);
                assert(g1.take(n) =~= g0.take(n + 1).take(n));
                assert(g1[n] == g0[n]);
            }
            let target = &links[links.len() - 1];
            let deleted = self.commander.delete_subvolume(target.as_str(), context);
            let ghost g2 = self.commander.command.log();
            proof {
                assert(views(links@)[links@.len() - 1] == target@);
            }
            match deleted {
                Ok(_) => {},
                Err(e) => {
                    proof {
                        if restricted(target@) {
                            lemma_deletes_upto_extend(g0, g1, n + 1, pv, i as int, 1, *context);
                            assert(g1.take(n) =~= l0);
                        } else {
                            lemma_one_more_keeps(g1, g2);
                            assert(g2.take(g0.len() as int) =~= g0);
                            assert(g2[g0.len() as int] == g1[g0.len() as int]);
                            lemma_deletes_upto_extend(g0, g2, n + 1, pv, i as int, 2, *context);
                            assert(g2.take(n) =~= l0) by {
                                assert(g2.take(n) =~= g0.take(n));
                            }
                            assert(g2[n] == g0[n]);
                        }
                        assert(g2[n] == g0[n]);
                        assert(subvolume_views(subvolumes@) == listing_of(g2[n].output->Some_0)->Some_0);
                        assert(police_outcome(
                            subvolumes@,
                            *latest_local_snapshot,
                            policy@,
                            *timestamp,
                            suffix@,
                            device@,
                            ms,
                            g2,
                            n,
                            *context,
                            Err(e),
                        ));
                    }
                    return Err(e);
                },
            }
            proof {
                lemma_one_more_keeps(g1, g2);
                assert(g2.take(g0.len() as int) =~= g0);
                assert(g2[g0.len() as int] == g1[g0.len() as int]);
                assert(g2.take(n + 1) =~= l1) by {
                    assert(g2.take(n + 1) =~= g0.take(n + 1));
                }
                assert(pv.take(i + 1) =~= pv.take(i as int).push(pv[i as int]));
                lemma_deletes_each_grows(g0, g2, n + 1, pv.take(i as int), pv[i as int], *context);
            }
            i = i + 1;
        }
        let ghost g = self.commander.command.log();
        proof {
            assert(pv.take(i as int) =~= pv);
            assert(g.take(g.len() as int) =~= g);
            lemma_deletes_upto_extend(g, g, n + 1, pv, i as int, 0, *context);
            assert(g.take(n) =~= l0) by {
                assert(g.take(n) =~= g.take(n + 1).take(n));
            }
            assert(g.take(n + 1)[n] == g[n]);
            assert(police_outcome(
                subvolumes@,
                *latest_local_snapshot,
                policy@,
                *timestamp,
                suffix@,
                device@,
                ms,
                g,
                n,
                *context,
                Ok(()),
            ));
        }
        Ok(())
    }
}

} // verus!
