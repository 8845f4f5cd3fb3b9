use vstd::prelude::*;

use crate::actions::ActionsSystem;
use crate::command::LoggedCommand;
use crate::objects::{Subvolume, SubvolumeInfo, SubvolumeView};
use crate::subvolumes::subvolume_views;

verus! {

/// Whether the characters of `a` come before those of `b` or equal them, by
/// code point, the shorter first where one leads the other.
pub open spec fn text_le(a: Seq<char>, b: Seq<char>) -> bool
    decreases a.len(),
{
    if a.len() == 0 {
        true
    } else if b.len() == 0 {
        false
    } else if a[0] != b[0] {
        (a[0] as u32) < (b[0] as u32)
    } else {
        text_le(a.drop_first(), b.drop_first())
    }
}

/// The position of the last subvolume of `local` with UUID `u`.
pub open spec fn last_with_uuid(local: Seq<SubvolumeView>, u: u128) -> Option<int>
    decreases local.len(),
{
    if local.len() == 0 {
        None
    } else if local.last().uuid == u {
        Some(local.len() - 1)
    } else {
        last_with_uuid(local.drop_last(), u)
    }
}

/// Whether the remote subvolume `r` was received from a subvolume of `local`.
pub open spec fn received_from(r: SubvolumeView, local: Seq<SubvolumeView>) -> bool {
    r.received_uuid matches Some(u) && last_with_uuid(local, u) is Some
}

/// The position of the remote subvolume, received from one of `local`, whose
/// path is greatest; of equal paths, the last.
pub open spec fn latest_common(remote: Seq<SubvolumeView>, local: Seq<SubvolumeView>) -> Option<
    int,
>
    decreases remote.len(),
{
    if remote.len() == 0 {
        None
    } else {
        let b = latest_common(remote.drop_last(), local);
        let k = remote.len() - 1;
        if received_from(remote[k], local) && (b is None || text_le(
            remote[b->0].btrfs_path,
            remote[k].btrfs_path,
        )) {
            Some(k)
        } else {
            b
        }
    }
}

/// The position in `local` of the common parent for an incremental send.
pub open spec fn common_parent(local: Seq<SubvolumeView>, remote: Seq<SubvolumeView>) -> Option<
    int,
> {
    match latest_common(remote, local) {
        None => None,
        Some(k) => last_with_uuid(local, remote[k].received_uuid->0),
    }
}

/// Whether the characters of `a` come before those of `b` or equal them.
fn le_text(a: &str, b: &str) -> (r: bool)
    ensures
        r == text_le(a@, b@),
{
    let ac = crate::text::chars_of(a);
    let bc = crate::text::chars_of(b);
    let mut i: usize = 0;
    assert(a@.skip(0) =~= a@);
    assert(b@.skip(0) =~= b@);
    while i < ac.len() && i < bc.len() && ac[i] == bc[i]
        invariant
            ac@ == a@,
            bc@ == b@,
            i <= ac@.len(),
            i <= bc@.len(),
            text_le(a@, b@) == text_le(a@.skip(i as int), b@.skip(i as int)),
        decreases ac@.len() - i,
    {
        assert(a@.skip(i as int).drop_first() =~= a@.skip(i + 1));
        assert(b@.skip(i as int).drop_first() =~= b@.skip(i + 1));
        i = i + 1;
    }
    if i == ac.len() {
        true
    } else if i == bc.len() {
        false
    } else {
        (ac[i] as u32) < (bc[i] as u32)
    }
}

/// Finds the last subvolume of `local` with UUID `u`.
fn find_last_with_uuid(local: &Vec<Subvolume>, u: u128) -> (r: Option<usize>)
    ensures
        match r {
            Some(j) => j < local@.len() && last_with_uuid(subvolume_views(local@), u) == Some(
                j as int,
            ),
            None => last_with_uuid(subvolume_views(local@), u) is None,
        },
{
    let ghost lv = subvolume_views(local@);
    let mut k: usize = local.len();
    assert(lv.take(k as int) =~= lv);
    while k > 0
        invariant
            lv == subvolume_views(local@),
            k <= local@.len(),
            last_with_uuid(lv, u) == last_with_uuid(lv.take(k as int), u),
        decreases k,
    {
        assert(lv.take(k as int).drop_last() =~= lv.take(k - 1));
        if local[k - 1].uuid == u {
            return Some(k - 1);
        }
        k = k - 1;
    }
    assert(lv.take(0) =~= Seq::<SubvolumeView>::empty());
    None
}

impl<C: LoggedCommand> ActionsSystem<C> {
    /// Finds the local subvolume that serves as the parent of an incremental
    /// send: of the remote subvolumes received from a subvolume that `local`
    /// still holds, the one with the greatest path (the last of equal paths)
    /// names it, by its received UUID (the last local subvolume with that UUID).
    /// `None` where no remote subvolume was received from one of `local`.
    pub fn get_common_parent<'a>(local: &'a Vec<Subvolume>, remote: &Vec<Subvolume>) -> (r: Option<
        &'a Subvolume,
    >)
        ensures
            match common_parent(subvolume_views(local@), subvolume_views(remote@)) {
                None => r is None,
                Some(j) => r matches Some(s) && 0 <= j < local@.len() && *s == local@[j],
            },
    {
        let ghost lv = subvolume_views(local@);
        let ghost rv = subvolume_views(remote@);
        let mut best: Option<usize> = None;
        let mut i: usize = 0;
        assert(rv.take(0) =~= Seq::<SubvolumeView>::empty());
        while i < remote.len()
            invariant
                lv == subvolume_views(local@),
                rv == subvolume_views(remote@),
                i <= rv.len(),
                match best {
                    Some(k) => k < i && latest_common(rv.take(i as int), lv) == Some(k as int),
                    None => latest_common(rv.take(i as int), lv) is None,
                },
            decreases rv.len() - i,
        {
            let ghost next = rv.take(i + 1);
            assert(next.drop_last() =~= rv.take(i as int));
            assert(next[i as int] == rv[i as int]);
            let r = &remote[i];
            let received = match r.received_uuid {
                Some(u) => find_last_with_uuid(local, u).is_some(),
                None => false,
            };
            if received {
                match best {
                    None => {
                        best = Some(i);
                    },
                    Some(k) => {
                        assert(next[k as int] == rv[k as int]);
                        if le_text(remote[k].btrfs_path.as_str(), r.btrfs_path.as_str()) {
                            best = Some(i);
                        }
                    },
                }
            }
            i = i + 1;
        }
        assert(rv.take(i as int) =~= rv);
        match best {
            None => None,
            Some(k) => {
                proof {
                    lemma_latest_common_received(rv, lv);
                    assert(rv[k as int] == remote@[k as int]@);
                }
                let u = remote[k].received_uuid.unwrap();
                match find_last_with_uuid(local, u) {
                    Some(j) => Some(&local[j]),
                    None => None,
                }
            },
        }
    }

    /// Whether the subvolume `sv` is `svi` itself or was received from it.
    pub fn eq_or_received(sv: &Subvolume, svi: &SubvolumeInfo) -> (r: bool)
        ensures
            r == (sv.uuid == svi.uuid || sv.received_uuid == Some(svi.uuid)),
    {
        sv.uuid == svi.uuid || match sv.received_uuid {
            Some(u) => u == svi.uuid,
            None => false,
        }
    }
}

/// Where exactly one remote subvolume was received from a subvolume that
/// `local` holds, and the UUIDs of `local` are distinct, the common parent is
/// that local subvolume.
pub proof fn lemma_single_match_is_parent(
    local: Seq<SubvolumeView>,
    remote: Seq<SubvolumeView>,
    l: int,
    r: int,
)
    requires
        0 <= l < local.len(),
        0 <= r < remote.len(),
        forall|a: int, b: int|
            0 <= a < local.len() && 0 <= b < local.len() && a != b ==> local[a].uuid
                != local[b].uuid,
        remote[r].received_uuid == Some(local[l].uuid),
        forall|k: int| 0 <= k < remote.len() && k != r ==> !received_from(#[trigger] remote[k], local),
    ensures
        common_parent(local, remote) == Some(l),
{
    lemma_last_with_uuid(local, local[l].uuid, l);
    lemma_latest_common_single(remote, local, r);
}

proof fn lemma_last_with_uuid(local: Seq<SubvolumeView>, u: u128, l: int)
    requires
        0 <= l < local.len(),
        local[l].uuid == u,
        forall|a: int, b: int|
            0 <= a < local.len() && 0 <= b < local.len() && a != b ==> local[a].uuid
                != local[b].uuid,
    ensures
        last_with_uuid(local, u) == Some(l),
    decreases local.len(),
{
    if l < local.len() - 1 {
        let prev = local.drop_last();
        assert(local.last() == local[local.len() - 1]);
        assert forall|a: int, b: int|
            0 <= a < prev.len() && 0 <= b < prev.len() && a != b implies prev[a].uuid
                != prev[b].uuid by {
            assert(prev[a] == local[a] && prev[b] == local[b]);
        }
        assert(prev[l] == local[l]);
        lemma_last_with_uuid(prev, u, l);
    }
}

proof fn lemma_latest_common_single(remote: Seq<SubvolumeView>, local: Seq<SubvolumeView>, r: int)
    requires
        0 <= r < remote.len(),
        received_from(remote[r], local),
        forall|k: int| 0 <= k < remote.len() && k != r ==> !received_from(#[trigger] remote[k], local),
    ensures
        latest_common(remote, local) == Some(r),
    decreases remote.len(),
{
    let prev = remote.drop_last();
    if r < remote.len() - 1 {
        assert forall|k: int| 0 <= k < prev.len() && k != r implies !received_from(
            #[trigger] prev[k],
            local,
        ) by {
            assert(prev[k] == remote[k]);
        }
        assert(prev[r] == remote[r]);
        lemma_latest_common_single(prev, local, r);
    } else {
        lemma_latest_common_none(prev, local);
    }
}

proof fn lemma_latest_common_received(remote: Seq<SubvolumeView>, local: Seq<SubvolumeView>)
    ensures
        latest_common(remote, local) matches Some(k) ==> 0 <= k < remote.len() && received_from(
            remote[k],
            local,
        ),
    decreases remote.len(),
{
    if remote.len() > 0 {
        let prev = remote.drop_last();
        lemma_latest_common_received(prev, local);
        if let Some(k) = latest_common(prev, local) {
            assert(prev[k] == remote[k]);
        }
    }
}

proof fn lemma_latest_common_none(remote: Seq<SubvolumeView>, local: Seq<SubvolumeView>)
    requires
        forall|k: int| 0 <= k < remote.len() ==> !received_from(#[trigger] remote[k], local),
    ensures
        latest_common(remote, local) is None,
    decreases remote.len(),
{
    if remote.len() > 0 {
        let prev = remote.drop_last();
        assert forall|k: int| 0 <= k < prev.len() implies !received_from(#[trigger] prev[k], local) by {
            assert(prev[k] == remote[k]);
        }
        lemma_latest_common_none(prev, local);
        assert(remote[remote.len() - 1] == remote.last());
    }
}

} // verus!
