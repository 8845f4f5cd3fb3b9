use vstd::prelude::*;

use crate::error::CustomError;
use crate::naming::Timestamp;
use crate::snapshot::Snapshot;
use crate::text::same_text;

verus! {

/// A duration of a retention policy, given in weeks, days, hours, minutes and
/// seconds, which add up.
#[derive(Debug, Clone, Copy, PartialEq, Eq)]
pub struct CustomDuration {
    pub weeks: u64,
    pub days: u64,
    pub hours: u64,
    pub minutes: u64,
    pub seconds: u64,
}

impl CustomDuration {
    /// The whole length in seconds.
    pub open spec fn total_seconds(self) -> int {
        self.weeks * 604800 + self.days * 86400 + self.hours * 3600 + self.minutes * 60
            + self.seconds
    }

    /// A duration of `n` seconds.
    pub fn seconds(n: u64) -> (r: CustomDuration)
        ensures
            r.total_seconds() == n,
    {
        CustomDuration { weeks: 0, days: 0, hours: 0, minutes: 0, seconds: n }
    }

    /// A duration of `n` minutes.
    pub fn minutes(n: u64) -> (r: CustomDuration)
        ensures
            r.total_seconds() == n * 60,
    {
        CustomDuration { weeks: 0, days: 0, hours: 0, minutes: n, seconds: 0 }
    }

    /// A duration of `n` hours.
    pub fn hours(n: u64) -> (r: CustomDuration)
        ensures
            r.total_seconds() == n * 3600,
    {
        CustomDuration { weeks: 0, days: 0, hours: n, minutes: 0, seconds: 0 }
    }

    /// A duration of `n` days.
    pub fn days(n: u64) -> (r: CustomDuration)
        ensures
            r.total_seconds() == n * 86400,
    {
        CustomDuration { weeks: 0, days: n, hours: 0, minutes: 0, seconds: 0 }
    }

    /// A duration of `n` weeks.
    pub fn weeks(n: u64) -> (r: CustomDuration)
        ensures
            r.total_seconds() == n * 604800,
    {
        CustomDuration { weeks: n, days: 0, hours: 0, minutes: 0, seconds: 0 }
    }

    /// The length in seconds, where it fits in an `i64`.
    pub fn to_seconds(&self) -> (r: Result<i64, CustomError>)
        ensures
            match r {
                Ok(s) => s == self.total_seconds(),
                Err(e) => self.total_seconds() > i64::MAX && e is DurationConversionError,
            },
    {
        let total: u128 = self.weeks as u128 * 604800 + self.days as u128 * 86400
            + self.hours as u128 * 3600 + self.minutes as u128 * 60 + self.seconds as u128;
        if total > i64::MAX as u128 {
            Err(CustomError::DurationConversionError)
        } else {
            Ok(total as i64)
        }
    }
}

/// Whether every duration of `policy` fits in an `i64` of seconds.
pub open spec fn policy_representable(policy: Seq<CustomDuration>) -> bool {
    forall|i: int| 0 <= i < policy.len() ==> #[trigger] policy[i].total_seconds() <= i64::MAX
}

/// The durations of `policy` in seconds.
pub open spec fn policy_seconds(policy: Seq<CustomDuration>) -> Seq<int> {
    policy.map_values(|d: CustomDuration| d.total_seconds())
}

/// `ord` with `x` placed before its first snapshot that is not newer than `x`.
pub open spec fn insert_newest_first<S: Snapshot>(ord: Seq<S>, x: S) -> Seq<S>
    decreases ord.len(),
{
    if ord.len() == 0 {
        seq![x]
    } else if ord[0].spec_timestamp().instant() <= x.spec_timestamp().instant() {
        seq![x] + ord
    } else {
        seq![ord[0]] + insert_newest_first(ord.drop_first(), x)
    }
}

/// The snapshots of `backups` whose suffix is `suffix`, from the newest to the
/// oldest; of two with the same instant, the one that stands later in
/// `backups` comes first.
pub open spec fn newest_first<S: Snapshot>(backups: Seq<S>, suffix: Seq<char>) -> Seq<S>
    decreases backups.len(),
{
    if backups.len() == 0 {
        Seq::empty()
    } else {
        let rest = newest_first(backups.drop_last(), suffix);
        if backups.last().spec_suffix() == suffix {
            insert_newest_first(rest, backups.last())
        } else {
            rest
        }
    }
}

/// Whether `x` lies beyond the window of `d` seconds before `now`.
pub open spec fn beyond(now: Timestamp, x: Timestamp, d: int) -> bool {
    now.instant() - x.instant() > d * 1_000_000_000
}

/// One snapshot of the walk from the newest to the oldest. The state is the
/// current bucket, the position in the policy and the snapshots deleted so
/// far. A snapshot beyond the current window closes the bucket: of a
/// non-empty bucket the member added last is kept and the others are deleted;
/// a new bucket starts with the snapshot, and the window moves to the next
/// duration. Any other snapshot joins the bucket.
pub open spec fn retention_step<S: Snapshot>(
    now: Timestamp,
    policy: Seq<int>,
    state: (Seq<S>, nat, Seq<S>),
    x: S,
) -> (Seq<S>, nat, Seq<S>) {
    let (bucket, cursor, deleted) = state;
    if cursor < policy.len() && beyond(now, x.spec_timestamp(), policy[cursor as int]) {
        if bucket.len() > 0 {
            (seq![x], cursor + 1, deleted + bucket.drop_last())
        } else {
            (seq![x], cursor + 1, deleted)
        }
    } else {
        (bucket.push(x), cursor, deleted)
    }
}

/// The state after walking `items` in order.
pub open spec fn retention_walk<S: Snapshot>(now: Timestamp, policy: Seq<int>, items: Seq<S>) -> (
    Seq<S>,
    nat,
    Seq<S>,
)
    decreases items.len(),
{
    if items.len() == 0 {
        (Seq::empty(), 0, Seq::empty())
    } else {
        retention_step(now, policy, retention_walk(now, policy, items.drop_last()), items.last())
    }
}

/// The snapshots that the walk over `items` (newest first) deletes. Of the
/// last bucket, the newest member is kept where every window has closed, and
/// the oldest otherwise.
pub open spec fn retention_deletions<S: Snapshot>(
    now: Timestamp,
    policy: Seq<int>,
    items: Seq<S>,
) -> Seq<S> {
    let (bucket, cursor, deleted) = retention_walk(now, policy, items);
    if bucket.len() == 0 {
        deleted
    } else if cursor >= policy.len() {
        deleted + bucket.drop_first()
    } else {
        deleted + bucket.drop_last()
    }
}

/// The snapshots with suffix `suffix` that the policy deletes at `now`.
pub open spec fn backups_to_delete<S: Snapshot>(
    now: Timestamp,
    policy: Seq<int>,
    backups: Seq<S>,
    suffix: Seq<char>,
) -> Seq<S> {
    retention_deletions(now, policy, newest_first(backups, suffix))
}

/// The durations of `policy` in seconds, or the error for the first that does
/// not fit in an `i64`.
fn policy_to_seconds(policy: &Vec<CustomDuration>) -> (r: Result<Vec<i64>, CustomError>)
    ensures
        match r {
            Ok(v) => policy_representable(policy@) && v@.map_values(|s: i64| s as int)
                == policy_seconds(policy@),
            Err(e) => !policy_representable(policy@) && e is DurationConversionError,
        },
{
    let mut v: Vec<i64> = Vec::new();
    for i in 0..policy.len()
        invariant
            v@.len() == i,
            forall|k: int| 0 <= k < i ==> v@[k] == #[trigger] policy@[k].total_seconds(),
    {
        match policy[i].to_seconds() {
            Ok(s) => v.push(s),
            Err(e) => {
                return Err(e);
            },
        }
    }
    assert(v@.map_values(|s: i64| s as int) =~= policy_seconds(policy@));
    Ok(v)
}

/// The instant of `t` in nanoseconds.
fn instant_of(t: &Timestamp) -> (r: i128)
    ensures
        r == t.instant(),
{
    t.seconds as i128 * 1_000_000_000 + t.nanos as i128
}

/// Where `p` is the first position in `ord` whose snapshot is not newer than
/// `x` (or the length), inserting there is `insert_newest_first`.
proof fn lemma_insert_at<S: Snapshot>(ord: Seq<S>, x: S, p: int)
    requires
        0 <= p <= ord.len(),
        forall|k: int|
            0 <= k < p ==> #[trigger] ord[k].spec_timestamp().instant()
                > x.spec_timestamp().instant(),
        p < ord.len() ==> ord[p].spec_timestamp().instant() <= x.spec_timestamp().instant(),
    ensures
        insert_newest_first(ord, x) == ord.take(p) + seq![x] + ord.skip(p),
    decreases ord.len(),
{
    if p == 0 {
        assert(ord.take(0) + seq![x] + ord.skip(0) =~= seq![x] + ord);
    } else {
        let rest = ord.drop_first();
        assert forall|k: int| 0 <= k < p - 1 implies #[trigger] rest[k].spec_timestamp().instant()
            > x.spec_timestamp().instant() by {
            assert(rest[k] == ord[k + 1]);
        }
        lemma_insert_at(rest, x, p - 1);
        assert(seq![ord[0]] + (rest.take(p - 1) + seq![x] + rest.skip(p - 1)) =~= ord.take(p)
            + seq![x] + ord.skip(p));
    }
}

/// The snapshots of `backups` at the positions `ord`.
pub open spec fn pick<S>(backups: Seq<&S>, ord: Seq<usize>) -> Seq<S> {
    ord.map_values(|j: usize| *backups[j as int])
}

/// Orders the positions of the snapshots with suffix `suffix` from the newest
/// to the oldest.
fn order_newest_first<'a, S: Snapshot>(backups: &Vec<&'a S>, suffix: &str) -> (r: Vec<usize>)
    ensures
        forall|k: int| 0 <= k < r@.len() ==> #[trigger] r@[k] < backups@.len(),
        pick(backups@, r@) == newest_first(backups@.map_values(|b: &S| *b), suffix@),
{
    let ghost all = backups@.map_values(|b: &S| *b);
    let mut ord: Vec<usize> = Vec::new();
    let mut i: usize = 0;
    assert(all.take(0) =~= Seq::<S>::empty());
    assert(pick(backups@, ord@) =~= Seq::<S>::empty());
    while i < backups.len()
        invariant
            all == backups@.map_values(|b: &S| *b),
            i <= backups@.len(),
            forall|k: int| 0 <= k < ord@.len() ==> #[trigger] ord@[k] < i,
            pick(backups@, ord@) == newest_first(all.take(i as int), suffix@),
        decreases backups@.len() - i,
    {
        let ghost prev = all.take(i as int);
        assert(all.take(i + 1).drop_last() =~= prev);
        assert(all.take(i + 1).last() == *backups@[i as int]);
        let b: &S = backups[i];
        if same_text(b.suffix(), suffix) {
            let t = instant_of(b.timestamp());
            let mut p: usize = 0;
            while p < ord.len()
                invariant
                    0 <= p <= ord@.len(),
                    forall|k: int| 0 <= k < ord@.len() ==> #[trigger] ord@[k] < i,
                    i < backups@.len(),
                    t == b.spec_timestamp().instant(),
                    forall|k: int|
                        0 <= k < p ==> #[trigger] pick(backups@, ord@)[k].spec_timestamp().instant()
                            > t,
                ensures
                    0 <= p <= ord@.len(),
                    forall|k: int|
                        0 <= k < p ==> #[trigger] pick(backups@, ord@)[k].spec_timestamp().instant()
                            > t,
                    p < ord@.len() ==> pick(backups@, ord@)[p as int].spec_timestamp().instant()
                        <= t,
                decreases ord@.len() - p,
            {
                let c: &S = backups[ord[p]];
                if instant_of(c.timestamp()) <= t {
                    break;
                }
                p = p + 1;
            }
            let ghost before = ord@;
            proof {
                lemma_insert_at(pick(backups@, before), *b, p as int);
            }
            ord.insert(p, i);
            assert(pick(backups@, ord@) =~= pick(backups@, before).take(p as int) + seq![*b]
                + pick(backups@, before).skip(p as int));
        }
        i = i + 1;
    }
    assert(all.take(i as int) =~= all);
    ord
}

/// The snapshots with suffix `snapshot_suffix` that the tiered `policy`
/// deletes at `current_timestamp`.
///
/// The snapshots are walked from the newest to the oldest. Each duration of
/// the policy, smallest first, bounds a window that reaches back from
/// `current_timestamp`; the snapshots within one window form a bucket, of
/// which one is kept: the oldest for a window of the policy, the newest for
/// the unbounded bucket that follows the last one. Snapshots with another
/// suffix take no part. The policy fails where one of its durations does not
/// fit in an `i64` of seconds.
pub fn find_backups_to_be_deleted<'a, S: Snapshot>(
    current_timestamp: &Timestamp,
    policy: &Vec<CustomDuration>,
    backups: &Vec<&'a S>,
    snapshot_suffix: &str,
) -> (r: Result<Vec<&'a S>, CustomError>)
    ensures
        match r {
            Ok(d) => policy_representable(policy@) && d@.map_values(|b: &S| *b)
                == backups_to_delete(
                *current_timestamp,
                policy_seconds(policy@),
                backups@.map_values(|b: &S| *b),
                snapshot_suffix@,
            ),
            Err(e) => !policy_representable(policy@) && e is DurationConversionError,
        },
{
    let limits = policy_to_seconds(policy)?;
    let ghost pol = policy_seconds(policy@);
    let ghost items = newest_first(backups@.map_values(|b: &S| *b), snapshot_suffix@);
    let ord = order_newest_first(backups, snapshot_suffix);
    let now = instant_of(current_timestamp);
    let mut bucket: Vec<&'a S> = Vec::new();
    let mut deleted: Vec<&'a S> = Vec::new();
    let mut cursor: usize = 0;
    let mut i: usize = 0;
    assert(items.take(0) =~= Seq::<S>::empty());
    assert(bucket@.map_values(|b: &S| *b) =~= Seq::<S>::empty());
    assert(deleted@.map_values(|b: &S| *b) =~= Seq::<S>::empty());
    while i < ord.len()
        invariant
            limits@.map_values(|s: i64| s as int) == pol,
            pick(backups@, ord@) == items,
            forall|k: int| 0 <= k < ord@.len() ==> #[trigger] ord@[k] < backups@.len(),
            i <= ord@.len(),
            cursor <= limits@.len(),
            now == current_timestamp.instant(),
            retention_walk(*current_timestamp, pol, items.take(i as int)) == (
                bucket@.map_values(|b: &S| *b),
                cursor as nat,
                deleted@.map_values(|b: &S| *b),
            ),
        decreases ord@.len() - i,
    {
        let ghost prev = items.take(i as int);
        assert(items.take(i + 1).drop_last() =~= prev);
        assert(items.take(i + 1).last() == items[i as int]);
        let x: &'a S = backups[ord[i]];
        assert(*x == items[i as int]);
        let ghost old_bucket = bucket@.map_values(|b: &S| *b);
        let ghost old_deleted = deleted@.map_values(|b: &S| *b);
        if cursor < limits.len() && now - instant_of(x.timestamp()) > limits[cursor] as i128
            * 1_000_000_000 {
            assert(pol[cursor as int] == limits@[cursor as int]);
            if bucket.len() > 0 {
                bucket.pop();
                assert(bucket@.map_values(|b: &S| *b) =~= old_bucket.drop_last());
                deleted.append(&mut bucket);
                assert(deleted@.map_values(|b: &S| *b) =~= old_deleted + old_bucket.drop_last());
            }
            bucket.push(x);
            assert(bucket@.map_values(|b: &S| *b) =~= seq![*x]);
            cursor = cursor + 1;
        } else {
            proof {
                if cursor < limits.len() {
                    assert(pol[cursor as int] == limits@[cursor as int]);
                }
            }
            bucket.push(x);
            assert(bucket@.map_values(|b: &S| *b) =~= old_bucket.push(*x));
        }
        i = i + 1;
    }
    assert(items.take(i as int) =~= items);
    assert(limits@.len() == pol.len());
    if bucket.len() > 0 {
        let ghost old_bucket = bucket@.map_values(|b: &S| *b);
        let ghost old_deleted = deleted@.map_values(|b: &S| *b);
        if cursor >= limits.len() {
            bucket.remove(0);
            assert(bucket@.map_values(|b: &S| *b) =~= old_bucket.drop_first());
        } else {
            bucket.pop();
            assert(bucket@.map_values(|b: &S| *b) =~= old_bucket.drop_last());
        }
        deleted.append(&mut bucket);
        assert(deleted@.map_values(|b: &S| *b) =~= old_deleted + (if cursor >= limits.len() {
            old_bucket.drop_first()
        } else {
            old_bucket.drop_last()
        }));
    }
    Ok(deleted)
}

/// Whether the snapshots of `s` go from the newest to the oldest.
pub open spec fn is_newest_first<S: Snapshot>(s: Seq<S>) -> bool {
    forall|i: int, j: int|
        0 <= i < j < s.len() ==> (#[trigger] s[i]).spec_timestamp().instant() >= (
        #[trigger] s[j]).spec_timestamp().instant()
}

proof fn lemma_insert_sorted<S: Snapshot>(ord: Seq<S>, x: S)
    requires
        is_newest_first(ord),
    ensures
        is_newest_first(insert_newest_first(ord, x)),
        insert_newest_first(ord, x).len() == ord.len() + 1,
        forall|i: int|
            0 <= i < insert_newest_first(ord, x).len() ==> (#[trigger] insert_newest_first(
                ord,
                x,
            )[i] == x || ord.contains(insert_newest_first(ord, x)[i])),
    decreases ord.len(),
{
    let r = insert_newest_first(ord, x);
    if ord.len() == 0 {
    } else if ord[0].spec_timestamp().instant() <= x.spec_timestamp().instant() {
        assert forall|i: int, j: int| 0 <= i < j < r.len() implies (#[trigger] r[i]).spec_timestamp().instant()
            >= (#[trigger] r[j]).spec_timestamp().instant() by {
            if i > 0 {
                assert(r[i] == ord[i - 1] && r[j] == ord[j - 1]);
            } else {
                assert(r[j] == ord[j - 1]);
                if j > 1 {
                    assert(ord[0].spec_timestamp().instant() >= ord[j - 1].spec_timestamp().instant());
                }
            }
        }
        assert forall|i: int| 0 <= i < r.len() implies (#[trigger] r[i] == x || ord.contains(r[i])) by {
            if i > 0 {
                assert(r[i] == ord[i - 1]);
            }
        }
    } else {
        let rest = ord.drop_first();
        assert(is_newest_first(rest)) by {
            assert forall|i: int, j: int| 0 <= i < j < rest.len() implies (#[trigger] rest[i]).spec_timestamp().instant()
                >= (#[trigger] rest[j]).spec_timestamp().instant() by {
                assert(rest[i] == ord[i + 1] && rest[j] == ord[j + 1]);
            }
        }
        lemma_insert_sorted(rest, x);
        let t = insert_newest_first(rest, x);
        assert forall|i: int| 0 <= i < r.len() implies (#[trigger] r[i] == x || ord.contains(r[i])) by {
            if i > 0 {
                assert(r[i] == t[i - 1]);
                if t[i - 1] != x {
                    let k = choose|k: int| 0 <= k < rest.len() && rest[k] == t[i - 1];
                    assert(ord[k + 1] == r[i]);
                }
            }
        }
        assert forall|i: int, j: int| 0 <= i < j < r.len() implies (#[trigger] r[i]).spec_timestamp().instant()
            >= (#[trigger] r[j]).spec_timestamp().instant() by {
            if i > 0 {
                assert(r[i] == t[i - 1] && r[j] == t[j - 1]);
            } else {
                assert(r[j] == t[j - 1]);
                if t[j - 1] == x {
                } else {
                    let k = choose|k: int| 0 <= k < rest.len() && rest[k] == t[j - 1];
                    assert(ord[k + 1] == t[j - 1]);
                    assert(ord[0].spec_timestamp().instant() >= ord[k + 1].spec_timestamp().instant());
                }
            }
        }
    }
}

/// The snapshots that the walk visits go from the newest to the oldest.
pub proof fn lemma_newest_first_is_sorted<S: Snapshot>(backups: Seq<S>, suffix: Seq<char>)
    ensures
        is_newest_first(newest_first(backups, suffix)),
    decreases backups.len(),
{
    if backups.len() > 0 {
        lemma_newest_first_is_sorted(backups.drop_last(), suffix);
        if backups.last().spec_suffix() == suffix {
            lemma_insert_sorted(newest_first(backups.drop_last(), suffix), backups.last());
        }
    }
}

/// Whether every snapshot of `s` has suffix `suffix`.
pub open spec fn all_with_suffix<S: Snapshot>(s: Seq<S>, suffix: Seq<char>) -> bool {
    forall|i: int| 0 <= i < s.len() ==> (#[trigger] s[i]).spec_suffix() == suffix
}

proof fn lemma_insert_keeps_suffix<S: Snapshot>(ord: Seq<S>, x: S, suffix: Seq<char>)
    requires
        all_with_suffix(ord, suffix),
        x.spec_suffix() == suffix,
    ensures
        all_with_suffix(insert_newest_first(ord, x), suffix),
    decreases ord.len(),
{
    if ord.len() > 0 && ord[0].spec_timestamp().instant() > x.spec_timestamp().instant() {
        let rest = ord.drop_first();
        assert(all_with_suffix(rest, suffix)) by {
            assert forall|i: int| 0 <= i < rest.len() implies (#[trigger] rest[i]).spec_suffix()
                == suffix by {
                assert(rest[i] == ord[i + 1]);
            }
        }
        lemma_insert_keeps_suffix(rest, x, suffix);
        let r = seq![ord[0]] + insert_newest_first(rest, x);
        assert forall|i: int| 0 <= i < r.len() implies (#[trigger] r[i]).spec_suffix() == suffix by {
            if i > 0 {
                assert(r[i] == insert_newest_first(rest, x)[i - 1]);
            }
        }
    } else {
        let r = insert_newest_first(ord, x);
        assert forall|i: int| 0 <= i < r.len() implies (#[trigger] r[i]).spec_suffix() == suffix by {
            if i > 0 {
                assert(r[i] == ord[i - 1]);
            }
        }
    }
}

proof fn lemma_newest_first_suffix<S: Snapshot>(backups: Seq<S>, suffix: Seq<char>)
    ensures
        all_with_suffix(newest_first(backups, suffix), suffix),
    decreases backups.len(),
{
    if backups.len() > 0 {
        lemma_newest_first_suffix(backups.drop_last(), suffix);
        if backups.last().spec_suffix() == suffix {
            lemma_insert_keeps_suffix(
                newest_first(backups.drop_last(), suffix),
                backups.last(),
                suffix,
            );
        }
    }
}

proof fn lemma_walk_suffix<S: Snapshot>(
    now: Timestamp,
    policy: Seq<int>,
    items: Seq<S>,
    suffix: Seq<char>,
)
    requires
        all_with_suffix(items, suffix),
    ensures
        all_with_suffix(retention_walk(now, policy, items).0, suffix),
        all_with_suffix(retention_walk(now, policy, items).2, suffix),
    decreases items.len(),
{
    if items.len() > 0 {
        let prev = items.drop_last();
        assert(all_with_suffix(prev, suffix)) by {
            assert forall|i: int| 0 <= i < prev.len() implies (#[trigger] prev[i]).spec_suffix()
                == suffix by {
                assert(prev[i] == items[i]);
            }
        }
        lemma_walk_suffix(now, policy, prev, suffix);
        let (bucket, cursor, deleted) = retention_walk(now, policy, prev);
        let x = items.last();
        assert(x == items[items.len() - 1]);
        let (b2, c2, d2) = retention_walk(now, policy, items);
        assert forall|i: int| 0 <= i < b2.len() implies (#[trigger] b2[i]).spec_suffix()
            == suffix by {
            if i < bucket.len() && b2.len() == bucket.len() + 1 {
                assert(b2[i] == bucket[i]);
            }
        }
        assert forall|i: int| 0 <= i < d2.len() implies (#[trigger] d2[i]).spec_suffix()
            == suffix by {
            if i >= deleted.len() {
                assert(d2[i] == bucket.drop_last()[i - deleted.len()]);
            }
        }
    }
}

proof fn lemma_newest_first_filter<S: Snapshot>(backups: Seq<S>, suffix: Seq<char>)
    ensures
        newest_first(backups, suffix) == newest_first(
            backups.filter(|b: S| b.spec_suffix() == suffix),
            suffix,
        ),
    decreases backups.len(),
{
    reveal(Seq::filter);
    let pred = |b: S| b.spec_suffix() == suffix;
    if backups.len() > 0 {
        lemma_newest_first_filter(backups.drop_last(), suffix);
        let f = backups.filter(pred);
        let g = backups.drop_last().filter(pred);
        if pred(backups.last()) {
            assert(f == g.push(backups.last()));
            assert(f.drop_last() =~= g);
        } else {
            assert(f == g);
        }
    } else {
        assert(backups.filter(pred) == backups);
    }
}

/// Snapshots whose suffix is not the one policed take no part in the
/// retention: none of them is deleted, and taking them out of the list
/// changes nothing that is deleted.
pub proof fn lemma_other_suffixes_take_no_part<S: Snapshot>(
    now: Timestamp,
    policy: Seq<int>,
    backups: Seq<S>,
    suffix: Seq<char>,
)
    ensures
        all_with_suffix(backups_to_delete(now, policy, backups, suffix), suffix),
        backups_to_delete(now, policy, backups, suffix) == backups_to_delete(
            now,
            policy,
            backups.filter(|b: S| b.spec_suffix() == suffix),
            suffix,
        ),
{
    let items = newest_first(backups, suffix);
    lemma_newest_first_suffix(backups, suffix);
    lemma_walk_suffix(now, policy, items, suffix);
    lemma_newest_first_filter(backups, suffix);
    let (bucket, cursor, deleted) = retention_walk(now, policy, items);
    let r = backups_to_delete(now, policy, backups, suffix);
    assert forall|i: int| 0 <= i < r.len() implies (#[trigger] r[i]).spec_suffix() == suffix by {
        if i >= deleted.len() && bucket.len() > 0 {
            if cursor >= policy.len() {
                assert(r[i] == bucket[i - deleted.len() + 1]);
            } else {
                assert(r[i] == bucket[i - deleted.len()]);
            }
        }
    }
}

proof fn lemma_filter_none<S: Snapshot>(extra: Seq<S>, suffix: Seq<char>)
    requires
        forall|i: int| 0 <= i < extra.len() ==> (#[trigger] extra[i]).spec_suffix() != suffix,
    ensures
        extra.filter(|b: S| b.spec_suffix() == suffix) == Seq::<S>::empty(),
    decreases extra.len(),
{
    reveal(Seq::filter);
    if extra.len() > 0 {
        let prev = extra.drop_last();
        assert forall|i: int| 0 <= i < prev.len() implies (#[trigger] prev[i]).spec_suffix()
            != suffix by {
            assert(prev[i] == extra[i]);
        }
        lemma_filter_none(prev, suffix);
        assert(extra.last() == extra[extra.len() - 1]);
    } else {
        assert(extra.filter(|b: S| b.spec_suffix() == suffix) =~= Seq::<S>::empty());
    }
}

/// Adding snapshots of other suffixes to the list changes nothing that is
/// deleted.
pub proof fn lemma_extra_suffixes_change_nothing<S: Snapshot>(
    now: Timestamp,
    policy: Seq<int>,
    backups: Seq<S>,
    extra: Seq<S>,
    suffix: Seq<char>,
)
    requires
        forall|i: int| 0 <= i < extra.len() ==> (#[trigger] extra[i]).spec_suffix() != suffix,
    ensures
        backups_to_delete(now, policy, backups + extra, suffix) == backups_to_delete(
            now,
            policy,
            backups,
            suffix,
        ),
{
    let pred = |b: S| b.spec_suffix() == suffix;
    lemma_other_suffixes_take_no_part(now, policy, backups + extra, suffix);
    lemma_other_suffixes_take_no_part(now, policy, backups, suffix);
    Seq::filter_distributes_over_add(backups, extra, pred);
    lemma_filter_none(extra, suffix);
    assert((backups + extra).filter(pred) =~= backups.filter(pred));
}

} // verus!
