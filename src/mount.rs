use vstd::prelude::*;

use crate::actions::ActionsSystem;
use crate::command::LoggedCommand;
use crate::error::BackupError;
use crate::naming::first_index_of;
use crate::objects::MountInformation;
use crate::text::{
    chars_of, pieces, same_text, slice_of, split_lines, split_on, split_words, text_lines, views,
    words,
};

verus! {

/// What a mount entry holds, as characters.
pub struct MountView {
    pub device: Seq<char>,
    pub root: Seq<char>,
    pub mount_point: Seq<char>,
    pub fs_type: Seq<char>,
    pub properties: Seq<(Seq<char>, Option<Seq<char>>)>,
}

/// The view of an optional string.
pub open spec fn opt_view(o: Option<String>) -> Option<Seq<char>> {
    match o {
        Some(s) => Some(s@),
        None => None,
    }
}

/// The views of mount options.
pub open spec fn properties_view(p: Seq<(String, Option<String>)>) -> Seq<(Seq<char>, Option<Seq<char>>)> {
    p.map_values(|e: (String, Option<String>)| (e.0@, opt_view(e.1)))
}

impl View for MountInformation {
    type V = MountView;

    open spec fn view(&self) -> MountView {
        MountView {
            device: self.device@,
            root: self.root@,
            mount_point: self.mount_point@,
            fs_type: self.fs_type@,
            properties: properties_view(self.properties@),
        }
    }
}

/// The views of a sequence of mount entries.
pub open spec fn mount_views(v: Seq<MountInformation>) -> Seq<MountView> {
    v.map_values(|m: MountInformation| m@)
}

/// A mount option `key` or `key=value`, split at its first `=`.
pub open spec fn option_pair(o: Seq<char>) -> (Seq<char>, Option<Seq<char>>) {
    match first_index_of(o, '=') {
        Some(i) => (o.take(i), Some(o.skip(i + 1))),
        None => (o, None),
    }
}

/// The position of the first entry of `e` with key `k`.
pub open spec fn key_position(e: Seq<(Seq<char>, Option<Seq<char>>)>, k: Seq<char>) -> Option<int>
    decreases e.len(),
{
    if e.len() == 0 {
        None
    } else {
        match key_position(e.drop_last(), k) {
            Some(j) => Some(j),
            None => if e.last().0 == k {
                Some(e.len() - 1)
            } else {
                None
            },
        }
    }
}

/// The mapping that the options `opts` give, each key once, in the order in
/// which the keys first appear, with the value of the last option that
/// names it.
pub open spec fn option_entries(opts: Seq<Seq<char>>) -> Seq<(Seq<char>, Option<Seq<char>>)>
    decreases opts.len(),
{
    if opts.len() == 0 {
        Seq::empty()
    } else {
        let e = option_entries(opts.drop_last());
        let p = option_pair(opts.last());
        match key_position(e, p.0) {
            Some(j) => e.update(j, p),
            None => e.push(p),
        }
    }
}

/// Whether no two options of `p` share a key.
pub open spec fn keys_unique(p: Seq<(Seq<char>, Option<Seq<char>>)>) -> bool {
    forall|i: int, j: int| 0 <= i < j < p.len() ==> (#[trigger] p[i]).0 != (#[trigger] p[j]).0
}

impl MountInformation {
    /// A mount entry is well formed where each option key appears once.
    pub open spec fn well_formed(&self) -> bool {
        keys_unique(properties_view(self.properties@))
    }
}

proof fn lemma_key_position(e: Seq<(Seq<char>, Option<Seq<char>>)>, k: Seq<char>)
    ensures
        key_position(e, k) matches Some(j) ==> 0 <= j < e.len() && e[j].0 == k,
        key_position(e, k) is None ==> forall|i: int| 0 <= i < e.len() ==> (#[trigger] e[i]).0 != k,
    decreases e.len(),
{
    if e.len() > 0 {
        let prev = e.drop_last();
        lemma_key_position(prev, k);
        assert forall|i: int| 0 <= i < prev.len() implies prev[i] == e[i] by {}
        assert(e.last() == e[e.len() - 1]);
    }
}

/// The options of a mount entry name each key once.
pub proof fn lemma_option_keys_unique(opts: Seq<Seq<char>>)
    ensures
        keys_unique(option_entries(opts)),
    decreases opts.len(),
{
    if opts.len() > 0 {
        lemma_option_keys_unique(opts.drop_last());
        let e = option_entries(opts.drop_last());
        let p = option_pair(opts.last());
        lemma_key_position(e, p.0);
        let r = option_entries(opts);
        match key_position(e, p.0) {
            Some(j) => {
                assert forall|a: int, b: int| 0 <= a < b < r.len() implies (#[trigger] r[a]).0
                    != (#[trigger] r[b]).0 by {
                    assert(r[a].0 == e[a].0 && r[b].0 == e[b].0);
                }
            },
            None => {
                assert forall|a: int, b: int| 0 <= a < b < r.len() implies (#[trigger] r[a]).0
                    != (#[trigger] r[b]).0 by {
                    if b == e.len() {
                        assert(r[a] == e[a]);
                    } else {
                        assert(r[a] == e[a] && r[b] == e[b]);
                    }
                }
            },
        }
    }
}

/// The mount entry that the words `w` of a line describe: `root mountPoint
/// fsType device options`; or the position of the first field that is
/// missing.
pub open spec fn mount_entry(w: Seq<Seq<char>>) -> Result<MountView, nat> {
    if w.len() < 5 {
        Err(w.len())
    } else {
        Ok(
            MountView {
                root: w[0],
                mount_point: w[1],
                fs_type: w[2],
                device: w[3],
                properties: option_entries(pieces(w[4], ',')),
            },
        )
    }
}

/// The mount entries of the lines `lines`, empty lines skipped; or the field
/// that the first incomplete line lacks.
pub open spec fn mount_entries(lines: Seq<Seq<char>>) -> Result<Seq<MountView>, nat>
    decreases lines.len(),
{
    if lines.len() == 0 {
        Ok(Seq::empty())
    } else {
        match mount_entries(lines.drop_last()) {
            Err(k) => Err(k),
            Ok(v) => {
                let l = lines.last();
                if l.len() == 0 {
                    Ok(v)
                } else {
                    match mount_entry(words(l)) {
                        Err(k) => Err(k),
                        Ok(m) => Ok(v.push(m)),
                    }
                }
            },
        }
    }
}

/// The mount entries that a listing `text` describes; `None` where a line
/// lacks a field.
pub open spec fn mount_listing_of(text: Seq<char>) -> Option<Seq<MountView>> {
    match mount_entries(text_lines(text)) {
        Ok(v) => Some(v),
        Err(_) => None,
    }
}

/// The message for a missing field of a mount line.
pub open spec fn missing_field_message(k: nat) -> Seq<char> {
    if k == 0 {
        "could not find root"@
    } else if k == 1 {
        "could not find mount point"@
    } else if k == 2 {
        "could not find fs type"@
    } else if k == 3 {
        "could not find device"@
    } else {
        "could not find properties"@
    }
}

/// Finds the entry with key `k`.
fn find_key(e: &Vec<(String, Option<String>)>, k: &str) -> (r: Option<usize>)
    ensures
        match r {
            Some(j) => j < e@.len() && key_position(properties_view(e@), k@) == Some(j as int),
            None => key_position(properties_view(e@), k@) is None,
        },
{
    let ghost pv = properties_view(e@);
    let mut j: usize = 0;
    assert(pv.take(0) =~= Seq::<(Seq<char>, Option<Seq<char>>)>::empty());
    while j < e.len()
        invariant
            pv == properties_view(e@),
            j <= e@.len(),
            key_position(pv.take(j as int), k@) is None,
        decreases e@.len() - j,
    {
        assert(pv.take(j + 1).drop_last() =~= pv.take(j as int));
        if same_text(e[j].0.as_str(), k) {
            proof {
                lemma_key_position_prefix(pv, j + 1);
            }
            return Some(j);
        }
        j = j + 1;
    }
    assert(pv.take(j as int) =~= pv);
    None
}

proof fn lemma_key_position_prefix(e: Seq<(Seq<char>, Option<Seq<char>>)>, n: int)
    requires
        0 <= n <= e.len(),
        key_position(e.take(n), e[n - 1].0) is Some || n == 0,
    ensures
        n > 0 ==> key_position(e, e[n - 1].0) == key_position(e.take(n), e[n - 1].0),
    decreases e.len() - n,
{
    if n > 0 && n < e.len() {
        assert(e.take(n + 1).drop_last() =~= e.take(n));
        lemma_key_stays(e, e[n - 1].0, n + 1);
    } else if n > 0 {
        assert(e.take(n) =~= e);
    }
}

proof fn lemma_key_stays(e: Seq<(Seq<char>, Option<Seq<char>>)>, k: Seq<char>, n: int)
    requires
        1 <= n <= e.len(),
        key_position(e.take(n - 1), k) is Some,
    ensures
        key_position(e, k) == key_position(e.take(n - 1), k),
    decreases e.len() - n,
{
    assert(e.take(n).drop_last() =~= e.take(n - 1));
    if n < e.len() {
        lemma_key_stays(e, k, n + 1);
    } else {
        assert(e.take(n) =~= e);
    }
}

/// Splits a mount option at its first `=`.
fn split_option(o: &str) -> (r: (String, Option<String>))
    ensures
        (r.0@, opt_view(r.1)) == option_pair(o@),
{
    let cs = chars_of(o);
    let n = cs.len();
    let mut i: usize = 0;
    while i < n
        invariant
            cs@ == o@,
            n == o@.len(),
            i <= n,
            forall|k: int| 0 <= k < i ==> cs@[k] != '=',
        decreases n - i,
    {
        if cs[i] == '=' {
            proof {
                crate::naming::lemma_first_index_of(o@, '=', i as int);
            }
            let key = slice_of(o, 0, i);
            let value = slice_of(o, i + 1, n);
            assert(key@ =~= o@.take(i as int));
            assert(value@ =~= o@.skip(i + 1));
            return (key, Some(value));
        }
        i = i + 1;
    }
    proof {
        crate::naming::lemma_first_index_none(o@, '=');
    }
    (o.to_owned(), None)
}

/// The mapping of the comma-separated mount options `options`.
pub fn parse_options(options: &str) -> (r: Vec<(String, Option<String>)>)
    ensures
        properties_view(r@) == option_entries(pieces(options@, ',')),
        keys_unique(properties_view(r@)),
{
    proof {
        lemma_option_keys_unique(pieces(options@, ','));
    }
    let opts = split_on(options, ',');
    let ghost ov = views(opts@);
    let mut e: Vec<(String, Option<String>)> = Vec::new();
    let mut i: usize = 0;
    assert(ov.take(0) =~= Seq::<Seq<char>>::empty());
    assert(properties_view(e@) =~= Seq::<(Seq<char>, Option<Seq<char>>)>::empty());
    while i < opts.len()
        invariant
            ov == views(opts@),
            i <= opts@.len(),
            properties_view(e@) == option_entries(ov.take(i as int)),
        decreases opts@.len() - i,
    {
        assert(ov.take(i + 1).drop_last() =~= ov.take(i as int));
        assert(ov.take(i + 1).last() == opts@[i as int]@);
        let pair = split_option(opts[i].as_str());
        let ghost before = e@;
        match find_key(&e, pair.0.as_str()) {
            Some(j) => {
                e.set(j, pair);
                assert(properties_view(e@) =~= properties_view(before).update(
                    j as int,
                    option_pair(opts@[i as int]@),
                ));
            },
            None => {
                e.push(pair);
                assert(properties_view(e@) =~= properties_view(before).push(
                    option_pair(opts@[i as int]@),
                ));
            },
        }
        i = i + 1;
    }
    assert(ov.take(i as int) =~= ov);
    e
}

/// Once a prefix of the lines fails, the whole listing fails the same way.
proof fn lemma_mount_error_stays(lines: Seq<Seq<char>>, k: int)
    requires
        0 <= k <= lines.len(),
        mount_entries(lines.take(k)) is Err,
    ensures
        mount_entries(lines) == mount_entries(lines.take(k)),
    decreases lines.len() - k,
{
    if k < lines.len() {
        assert(lines.take(k + 1).drop_last() =~= lines.take(k));
        lemma_mount_error_stays(lines, k + 1);
    } else {
        assert(lines.take(k) =~= lines);
    }
}

/// The message for the missing field `k` of a mount line.
fn missing_field(k: usize) -> (r: String)
    ensures
        r@ == missing_field_message(k as nat),
{
    if k == 0 {
        String::from_str("could not find root")
    } else if k == 1 {
        String::from_str("could not find mount point")
    } else if k == 2 {
        String::from_str("could not find fs type")
    } else if k == 3 {
        String::from_str("could not find device")
    } else {
        String::from_str("could not find properties")
    }
}

/// Parses the output of `findmnt -lnv -o FSROOT,TARGET,FSTYPE,SOURCE,OPTIONS`:
/// one mount per non-empty line, `root mountPoint fsType device options`,
/// separated by white space, the options separated by commas. A line that
/// lacks a field fails the whole listing with a message naming the field.
pub fn parse_mount_information(output: &str) -> (r: Result<Vec<MountInformation>, BackupError>)
    ensures
        match r {
            Ok(v) => mount_entries(text_lines(output@)) == Ok::<Seq<MountView>, nat>(
                mount_views(v@),
            ),
            Err(BackupError::MountParsing(m)) => exists|k: nat|
                mount_entries(text_lines(output@)) == Err::<Seq<MountView>, nat>(k)
                    && m@ == missing_field_message(k),
            Err(_) => false,
        },
        match mount_listing_of(output@) {
            None => r is Err,
            Some(v) => r matches Ok(m) && mount_views(m@) == v,
        },
        r matches Ok(m) ==> forall|k: int| 0 <= k < m@.len() ==> (#[trigger] m@[k]).well_formed(),
{
    let lines = split_lines(output);
    let ghost lv = views(lines@);
    let mut entries: Vec<MountInformation> = Vec::new();
    let mut i: usize = 0;
    assert(lv.take(0) =~= Seq::<Seq<char>>::empty());
    assert(mount_views(entries@) =~= Seq::<MountView>::empty());
    while i < lines.len()
        invariant
            lv == views(lines@),
            lv == text_lines(output@),
            i <= lines@.len(),
            mount_entries(lv.take(i as int)) == Ok::<Seq<MountView>, nat>(mount_views(entries@)),
            forall|k: int| 0 <= k < entries@.len() ==> (#[trigger] entries@[k]).well_formed(),
        decreases lines@.len() - i,
    {
        let ghost next = lv.take(i + 1);
        assert(next.drop_last() =~= lv.take(i as int));
        assert(next.last() == lines@[i as int]@);
        let line = &lines[i];
        if line.unicode_len() > 0 {
            let w = split_words(line.as_str());
            if w.len() < 5 {
                let k = w.len();
                assert(mount_entries(next) == Err::<Seq<MountView>, nat>(k as nat));
                proof {
                    lemma_mount_error_stays(lv, i + 1);
                }
                return Err(BackupError::MountParsing(missing_field(k)));
            }
            let ghost before = entries@;
            assert(views(w@)[0] == w@[0]@);
            assert(views(w@)[1] == w@[1]@);
            assert(views(w@)[2] == w@[2]@);
            assert(views(w@)[3] == w@[3]@);
            assert(views(w@)[4] == w@[4]@);
            let m = MountInformation {
                root: w[0].clone(),
                mount_point: w[1].clone(),
                fs_type: w[2].clone(),
                device: w[3].clone(),
                properties: parse_options(w[4].as_str()),
            };
            entries.push(m);
            assert(mount_views(entries@) =~= mount_views(before).push(m@));
        }
        i = i + 1;
    }
    assert(lv.take(i as int) =~= lv);
    Ok(entries)
}

/// The pieces of a path that name something: those between slashes that
/// are neither empty nor `.`.
pub open spec fn keep_components(ps: Seq<Seq<char>>) -> Seq<Seq<char>>
    decreases ps.len(),
{
    if ps.len() == 0 {
        Seq::empty()
    } else {
        let c = keep_components(ps.drop_last());
        if ps.last().len() > 0 && ps.last() != "."@ {
            c.push(ps.last())
        } else {
            c
        }
    }
}

/// The components of the path `p`, with repeated slashes, a trailing slash
/// and `.` pieces left out.
pub open spec fn components(p: Seq<char>) -> Seq<Seq<char>> {
    keep_components(pieces(p, '/'))
}

/// Whether `p` starts at the root.
pub open spec fn is_absolute(p: Seq<char>) -> bool {
    p.len() > 0 && p[0] == '/'
}

/// Whether `root` is a leading part of `path`, whole components at a time.
pub open spec fn is_path_prefix(root: Seq<char>, path: Seq<char>) -> bool {
    &&& is_absolute(root) == is_absolute(path)
    &&& components(root).len() <= components(path).len()
    &&& components(path).take(components(root).len() as int) == components(root)
}

/// Components joined by single slashes.
pub open spec fn join_components(cs: Seq<Seq<char>>) -> Seq<char>
    decreases cs.len(),
{
    if cs.len() == 0 {
        Seq::empty()
    } else if cs.len() == 1 {
        cs[0]
    } else {
        join_components(cs.drop_last()) + seq!['/'] + cs.last()
    }
}

/// What is left of `path` after the leading part `root`, as a relative path.
pub open spec fn path_rest(path: Seq<char>, root: Seq<char>) -> Seq<char> {
    join_components(components(path).skip(components(root).len() as int))
}

/// The path `rest` below the directory `base`.
pub open spec fn join_path(base: Seq<char>, rest: Seq<char>) -> Seq<char> {
    if base.len() == 0 {
        rest
    } else if base.last() == '/' {
        base + rest
    } else {
        base + seq!['/'] + rest
    }
}

/// Whether the mount `m` of a btrfs filesystem on `device` exposes `path`.
pub open spec fn mount_matches(m: MountView, device: Seq<char>, path: Seq<char>) -> bool {
    m.fs_type == "btrfs"@ && m.device == device && is_path_prefix(m.root, path)
}

/// The position of the matching mount with the longest root; of several
/// with equally long roots, the last.
pub open spec fn best_mount(ms: Seq<MountView>, device: Seq<char>, path: Seq<char>) -> Option<int>
    decreases ms.len(),
{
    if ms.len() == 0 {
        None
    } else {
        let b = best_mount(ms.drop_last(), device, path);
        let k = ms.len() - 1;
        if mount_matches(ms[k], device, path) && (b is None || ms[b->0].root.len()
            <= ms[k].root.len()) {
            Some(k)
        } else {
            b
        }
    }
}

/// The operating-system path of the internal path `path` on `device`, through
/// the mount with the longest matching root.
pub open spec fn resolved_path(ms: Seq<MountView>, device: Seq<char>, path: Seq<char>) -> Option<
    Seq<char>,
> {
    match best_mount(ms, device, path) {
        None => None,
        Some(k) => Some(join_path(ms[k].mount_point, path_rest(path, ms[k].root))),
    }
}

/// The components of the path `p`.
fn components_of(p: &str) -> (r: Vec<String>)
    ensures
        views(r@) == components(p@),
{
    let ps = split_on(p, '/');
    let ghost pv = views(ps@);
    let mut out: Vec<String> = Vec::new();
    let mut i: usize = 0;
    assert(pv.take(0) =~= Seq::<Seq<char>>::empty());
    assert(views(out@) =~= Seq::<Seq<char>>::empty());
    while i < ps.len()
        invariant
            pv == views(ps@),
            pv == pieces(p@, '/'),
            i <= pv.len(),
            views(out@) == keep_components(pv.take(i as int)),
        decreases pv.len() - i,
    {
        assert(pv.take(i + 1).drop_last() =~= pv.take(i as int));
        assert(pv.take(i + 1).last() == ps@[i as int]@);
        let piece = &ps[i];
        if piece.unicode_len() > 0 && !same_text(piece.as_str(), ".") {
            let ghost before = out@;
            let c = piece.clone();
            out.push(c);
            assert(views(out@) =~= views(before).push(c@));
        }
        i = i + 1;
    }
    assert(pv.take(i as int) =~= pv);
    out
}

/// Whether `root` is a leading part of `path`, whole components at a time.
fn path_prefix(root: &str, path: &str) -> (r: bool)
    ensures
        r == is_path_prefix(root@, path@),
{
    let root_abs = root.unicode_len() > 0 && root.get_char(0) == '/';
    let path_abs = path.unicode_len() > 0 && path.get_char(0) == '/';
    if root_abs != path_abs {
        return false;
    }
    let rc = components_of(root);
    let pc = components_of(path);
    if rc.len() > pc.len() {
        return false;
    }
    let mut i: usize = 0;
    while i < rc.len()
        invariant
            views(rc@) == components(root@),
            views(pc@) == components(path@),
            rc@.len() <= pc@.len(),
            i <= rc@.len(),
            forall|k: int| 0 <= k < i ==> views(rc@)[k] == views(pc@)[k],
        decreases rc@.len() - i,
    {
        if !same_text(rc[i].as_str(), pc[i].as_str()) {
            assert(views(rc@)[i as int] != views(pc@)[i as int]);
            assert(components(path@).take(components(root@).len() as int)[i as int] != components(
                root@,
            )[i as int]);
            return false;
        }
        i = i + 1;
    }
    assert(components(path@).take(components(root@).len() as int) =~= components(root@));
    true
}

/// The components of `path` after the first `skip`, joined by slashes.
fn rest_of_path(path: &str, skip: usize) -> (r: String)
    requires
        skip <= components(path@).len(),
    ensures
        r@ == join_components(components(path@).skip(skip as int)),
{
    let pc = components_of(path);
    let ghost rest = components(path@).skip(skip as int);
    let mut r = String::new();
    if skip == pc.len() {
        assert(rest =~= Seq::<Seq<char>>::empty());
        return r;
    }
    let mut i: usize = skip;
    proof {
        reveal_strlit("/");
    }
    while i < pc.len()
        invariant
            views(pc@) == components(path@),
            rest == components(path@).skip(skip as int),
            skip < pc@.len(),
            skip <= i <= pc@.len(),
            r@ == join_components(rest.take(i - skip)),
        decreases pc@.len() - i,
    {
        let ghost part = rest.take(i - skip);
        assert(rest.take(i - skip + 1).drop_last() =~= part);
        assert(rest.take(i - skip + 1).last() == pc@[i as int]@);
        if i > skip {
            let ghost prev = r@;
            r = r.concat("/");
            r = r.concat(pc[i].as_str());
            proof {
                reveal_strlit("/");
            }
            assert("/"@ =~= seq!['/']);
            assert(r@ =~= prev + seq!['/'] + pc@[i as int]@);
        } else {
            r = r.concat(pc[i].as_str());
            assert(part =~= Seq::<Seq<char>>::empty());
            assert(r@ =~= pc@[i as int]@);
            assert(rest.take(1)[0] == pc@[i as int]@);
        }
        i = i + 1;
    }
    assert(rest.take(i - skip) =~= rest);
    r
}

/// The path `rest` below the directory `base`.
pub fn join_text(base: &str, rest: &str) -> (r: String)
    ensures
        r@ == join_path(base@, rest@),
{
    let n = base.unicode_len();
    if n == 0 {
        rest.to_owned()
    } else if base.get_char(n - 1) == '/' {
        base.to_owned().concat(rest)
    } else {
        proof {
            reveal_strlit("/");
        }
        let r = base.to_owned().concat("/").concat(rest);
        assert(r@ =~= base@ + seq!['/'] + rest@);
        r
    }
}

/// The position of the matching mount with the longest root.
fn find_best_mount(mount_information: &Vec<MountInformation>, device: &str, path: &str) -> (r:
    Option<usize>)
    ensures
        match r {
            Some(k) => k < mount_information@.len() && best_mount(
                mount_views(mount_information@),
                device@,
                path@,
            ) == Some(k as int),
            None => best_mount(mount_views(mount_information@), device@, path@) is None,
        },
{
    let ghost ms = mount_views(mount_information@);
    let mut best: Option<usize> = None;
    let mut best_len: usize = 0;
    let mut i: usize = 0;
    assert(ms.take(0) =~= Seq::<MountView>::empty());
    while i < mount_information.len()
        invariant
            ms == mount_views(mount_information@),
            i <= ms.len(),
            match best {
                Some(k) => k < i && best_mount(ms.take(i as int), device@, path@) == Some(k as int)
                    && best_len == ms[k as int].root.len(),
                None => best_mount(ms.take(i as int), device@, path@) is None,
            },
        decreases ms.len() - i,
    {
        let ghost next = ms.take(i + 1);
        assert(next.drop_last() =~= ms.take(i as int));
        assert(next[i as int] == ms[i as int]);
        let m = &mount_information[i];
        proof {
            reveal_strlit("btrfs");
        }
        let matches = same_text(m.fs_type.as_str(), "btrfs") && same_text(m.device.as_str(), device)
            && path_prefix(m.root.as_str(), path);
        let len = m.root.unicode_len();
        if matches && (best.is_none() || best_len <= len) {
            best = Some(i);
            best_len = len;
        }
        i = i + 1;
    }
    assert(ms.take(i as int) =~= ms);
    best
}

impl<C: LoggedCommand> ActionsSystem<C> {
    /// Resolves the internal path `btrfs_path` of a subvolume on `device` into
    /// the path through which the operating system reaches it: among the btrfs
    /// mounts of `device` whose root is a leading part of the path (whole
    /// components), the one with the longest root (the last of equally long
    /// ones) gives its mount point, below which the rest of the path is joined.
    /// Fails where no mount matches.
    pub fn btrfs_to_fs_path(
        mount_information: &Vec<MountInformation>,
        device: &str,
        btrfs_path: &str,
    ) -> (r: Result<String, BackupError>)
        ensures
            match r {
                Ok(p) => resolved_path(mount_views(mount_information@), device@, btrfs_path@)
                    == Some(p@),
                Err(e) => resolved_path(mount_views(mount_information@), device@, btrfs_path@) is None
                    && e is PathConversionError,
            },
    {
        match find_best_mount(mount_information, device, btrfs_path) {
            None => Err(BackupError::PathConversionError),
            Some(k) => {
                let m = &mount_information[k];
                let ghost ms = mount_views(mount_information@);
                assert(ms[k as int] == m@);
                proof {
                    lemma_best_mount_matches(ms, device@, btrfs_path@);
                }
                let root_components = components_of(m.root.as_str());
                let skip = root_components.len();
                assert(views(root_components@).len() == skip);
                let rest = rest_of_path(btrfs_path, skip);
                Ok(join_text(m.mount_point.as_str(), rest.as_str()))
            },
        }
    }
}

/// The chosen mount matches, and no matching mount has a longer root.
pub proof fn lemma_best_mount_matches(ms: Seq<MountView>, device: Seq<char>, path: Seq<char>)
    ensures
        best_mount(ms, device, path) matches Some(k) ==> 0 <= k < ms.len() && mount_matches(
            ms[k],
            device,
            path,
        ) && forall|j: int|
            0 <= j < ms.len() && mount_matches(#[trigger] ms[j], device, path) ==> ms[j].root.len()
                <= ms[k].root.len(),
        best_mount(ms, device, path) is None ==> forall|j: int|
            0 <= j < ms.len() ==> !mount_matches(#[trigger] ms[j], device, path),
    decreases ms.len(),
{
    if ms.len() > 0 {
        let prev = ms.drop_last();
        lemma_best_mount_matches(prev, device, path);
        assert forall|j: int| 0 <= j < prev.len() implies prev[j] == ms[j] by {}
    }
}

/// Where two mounts of the device both expose the path, the one with the
/// shorter root is never the one chosen: a path below `/sub` goes through
/// the mount of `/sub`, not through that of `/`.
pub proof fn lemma_shorter_root_never_chosen(
    ms: Seq<MountView>,
    device: Seq<char>,
    path: Seq<char>,
    i: int,
    j: int,
)
    requires
        0 <= i < ms.len(),
        0 <= j < ms.len(),
        mount_matches(ms[i], device, path),
        mount_matches(ms[j], device, path),
        ms[i].root.len() < ms[j].root.len(),
    ensures
        best_mount(ms, device, path) is Some,
        best_mount(ms, device, path) != Some(i),
{
    lemma_best_mount_matches(ms, device, path);
}

} // verus!
