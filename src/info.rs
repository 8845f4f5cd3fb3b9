use vstd::prelude::*;

use crate::error::BackupError;
use crate::naming::first_index_of;
use crate::objects::{parse_uuid, uuid_value, SubvolumeInfo};
use crate::subvolumes::absolute;
use crate::text::{same_text, slice_of, split_lines, text_lines, trim, trimmed, views};

verus! {

/// The key and the value of a line `key: value`, split at the first `:` and
/// trimmed; `None` where the line has no `:`.
pub open spec fn key_value(l: Seq<char>) -> Option<(Seq<char>, Seq<char>)> {
    match first_index_of(l, ':') {
        None => None,
        Some(i) => Some((trim(l.take(i)), trim(l.skip(i + 1)))),
    }
}

/// The value of the first of `lines` whose key is `UUID`.
pub open spec fn uuid_field(lines: Seq<Seq<char>>) -> Option<Seq<char>>
    decreases lines.len(),
{
    if lines.len() == 0 {
        None
    } else {
        match uuid_field(lines.drop_last()) {
            Some(v) => Some(v),
            None => match key_value(lines.last()) {
                Some(kv) => if kv.0 == "UUID"@ {
                    Some(kv.1)
                } else {
                    None
                },
                None => None,
            },
        }
    }
}

/// What the output of a point lookup says of a subvolume: its path within
/// the subvolume tree (the first line, trimmed, with a leading `/`) and the
/// text of its `UUID` field; `None` where it has no first line or no such
/// field.
pub open spec fn info_fields(text: Seq<char>) -> Option<(Seq<char>, Seq<char>)> {
    let ls = text_lines(text);
    if ls.len() == 0 {
        None
    } else {
        match uuid_field(ls.skip(1)) {
            None => None,
            Some(v) => Some((absolute(trim(ls[0])), v)),
        }
    }
}

/// The path and the UUID that the output of a point lookup gives; `None`
/// where it gives no path, no `UUID` field, or a field that is no UUID.
pub open spec fn info_of(text: Seq<char>) -> Option<(Seq<char>, u128)> {
    match info_fields(text) {
        None => None,
        Some((p, u)) => match uuid_value(u) {
            None => None,
            Some(x) => Some((p, x)),
        },
    }
}

/// Splits a line `key: value` at its first `:`.
fn split_key_value(l: &str) -> (r: Option<(String, String)>)
    ensures
        match r {
            Some((k, v)) => key_value(l@) == Some((k@, v@)),
            None => key_value(l@) is None,
        },
{
    let cs = crate::text::chars_of(l);
    let n = cs.len();
    let mut i: usize = 0;
    while i < n
        invariant
            cs@ == l@,
            n == l@.len(),
            i <= n,
            forall|k: int| 0 <= k < i ==> cs@[k] != ':',
        decreases n - i,
    {
        if cs[i] == ':' {
            proof {
                crate::naming::lemma_first_index_of(l@, ':', i as int);
            }
            let key = slice_of(l, 0, i);
            let value = slice_of(l, i + 1, n);
            assert(key@ =~= l@.take(i as int));
            assert(value@ =~= l@.skip(i + 1));
            return Some((trimmed(key.as_str()), trimmed(value.as_str())));
        }
        i = i + 1;
    }
    proof {
        crate::naming::lemma_first_index_none(l@, ':');
    }
    None
}

proof fn lemma_uuid_field_stays(lines: Seq<Seq<char>>, n: int)
    requires
        0 <= n <= lines.len(),
        uuid_field(lines.take(n)) is Some,
    ensures
        uuid_field(lines) == uuid_field(lines.take(n)),
    decreases lines.len() - n,
{
    if n < lines.len() {
        assert(lines.take(n + 1).drop_last() =~= lines.take(n));
        lemma_uuid_field_stays(lines, n + 1);
    } else {
        assert(lines.take(n) =~= lines);
    }
}

/// Parses the output of `btrfs subvolume show <fs_path>`: the first line is
/// the path within the subvolume tree (a leading `/` is added where it has
/// none), and the first line whose key is `UUID` gives the UUID.
pub fn parse_subvolume_info(output: &str, fs_path: &str) -> (r: Result<SubvolumeInfo, BackupError>)
    ensures
        match r {
            Ok(info) => info_fields(output@) matches Some((path, u)) && info.btrfs_path@ == path
                && info.fs_path@ == fs_path@ && uuid_value(u) == Some(info.uuid),
            Err(BackupError::SubvolumeInfoParsing(_)) => info_fields(output@) is None,
            Err(BackupError::Uuid(t)) => info_fields(output@) matches Some((path, u)) && t@ == u
                && uuid_value(u) is None,
            Err(_) => false,
        },
        match info_of(output@) {
            None => r is Err,
            Some((p, u)) => r matches Ok(i) && i.btrfs_path@ == p && i.fs_path@ == fs_path@
                && i.uuid == u,
        },
{
    let lines = split_lines(output);
    let ghost lv = views(lines@);
    if lines.len() == 0 {
        return Err(
            BackupError::SubvolumeInfoParsing(String::from_str("could not find first line")),
        );
    }
    assert(lv[0] == lines@[0]@);
    let first = trimmed(lines[0].as_str());
    let btrfs_path = if first.unicode_len() > 0 && first.as_str().get_char(0) == '/' {
        first
    } else {
        proof {
            reveal_strlit("/");
        }
        let p = String::from_str("/").concat(first.as_str());
        assert(p@ =~= seq!['/'] + first@);
        p
    };
    let ghost rest = lv.skip(1);
    let mut i: usize = 1;
    assert(rest.take(0) =~= Seq::<Seq<char>>::empty());
    while i < lines.len()
        invariant
            lv == views(lines@),
            lv == text_lines(output@),
            lv.len() >= 1,
            rest == lv.skip(1),
            1 <= i <= lv.len(),
            uuid_field(rest.take(i - 1)) is None,
            btrfs_path@ == absolute(trim(lv[0])),
        decreases lv.len() - i,
    {
        let ghost next = rest.take(i as int);
        assert(next.drop_last() =~= rest.take(i - 1));
        assert(next.last() == lines@[i as int]@);
        match split_key_value(lines[i].as_str()) {
            Some((key, value)) => {
                if same_text(key.as_str(), "UUID") {
                    assert(uuid_field(next) == Some(value@));
                    proof {
                        lemma_uuid_field_stays(rest, i as int);
                    }
                    return match parse_uuid(value.as_str()) {
                        Some(uuid) => Ok(
                            SubvolumeInfo { btrfs_path, fs_path: fs_path.to_owned(), uuid },
                        ),
                        None => Err(BackupError::Uuid(value)),
                    };
                }
            },
            None => {},
        }
        i = i + 1;
    }
    assert(rest.take(i - 1) =~= rest);
    Err(BackupError::SubvolumeInfoParsing(String::from_str("could not find UUID of subvolume")))
}

} // verus!
