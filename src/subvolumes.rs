use vstd::prelude::*;

use crate::error::BackupError;
use crate::objects::{parse_uuid, uuid_value, Subvolume, SubvolumeView};
use crate::text::{pieces, same_text, split_on, split_words, views, words};

verus! {

/// The header of a subvolume listing, split into words.
pub open spec fn listing_header() -> Seq<Seq<char>> {
    seq![
        "ID"@,
        "gen"@,
        "parent"@,
        "top"@,
        "level"@,
        "parent_uuid"@,
        "received_uuid"@,
        "uuid"@,
        "path"@,
    ]
}

/// `p` with a leading `/` added where it has none.
pub open spec fn absolute(p: Seq<char>) -> Seq<char> {
    if p.len() > 0 && p[0] == '/' {
        p
    } else {
        seq!['/'] + p
    }
}

/// The UUID in an optional UUID column: `-`, or any other text that is no
/// UUID, leaves it absent.
pub open spec fn optional_uuid(t: Seq<char>) -> Option<u128> {
    if t == "-"@ {
        None
    } else {
        uuid_value(t)
    }
}

/// The subvolume that a data line of eight columns `cols` describes, where
/// its `uuid` column holds the UUID `u`.
pub open spec fn listing_entry(cols: Seq<Seq<char>>, u: u128) -> SubvolumeView {
    SubvolumeView {
        btrfs_path: absolute(cols[7]),
        uuid: u,
        parent_uuid: optional_uuid(cols[4]),
        received_uuid: optional_uuid(cols[5]),
    }
}

/// Reads an optional UUID column.
fn parse_optional_uuid(t: &str) -> (r: Option<u128>)
    ensures
        r == optional_uuid(t@),
{
    if same_text(t, "-") {
        None
    } else {
        parse_uuid(t)
    }
}

/// The subvolumes that the data lines `lines` describe, in order, or the
/// first UUID column that holds no UUID. A line of other than eight columns
/// is skipped; the columns are `ID gen parent top_level parent_uuid
/// received_uuid uuid path`.
pub open spec fn listing_entries(lines: Seq<Seq<char>>) -> Result<Seq<SubvolumeView>, Seq<char>>
    decreases lines.len(),
{
    if lines.len() == 0 {
        Ok(Seq::empty())
    } else {
        match listing_entries(lines.drop_last()) {
            Err(t) => Err(t),
            Ok(v) => {
                let cols = words(lines.last());
                if cols.len() != 8 {
                    Ok(v)
                } else {
                    match uuid_value(cols[6]) {
                        None => Err(cols[6]),
                        Some(u) => Ok(v.push(listing_entry(cols, u))),
                    }
                }
            },
        }
    }
}

/// The data lines of a listing: all lines after the header and the
/// separator line.
pub open spec fn data_lines(text: Seq<char>) -> Seq<Seq<char>> {
    let lines = pieces(text, '\n');
    if lines.len() >= 2 {
        lines.skip(2)
    } else {
        Seq::empty()
    }
}

/// Whether the first line of `text` is the listing header.
pub open spec fn has_listing_header(text: Seq<char>) -> bool {
    words(pieces(text, '\n')[0]) == listing_header()
}

/// The subvolumes that a listing `text` describes; `None` where its header
/// is wrong or a `uuid` column holds no UUID.
pub open spec fn listing_of(text: Seq<char>) -> Option<Seq<SubvolumeView>> {
    if has_listing_header(text) {
        match listing_entries(data_lines(text)) {
            Ok(v) => Some(v),
            Err(_) => None,
        }
    } else {
        None
    }
}

/// The views of a sequence of subvolumes.
pub open spec fn subvolume_views(v: Seq<Subvolume>) -> Seq<SubvolumeView> {
    v.map_values(|s: Subvolume| s@)
}

/// Once a prefix of the lines fails, the whole listing fails the same way.
proof fn lemma_listing_error_stays(lines: Seq<Seq<char>>, k: int)
    requires
        0 <= k <= lines.len(),
        listing_entries(lines.take(k)) is Err,
    ensures
        listing_entries(lines) == listing_entries(lines.take(k)),
    decreases lines.len() - k,
{
    if k < lines.len() {
        assert(lines.take(k + 1).drop_last() =~= lines.take(k));
        lemma_listing_error_stays(lines, k + 1);
    } else {
        assert(lines.take(k) =~= lines);
    }
}

/// Whether `cols` is the listing header.
fn is_listing_header(cols: &Vec<String>) -> (r: bool)
    ensures
        r == (views(cols@) == listing_header()),
{
    let r = cols.len() == 9 && same_text(cols[0].as_str(), "ID") && same_text(
        cols[1].as_str(),
        "gen",
    ) && same_text(cols[2].as_str(), "parent") && same_text(cols[3].as_str(), "top")
        && same_text(cols[4].as_str(), "level") && same_text(cols[5].as_str(), "parent_uuid")
        && same_text(cols[6].as_str(), "received_uuid") && same_text(cols[7].as_str(), "uuid")
        && same_text(cols[8].as_str(), "path");
    proof {
        if r {
            assert(views(cols@) =~= listing_header());
        } else if views(cols@) == listing_header() {
            assert(views(cols@).len() == cols@.len());
            assert(listing_header().len() == 9);
            assert(cols@[0]@ == views(cols@)[0]);
            assert(cols@[1]@ == views(cols@)[1]);
            assert(cols@[2]@ == views(cols@)[2]);
            assert(cols@[3]@ == views(cols@)[3]);
            assert(cols@[4]@ == views(cols@)[4]);
            assert(cols@[5]@ == views(cols@)[5]);
            assert(cols@[6]@ == views(cols@)[6]);
            assert(cols@[7]@ == views(cols@)[7]);
            assert(cols@[8]@ == views(cols@)[8]);
        }
    }
    r
}

/// `p` with a leading `/` added where it has none.
fn make_absolute(p: &str) -> (r: String)
    ensures
        r@ == absolute(p@),
{
    let n = p.unicode_len();
    if n > 0 && p.get_char(0) == '/' {
        p.to_owned()
    } else {
        proof {
            reveal_strlit("/");
        }
        let r = String::from_str("/").concat(p);
        assert(r@ =~= seq!['/'] + p@);
        r
    }
}

/// Parses the output of `btrfs subvolume list -tupqR`: a header line that
/// must be exactly `ID gen parent top level parent_uuid received_uuid uuid
/// path`, a separator line, and one line per subvolume. A data line of other
/// than eight columns is skipped; `-` or any other non-UUID in the parent or
/// received column leaves that UUID absent; a non-UUID in the `uuid` column
/// fails the whole listing.
pub fn parse_subvolume_list(output: &str) -> (r: Result<Vec<Subvolume>, BackupError>)
    ensures
        match r {
            Ok(v) => has_listing_header(output@) && listing_entries(data_lines(output@))
                == Ok::<Seq<SubvolumeView>, Seq<char>>(subvolume_views(v@)),
            Err(BackupError::SubvolumeParsing(_)) => !has_listing_header(output@),
            Err(BackupError::Uuid(t)) => has_listing_header(output@) && listing_entries(data_lines(output@))
                == Err::<Seq<SubvolumeView>, Seq<char>>(t@),
            Err(_) => false,
        },
        match listing_of(output@) {
            None => r is Err,
            Some(v) => r matches Ok(s) && subvolume_views(s@) == v,
        },
{
    let lines = split_on(output, '\n');
    proof {
        crate::text::lemma_pieces_nonempty(output@, '\n');
    }
    let header = split_words(lines[0].as_str());
    assert(views(lines@)[0] == lines@[0]@);
    if !is_listing_header(&header) {
        return Err(BackupError::SubvolumeParsing(String::from_str("unexpected header line")));
    }
    let ghost data = data_lines(output@);
    let mut subvolumes: Vec<Subvolume> = Vec::new();
    let mut i: usize = 2;
    if lines.len() < 2 {
        i = lines.len();
    }
    let ghost first = i;
    assert(data.len() == lines@.len() - first);
    assert(data.take(0) =~= Seq::<Seq<char>>::empty());
    assert(subvolume_views(subvolumes@) =~= Seq::<SubvolumeView>::empty());
    while i < lines.len()
        invariant
            views(lines@) == pieces(output@, '\n'),
            has_listing_header(output@),
            data == data_lines(output@),
            first <= i <= lines@.len(),
            data.len() == lines@.len() - first,
            forall|k: int| 0 <= k < data.len() ==> data[k] == #[trigger] lines@[k + first]@,
            listing_entries(data.take(i - first)) == Ok::<Seq<SubvolumeView>, Seq<char>>(
                subvolume_views(subvolumes@),
            ),
        decreases lines@.len() - i,
    {
        let ghost seen = data.take(i - first);
        let ghost next = data.take(i - first + 1);
        assert(next.drop_last() =~= seen);
        assert(data[i - first] == lines@[(i - first) + first]@);
        assert(next.last() == lines@[i as int]@);
        let cols = split_words(lines[i].as_str());
        if cols.len() == 8 {
            match parse_uuid(cols[6].as_str()) {
                None => {
                    assert(views(cols@)[6] == cols@[6]@);
                    assert(listing_entries(next) == Err::<Seq<SubvolumeView>, Seq<char>>(
                        cols@[6]@,
                    ));
                    proof {
                        lemma_listing_error_stays(data, i - first + 1);
                    }
                    let t = cols[6].clone();
                    assert(has_listing_header(output@));
                    assert(listing_entries(data_lines(output@)) == Err::<
                        Seq<SubvolumeView>,
                        Seq<char>,
                    >(t@));
                    return Err(BackupError::Uuid(t));
                },
                Some(uuid) => {
                    let ghost before = subvolumes@;
                    let sv = Subvolume {
                        btrfs_path: make_absolute(cols[7].as_str()),
                        uuid,
                        parent_uuid: parse_optional_uuid(cols[4].as_str()),
                        received_uuid: parse_optional_uuid(cols[5].as_str()),
                    };
                    assert(views(cols@)[4] == cols@[4]@);
                    assert(views(cols@)[5] == cols@[5]@);
                    assert(views(cols@)[6] == cols@[6]@);
                    assert(views(cols@)[7] == cols@[7]@);
                    subvolumes.push(sv);
                    assert(subvolume_views(subvolumes@) =~= subvolume_views(before).push(sv@));
                },
            }
        }
        i = i + 1;
    }
    assert(data.take(i - first) =~= data);
    Ok(subvolumes)
}

/// A listing whose every data line has eight columns and a UUID in its `uuid`
/// column gives exactly one subvolume per line, in order: the path with a
/// leading `/`, the UUID, and the parent and received UUIDs, absent where the
/// column holds `-`.
pub proof fn lemma_one_subvolume_per_line(lines: Seq<Seq<char>>)
    requires
        forall|k: int|
            0 <= k < lines.len() ==> (#[trigger] words(lines[k])).len() == 8 && uuid_value(
                words(lines[k])[6],
            ) is Some,
    ensures
        listing_entries(lines) is Ok,
        listing_entries(lines)->Ok_0.len() == lines.len(),
        forall|k: int|
            0 <= k < lines.len() ==> {
                let cols = #[trigger] words(lines[k]);
                let e = listing_entries(lines)->Ok_0[k];
                &&& e.btrfs_path == absolute(cols[7])
                &&& Some(e.uuid) == uuid_value(cols[6])
                &&& (cols[4] == "-"@ ==> e.parent_uuid is None)
                &&& (cols[5] == "-"@ ==> e.received_uuid is None)
                &&& (cols[4] != "-"@ ==> e.parent_uuid == uuid_value(cols[4]))
                &&& (cols[5] != "-"@ ==> e.received_uuid == uuid_value(cols[5]))
            },
    decreases lines.len(),
{
    if lines.len() > 0 {
        let prev = lines.drop_last();
        assert forall|k: int| 0 <= k < prev.len() implies (#[trigger] words(prev[k])).len() == 8
            && uuid_value(words(prev[k])[6]) is Some by {
            assert(prev[k] == lines[k]);
            assert(words(lines[k]).len() == 8);
        }
        lemma_one_subvolume_per_line(prev);
        let last = lines.len() - 1;
        assert(lines.last() == lines[last]);
        assert(words(lines[last]).len() == 8);
        let r = listing_entries(lines)->Ok_0;
        assert forall|k: int| 0 <= k < lines.len() implies {
            let cols = #[trigger] words(lines[k]);
            let e = listing_entries(lines)->Ok_0[k];
            &&& e.btrfs_path == absolute(cols[7])
            &&& Some(e.uuid) == uuid_value(cols[6])
            &&& (cols[4] == "-"@ ==> e.parent_uuid is None)
            &&& (cols[5] == "-"@ ==> e.received_uuid is None)
            &&& (cols[4] != "-"@ ==> e.parent_uuid == uuid_value(cols[4]))
            &&& (cols[5] != "-"@ ==> e.received_uuid == uuid_value(cols[5]))
        } by {
            if k < last {
                assert(prev[k] == lines[k]);
                assert(words(prev[k]).len() == 8);
            }
        }
    }
}

} // verus!
