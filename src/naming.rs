use vstd::prelude::*;

use crate::error::CustomError;
use crate::text::{chars_of, pieces, slice_of, split_on, views};

verus! {

/// The first second of the year 0 (UTC), in seconds since the Unix epoch.
pub const EARLIEST_SECONDS: i64 = -62167219200;

/// The last second of the year 9999 (UTC), in seconds since the Unix epoch.
pub const LATEST_SECONDS: i64 = 253402300799;

/// An instant: whole seconds since the Unix epoch (UTC) and the nanoseconds
/// past that second.
#[derive(Debug, Clone, Copy, PartialEq, Eq)]
pub struct Timestamp {
    pub seconds: i64,
    pub nanos: u32,
}

impl Timestamp {
    /// The instant in nanoseconds since the Unix epoch.
    pub open spec fn instant(self) -> int {
        self.seconds * 1_000_000_000 + self.nanos
    }

    /// The instant `seconds` whole seconds after the Unix epoch.
    pub fn from_seconds(seconds: i64) -> (r: Timestamp)
        ensures
            r.seconds == seconds,
            r.nanos == 0,
    {
        Timestamp { seconds, nanos: 0 }
    }
}

/// The RFC 3339 text (UTC, whole seconds, `Z` for the offset) of the instant
/// `seconds` after the Unix epoch.
pub uninterp spec fn rfc3339_text(seconds: i64) -> Seq<char>;

/// The instant that an RFC 3339 text denotes, as seconds since the Unix epoch
/// and nanoseconds past that second; `None` where the text is no RFC 3339
/// date and time.
pub uninterp spec fn rfc3339_instant(s: Seq<char>) -> Option<(i64, u32)>;

/// Relies on chrono's `DateTime::to_rfc3339_opts(SecondsFormat::Secs, true)`
/// of `DateTime::<Utc>::from_timestamp(seconds, 0)`: for a year from 0 to 9999
/// it writes four year digits and then `-MM-DDTHH:MM:SSZ` (only digits, `-`,
/// `T`, `:` and `Z`), which `DateTime::parse_from_rfc3339` reads back as the
/// same instant.
#[verifier::external_body]
fn format_rfc3339(seconds: i64) -> (r: String)
    requires
        EARLIEST_SECONDS <= seconds <= LATEST_SECONDS,
    ensures
        r@ == rfc3339_text(seconds),
        r@.len() > 0,
        !r@.contains('_'),
        !r@.contains('/'),
        rfc3339_instant(r@) == Some((seconds, 0u32)),
{
    chrono::DateTime::from_timestamp(seconds, 0).unwrap().to_rfc3339_opts(
        chrono::SecondsFormat::Secs,
        true,
    )
}

/// Relies on chrono's `DateTime::parse_from_rfc3339`, converted to seconds
/// and nanoseconds since the Unix epoch by `timestamp` and
/// `timestamp_subsec_nanos`.
#[verifier::external_body]
fn parse_rfc3339(s: &str) -> (r: Option<Timestamp>)
    ensures
        r is None <==> rfc3339_instant(s@) is None,
        r matches Some(t) ==> rfc3339_instant(s@) == Some((t.seconds, t.nanos)),
{
    chrono::DateTime::parse_from_rfc3339(s).ok().map(
        |d| Timestamp { seconds: d.timestamp(), nanos: d.timestamp_subsec_nanos() },
    )
}

/// The last non-empty piece of `ps`.
pub open spec fn last_nonempty(ps: Seq<Seq<char>>) -> Option<Seq<char>>
    decreases ps.len(),
{
    if ps.len() == 0 {
        None
    } else if ps.last().len() > 0 {
        Some(ps.last())
    } else {
        last_nonempty(ps.drop_last())
    }
}

/// The last component of a path: its last non-empty piece between slashes.
pub open spec fn last_component(path: Seq<char>) -> Option<Seq<char>> {
    last_nonempty(pieces(path, '/'))
}

/// The position of the first `c` in `s`.
pub open spec fn first_index_of(s: Seq<char>, c: char) -> Option<int>
    decreases s.len(),
{
    if s.len() == 0 {
        None
    } else if s[0] == c {
        Some(0)
    } else {
        match first_index_of(s.drop_first(), c) {
            Some(i) => Some(i + 1),
            None => None,
        }
    }
}

/// The two parts of a snapshot name in the last component of `path`: what
/// stands before its first `_`, and what stands after it.
pub open spec fn name_parts(path: Seq<char>) -> Option<(Seq<char>, Seq<char>)> {
    match last_component(path) {
        None => None,
        Some(name) => match first_index_of(name, '_') {
            None => None,
            Some(i) => Some((name.take(i), name.skip(i + 1))),
        },
    }
}

/// The instant and the suffix that the last component of `path` encodes.
pub open spec fn decoded_name(path: Seq<char>) -> Option<((i64, u32), Seq<char>)> {
    match name_parts(path) {
        None => None,
        Some((text, suffix)) => match rfc3339_instant(text) {
            None => None,
            Some(t) => Some((t, suffix)),
        },
    }
}

/// The snapshot name for the instant `t` and `suffix`:
/// `<RFC 3339 UTC timestamp, whole seconds>_<suffix>`.
pub open spec fn encoded_name(t: Timestamp, suffix: Seq<char>) -> Seq<char> {
    rfc3339_text(t.seconds) + seq!['_'] + suffix
}

/// Builds the snapshot name for `t` and `suffix`; the part of `t` below a
/// second is not written.
///
/// Decoding the name gives back the instant (to the second) and the suffix,
/// where the suffix holds no `/`.
pub fn encode_snapshot_name(t: &Timestamp, suffix: &str) -> (r: String)
    requires
        EARLIEST_SECONDS <= t.seconds <= LATEST_SECONDS,
    ensures
        r@ == encoded_name(*t, suffix@),
        !suffix@.contains('/') ==> decoded_name(r@) == Some(((t.seconds, 0u32), suffix@)),
{
    let mut r = format_rfc3339(t.seconds);
    let ghost text = r@;
    proof {
        reveal_strlit("_");
    }
    r.append("_");
    r.append(suffix);
    assert("_"@ =~= seq!['_']);
    assert(r@ =~= text + seq!['_'] + suffix@);
    proof {
        if !suffix@.contains('/') {
            lemma_name_parts_of(text, suffix@);
        }
    }
    r
}

proof fn lemma_pieces_without_sep(s: Seq<char>, sep: char)
    requires
        !s.contains(sep),
    ensures
        pieces(s, sep) == seq![s],
    decreases s.len(),
{
    if s.len() > 0 {
        assert(!s.drop_last().contains(sep)) by {
            if s.drop_last().contains(sep) {
                let k = choose|k: int| 0 <= k < s.drop_last().len() && s.drop_last()[k] == sep;
                assert(s[k] == sep);
            }
        }
        lemma_pieces_without_sep(s.drop_last(), sep);
        assert(s.last() != sep) by {
            assert(s[s.len() - 1] == s.last());
        }
        assert(s.drop_last().push(s.last()) =~= s);
        assert(seq![s.drop_last()].update(0, s.drop_last().push(s.last())) =~= seq![s]);
    } else {
        assert(s =~= Seq::<char>::empty());
    }
}

/// Where `text` holds no `_` and neither part holds a `/`, the name
/// `<text>_<suffix>` splits back into `text` and `suffix`.
proof fn lemma_name_parts_of(text: Seq<char>, suffix: Seq<char>)
    requires
        text.len() > 0,
        !text.contains('_'),
        !text.contains('/'),
        !suffix.contains('/'),
    ensures
        name_parts(text + seq!['_'] + suffix) == Some((text, suffix)),
{
    let name = text + seq!['_'] + suffix;
    assert(!name.contains('/')) by {
        if name.contains('/') {
            let k = choose|k: int| 0 <= k < name.len() && name[k] == '/';
            if k < text.len() {
                assert(text[k] == '/');
            } else if k > text.len() {
                assert(suffix[k - text.len() - 1] == '/');
            }
        }
    }
    lemma_pieces_without_sep(name, '/');
    assert(seq![name].last() == name);
    assert forall|k: int| 0 <= k < text.len() implies name[k] != '_' by {
        assert(name[k] == text[k]);
        if text[k] == '_' {
            assert(text.contains('_'));
        }
    }
    lemma_first_index_of(name, '_', text.len() as int);
    assert(name.take(text.len() as int) =~= text);
    assert(name.skip(text.len() as int + 1) =~= suffix);
}

/// Finds the last non-empty piece of `ps`.
fn find_last_nonempty(ps: &Vec<String>) -> (r: Option<usize>)
    ensures
        match r {
            Some(i) => i < ps@.len() && last_nonempty(views(ps@)) == Some(ps@[i as int]@),
            None => last_nonempty(views(ps@)) is None,
        },
{
    let mut k: usize = ps.len();
    assert(views(ps@).take(k as int) =~= views(ps@));
    while k > 0
        invariant
            k <= ps@.len(),
            last_nonempty(views(ps@)) == last_nonempty(views(ps@).take(k as int)),
        decreases k,
    {
        let ghost t = views(ps@).take(k as int);
        assert(t.drop_last() =~= views(ps@).take(k - 1));
        if ps[k - 1].unicode_len() > 0 {
            return Some(k - 1);
        }
        k = k - 1;
    }
    assert(views(ps@).take(0) =~= Seq::<Seq<char>>::empty());
    None
}

/// Finds the first `c` in `s`.
fn find_first(s: &str, c: char) -> (r: Option<usize>)
    ensures
        match r {
            Some(i) => first_index_of(s@, c) == Some(i as int),
            None => first_index_of(s@, c) is None,
        },
{
    let cs = chars_of(s);
    let mut i: usize = 0;
    while i < cs.len()
        invariant
            cs@ == s@,
            i <= cs@.len(),
            forall|k: int| 0 <= k < i ==> cs@[k] != c,
        decreases cs@.len() - i,
    {
        if cs[i] == c {
            proof {
                lemma_first_index_of(s@, c, i as int);
            }
            return Some(i);
        }
        i = i + 1;
    }
    proof {
        lemma_first_index_none(s@, c);
    }
    None
}

pub(crate) proof fn lemma_first_index_of(s: Seq<char>, c: char, i: int)
    requires
        0 <= i < s.len(),
        s[i] == c,
        forall|k: int| 0 <= k < i ==> s[k] != c,
    ensures
        first_index_of(s, c) == Some(i),
    decreases i,
{
    if i > 0 {
        lemma_first_index_of(s.drop_first(), c, i - 1);
    }
}

pub(crate) proof fn lemma_first_index_none(s: Seq<char>, c: char)
    requires
        forall|k: int| 0 <= k < s.len() ==> s[k] != c,
    ensures
        first_index_of(s, c) is None,
    decreases s.len(),
{
    if s.len() > 0 {
        lemma_first_index_none(s.drop_first(), c);
    }
}

/// Reads the instant and the suffix from the last component of `path`, which
/// must be `<RFC 3339 timestamp>_<suffix>`; the suffix is everything after
/// the first `_`.
pub fn decode_snapshot_name(path: &str) -> (r: Result<(Timestamp, String), CustomError>)
    ensures
        match r {
            Ok((t, suffix)) => decoded_name(path@) == Some(((t.seconds, t.nanos), suffix@)),
            Err(e) => decoded_name(path@) is None && e is ExtractionError,
        },
{
    let ps = split_on(path, '/');
    let name = match find_last_nonempty(&ps) {
        Some(i) => &ps[i],
        None => {
            return Err(
                CustomError::ExtractionError(
                    String::from_str("could not extract last path component"),
                ),
            );
        },
    };
    let n = name.unicode_len();
    let sep = match find_first(name.as_str(), '_') {
        Some(i) => i,
        None => {
            return Err(
                CustomError::ExtractionError(
                    String::from_str("could not find date part of backup name"),
                ),
            );
        },
    };
    proof {
        lemma_first_index_bound(name@, '_');
    }
    let text = slice_of(name.as_str(), 0, sep);
    let suffix = slice_of(name.as_str(), sep + 1, n);
    assert(text@ =~= name@.take(sep as int));
    assert(suffix@ =~= name@.skip(sep + 1));
    match parse_rfc3339(text.as_str()) {
        Some(t) => Ok((t, suffix)),
        None => Err(
            CustomError::ExtractionError(String::from_str("could not parse the timestamp")),
        ),
    }
}

proof fn lemma_first_index_bound(s: Seq<char>, c: char)
    ensures
        first_index_of(s, c) matches Some(i) ==> 0 <= i < s.len() && s[i] == c,
    decreases s.len(),
{
    if s.len() > 0 {
        lemma_first_index_bound(s.drop_first(), c);
    }
}

} // verus!
