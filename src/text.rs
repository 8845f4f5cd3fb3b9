use vstd::prelude::*;

verus! {

/// The pieces of `s` between occurrences of `sep`, empty pieces included:
/// `n` separators give `n + 1` pieces.
pub open spec fn pieces(s: Seq<char>, sep: char) -> Seq<Seq<char>>
    decreases s.len(),
{
    if s.len() == 0 {
        seq![Seq::empty()]
    } else {
        let p = pieces(s.drop_last(), sep);
        if s.last() == sep {
            p.push(Seq::empty())
        } else {
            p.update(p.len() - 1, p.last().push(s.last()))
        }
    }
}

/// The characters that ASCII counts as white space.
pub open spec fn is_ascii_space(c: char) -> bool {
    c == ' ' || c == '\t' || c == '\n' || c == '\x0C' || c == '\r'
}

/// The maximal runs of non-white-space characters of `s`, in order.
pub open spec fn words(s: Seq<char>) -> Seq<Seq<char>>
    decreases s.len(),
{
    if s.len() == 0 {
        Seq::empty()
    } else {
        let w = words(s.drop_last());
        let c = s.last();
        if is_ascii_space(c) {
            w
        } else if s.len() >= 2 && !is_ascii_space(s[s.len() - 2]) {
            w.update(w.len() - 1, w.last().push(c))
        } else {
            w.push(seq![c])
        }
    }
}

/// The views of a sequence of strings.
pub open spec fn views(v: Seq<String>) -> Seq<Seq<char>> {
    v.map_values(|x: String| x@)
}

pub proof fn lemma_pieces_nonempty(s: Seq<char>, sep: char)
    ensures
        pieces(s, sep).len() >= 1,
    decreases s.len(),
{
    if s.len() > 0 {
        lemma_pieces_nonempty(s.drop_last(), sep);
    }
}

/// The characters of `s`, one element each.
pub fn chars_of(s: &str) -> (r: Vec<char>)
    ensures
        r@ == s@,
{
    let mut v: Vec<char> = Vec::new();
    for c in it: s.chars()
        invariant
            it.seq() == s@,
            v@ == it.seq().take(it.index() as int),
    {
        v.push(c);
    }
    v
}

/// The characters of `s` from position `from` up to (not including) `to`.
pub fn slice_of(s: &str, from: usize, to: usize) -> (r: String)
    requires
        from <= to <= s@.len(),
    ensures
        r@ == s@.subrange(from as int, to as int),
{
    s.substring_char(from, to).to_owned()
}

/// Splits `s` at every occurrence of `sep`.
pub fn split_on(s: &str, sep: char) -> (r: Vec<String>)
    ensures
        views(r@) == pieces(s@, sep),
{
    let cs = chars_of(s);
    let n = cs.len();
    let mut done: Vec<String> = Vec::new();
    let mut start: usize = 0;
    let mut i: usize = 0;
    assert(s@.take(0) =~= Seq::<char>::empty());
    assert(views(done@) =~= Seq::<Seq<char>>::empty());
    assert(s@.subrange(0, 0) =~= Seq::<char>::empty());
    while i < n
        invariant
            cs@ == s@,
            n == s@.len(),
            start <= i <= n,
            pieces(s@.take(i as int), sep) == views(done@).push(s@.subrange(start as int, i as int)),
        decreases n - i,
    {
        let ghost prev = s@.take(i as int);
        assert(s@.take(i + 1).drop_last() =~= prev);
        if cs[i] == sep {
            let ghost before = done@;
            let piece = slice_of(s, start, i);
            done.push(piece);
            assert(views(done@) =~= views(before).push(piece@));
            start = i + 1;
            assert(s@.subrange(start as int, i + 1) =~= Seq::<char>::empty());
            assert(pieces(s@.take(i + 1), sep) == pieces(prev, sep).push(Seq::empty()));
        } else {
            assert(s@.subrange(start as int, i + 1) =~= s@.subrange(start as int, i as int).push(cs@[i as int]));
            let ghost p = pieces(prev, sep);
            assert(pieces(s@.take(i + 1), sep) == p.update(p.len() - 1, p.last().push(cs@[i as int])));
            assert(p.update(p.len() - 1, p.last().push(cs@[i as int])) =~= views(done@).push(s@.subrange(start as int, i + 1)));
        }
        i = i + 1;
    }
    let last = slice_of(s, start, n);
    done.push(last);
    assert(s@.take(n as int) =~= s@);
    assert(views(done@) =~= pieces(s@, sep));
    done
}

/// A line without the carriage return of a `\r\n` line ending.
pub open spec fn without_cr(p: Seq<char>) -> Seq<char> {
    if p.len() > 0 && p.last() == '\r' {
        p.drop_last()
    } else {
        p
    }
}

/// The lines of `s`: split at `\n`, each line that a `\n` ends without a
/// `\r` before it, and no empty last line after a final `\n`.
pub open spec fn text_lines(s: Seq<char>) -> Seq<Seq<char>> {
    let p = pieces(s, '\n');
    let n = p.len();
    let inner = p.take(n - 1).map_values(|l: Seq<char>| without_cr(l));
    if p.last().len() == 0 {
        inner
    } else {
        inner.push(p.last())
    }
}

/// The characters that Unicode counts as white space.
pub open spec fn is_white(c: char) -> bool {
    ||| is_ascii_space(c)
    ||| c == '\x0B'
    ||| c == '\u{85}'
    ||| c == '\u{A0}'
    ||| c == '\u{1680}'
    ||| ('\u{2000}' as u32 <= c as u32 && c as u32 <= '\u{200A}' as u32)
    ||| c == '\u{2028}'
    ||| c == '\u{2029}'
    ||| c == '\u{202F}'
    ||| c == '\u{205F}'
    ||| c == '\u{3000}'
}

/// `s` without its leading white space.
pub open spec fn trim_start(s: Seq<char>) -> Seq<char>
    decreases s.len(),
{
    if s.len() > 0 && is_white(s[0]) {
        trim_start(s.drop_first())
    } else {
        s
    }
}

/// `s` without its trailing white space.
pub open spec fn trim_end(s: Seq<char>) -> Seq<char>
    decreases s.len(),
{
    if s.len() > 0 && is_white(s.last()) {
        trim_end(s.drop_last())
    } else {
        s
    }
}

/// `s` without white space at either end.
pub open spec fn trim(s: Seq<char>) -> Seq<char> {
    trim_end(trim_start(s))
}

/// Whether `c` is white space.
fn white(c: char) -> (r: bool)
    ensures
        r == is_white(c),
{
    is_space(c) || c == '\x0B' || c == '\u{85}' || c == '\u{A0}' || c == '\u{1680}' || ('\u{2000}'
        <= c && c <= '\u{200A}') || c == '\u{2028}' || c == '\u{2029}' || c == '\u{202F}' || c
        == '\u{205F}' || c == '\u{3000}'
}

/// `s` without white space at either end.
pub fn trimmed(s: &str) -> (r: String)
    ensures
        r@ == trim(s@),
{
    let cs = chars_of(s);
    let n = cs.len();
    let mut a: usize = 0;
    assert(s@.skip(0) =~= s@);
    while a < n && white(cs[a])
        invariant
            cs@ == s@,
            n == s@.len(),
            a <= n,
            trim_start(s@) == trim_start(s@.skip(a as int)),
        decreases n - a,
    {
        assert(s@.skip(a as int).drop_first() =~= s@.skip(a + 1));
        a = a + 1;
    }
    assert(trim_start(s@.skip(a as int)) == s@.skip(a as int));
    let mut b: usize = n;
    assert(s@.subrange(a as int, b as int) =~= s@.skip(a as int));
    while b > a && white(cs[b - 1])
        invariant
            cs@ == s@,
            n == s@.len(),
            a <= b <= n,
            trim(s@) == trim_end(s@.subrange(a as int, b as int)),
        decreases b - a,
    {
        assert(s@.subrange(a as int, b as int).drop_last() =~= s@.subrange(a as int, b - 1));
        b = b - 1;
    }
    slice_of(s, a, b)
}

/// Splits `s` into its lines, as `str::lines` does.
pub fn split_lines(s: &str) -> (r: Vec<String>)
    ensures
        views(r@) == text_lines(s@),
{
    let p = split_on(s, '\n');
    proof {
        lemma_pieces_nonempty(s@, '\n');
    }
    let ghost pv = views(p@);
    let n = p.len();
    let mut out: Vec<String> = Vec::new();
    let mut i: usize = 0;
    while i + 1 < n
        invariant
            pv == views(p@),
            pv == pieces(s@, '\n'),
            n == p@.len(),
            n >= 1,
            i <= n - 1,
            views(out@) == pv.take(i as int).map_values(|l: Seq<char>| without_cr(l)),
        decreases n - i,
    {
        let line = p[i].as_str();
        let k = line.unicode_len();
        let ghost before = out@;
        let l = if k > 0 && line.get_char(k - 1) == '\r' {
            slice_of(line, 0, k - 1)
        } else {
            line.to_owned()
        };
        assert(l@ == without_cr(pv[i as int]));
        out.push(l);
        assert(views(out@) =~= views(before).push(l@));
        assert(pv.take(i + 1).map_values(|l: Seq<char>| without_cr(l)) =~= pv.take(
            i as int,
        ).map_values(|l: Seq<char>| without_cr(l)).push(without_cr(pv[i as int])));
        i = i + 1;
    }
    if p[n - 1].unicode_len() > 0 {
        let ghost before = out@;
        let last = p[n - 1].clone();
        out.push(last);
        assert(views(out@) =~= views(before).push(pv.last()));
    }
    out
}

/// Whether `a` and `b` hold the same characters.
pub fn same_text(a: &str, b: &str) -> (r: bool)
    ensures
        r == (a@ == b@),
{
    a.to_owned() == b.to_owned()
}

/// Whether `c` is ASCII white space.
pub fn is_space(c: char) -> (r: bool)
    ensures
        r == is_ascii_space(c),
{
    c == ' ' || c == '\t' || c == '\n' || c == '\x0C' || c == '\r'
}

/// Splits `s` into its runs of non-white-space characters.
pub fn split_words(s: &str) -> (r: Vec<String>)
    ensures
        views(r@) == words(s@),
{
    let cs = chars_of(s);
    let n = cs.len();
    let mut done: Vec<String> = Vec::new();
    let mut in_word = false;
    let mut start: usize = 0;
    let mut i: usize = 0;
    assert(s@.take(0) =~= Seq::<char>::empty());
    assert(views(done@) =~= Seq::<Seq<char>>::empty());
    while i < n
        invariant
            cs@ == s@,
            n == s@.len(),
            start <= i <= n,
            in_word == (i > 0 && !is_ascii_space(s@[i - 1])),
            in_word ==> start < i,
            in_word ==> forall|k: int| start <= k < i ==> !is_ascii_space(#[trigger] s@[k]),
            in_word ==> (start == 0 || is_ascii_space(s@[start - 1])),
            in_word ==> words(s@.take(i as int)) == views(done@).push(s@.subrange(start as int, i as int)),
            !in_word ==> words(s@.take(i as int)) == views(done@),
        decreases n - i,
    {
        let ghost prev = s@.take(i as int);
        let ghost next = s@.take(i + 1);
        assert(next.drop_last() =~= prev);
        assert(next.last() == cs@[i as int]);
        let c = cs[i];
        if is_space(c) {
            if in_word {
                let ghost before = done@;
                let word = slice_of(s, start, i);
                done.push(word);
                assert(views(done@) =~= views(before).push(word@));
            }
            in_word = false;
        } else {
            if in_word {
                assert(next[next.len() - 2] == s@[i - 1]);
                assert(s@.subrange(start as int, i + 1) =~= s@.subrange(start as int, i as int).push(c));
                let ghost w = words(prev);
                assert(words(next) == w.update(w.len() - 1, w.last().push(c)));
                assert(w.update(w.len() - 1, w.last().push(c)) =~= views(done@).push(s@.subrange(start as int, i + 1)));
            } else {
                start = i;
                assert(s@.subrange(start as int, i + 1) =~= seq![c]);
                if i > 0 {
                    assert(next[next.len() - 2] == s@[i - 1]);
                }
            }
            in_word = true;
        }
        i = i + 1;
    }
    if in_word {
        let ghost before = done@;
        let word = slice_of(s, start, n);
        done.push(word);
        assert(views(done@) =~= views(before).push(word@));
    }
    assert(s@.take(n as int) =~= s@);
    done
}

} // verus!
