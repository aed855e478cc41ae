//! Splitting text at a separator character, and the characters allowed in
//! names.
use vstd::prelude::*;

verus! {

/// The parts of `s` from position `j` on, when the part in progress began at
/// `start`: each separator ends one part and begins the next.
pub open spec fn split_from(s: Seq<char>, sep: char, start: int, j: int) -> Seq<Seq<char>>
    decreases s.len() - j,
{
    if j >= s.len() {
        seq![s.subrange(start, s.len() as int)]
    } else if s[j] == sep {
        seq![s.subrange(start, j)] + split_from(s, sep, j + 1, j + 1)
    } else {
        split_from(s, sep, start, j + 1)
    }
}

/// The parts of `s` between occurrences of `sep`, empty parts kept: `n`
/// separators give `n + 1` parts.
pub open spec fn split(s: Seq<char>, sep: char) -> Seq<Seq<char>> {
    split_from(s, sep, 0, 0)
}

/// The text that `bounds` delimit in `s`.
pub open spec fn parts_of(s: Seq<char>, bounds: Seq<(usize, usize)>) -> Seq<Seq<char>> {
    bounds.map_values(|b: (usize, usize)| s.subrange(b.0 as int, b.1 as int))
}

/// A character allowed in a name: an ASCII letter or digit, `_` or `-`.
pub open spec fn is_name_char(c: char) -> bool {
    ('a' <= c && c <= 'z') || ('A' <= c && c <= 'Z') || ('0' <= c && c <= '9') || c == '_' || c
        == '-'
}

/// A name: one or more name characters, other than the lone `_`.
pub open spec fn is_name(t: Seq<char>) -> bool {
    &&& t.len() > 0
    &&& forall|i: int| 0 <= i < t.len() ==> is_name_char(#[trigger] t[i])
    &&& t != seq!['_']
}

/// The bounds, within `s`, of the parts of `s[lo..hi]` between occurrences
/// of `sep`.
pub fn split_bounds(s: &Vec<char>, lo: usize, hi: usize, sep: char) -> (r: Vec<(usize, usize)>)
    requires
        lo <= hi <= s.len(),
    ensures
        parts_of(s@, r@) == split(s@.subrange(lo as int, hi as int), sep),
        forall|k: int| 0 <= k < r.len() ==> lo <= #[trigger] r[k].0 <= r[k].1 <= hi,
{
    let ghost sub = s@.subrange(lo as int, hi as int);
    let mut r: Vec<(usize, usize)> = Vec::new();
    let mut start: usize = lo;
    let mut j: usize = lo;
    while j < hi
        invariant
            lo <= start <= j <= hi <= s.len(),
            sub == s@.subrange(lo as int, hi as int),
            parts_of(s@, r@) + split_from(sub, sep, start - lo, j - lo) == split(sub, sep),
            forall|k: int| 0 <= k < r.len() ==> lo <= #[trigger] r[k].0 <= r[k].1 <= start,
        decreases hi - j,
    {
        assert(sub[j - lo] == s[j as int]);
        if s[j] == sep {
            assert(sub.subrange(start - lo, j - lo) == s@.subrange(start as int, j as int));
            let ghost before = r@;
            r.push((start, j));
            assert(parts_of(s@, r@) == parts_of(s@, before).push(
                s@.subrange(start as int, j as int),
            ));
            assert(parts_of(s@, r@) + split_from(sub, sep, j + 1 - lo, j + 1 - lo) =~= parts_of(
                s@,
                before,
            ) + split_from(sub, sep, start - lo, j - lo));
            start = j + 1;
        }
        j = j + 1;
    }
    let ghost before = r@;
    assert(sub.subrange(start - lo, hi - lo) == s@.subrange(start as int, hi as int));
    r.push((start, hi));
    assert(parts_of(s@, r@) =~= parts_of(s@, before) + split_from(sub, sep, start - lo, j - lo));
    r
}

/// Whether `s[lo..hi]` is a name.
pub fn is_name_at(s: &Vec<char>, lo: usize, hi: usize) -> (r: bool)
    requires
        lo <= hi <= s.len(),
    ensures
        r == is_name(s@.subrange(lo as int, hi as int)),
{
    let ghost t = s@.subrange(lo as int, hi as int);
    if lo == hi {
        return false;
    }
    if hi - lo == 1 && s[lo] == '_' {
        assert(t =~= seq!['_']);
        return false;
    }
    let mut i: usize = lo;
    while i < hi
        invariant
            lo <= i <= hi <= s.len(),
            t == s@.subrange(lo as int, hi as int),
            forall|k: int| 0 <= k < i - lo ==> is_name_char(#[trigger] t[k]),
        decreases hi - i,
    {
        let c = s[i];
        assert(t[i - lo] == c);
        if !(('a' <= c && c <= 'z') || ('A' <= c && c <= 'Z') || ('0' <= c && c <= '9') || c
            == '_' || c == '-') {
            return false;
        }
        i = i + 1;
    }
    assert(t != seq!['_']) by {
        if t.len() == 1 {
            assert(t[0] == s[lo as int]);
        }
    }
    true
}

/// The text of `text` between char positions `lo` and `hi`, as a new string.
pub fn text_at(text: &str, lo: usize, hi: usize) -> (r: String)
    requires
        lo <= hi <= text@.len(),
    ensures
        r@ == text@.subrange(lo as int, hi as int),
{
    text.substring_char(lo, hi).to_owned()
}

/// `s` with every occurrence of `from` replaced by `to`, scanning left to
/// right and never overlapping.
pub open spec fn replace_all(s: Seq<char>, from: Seq<char>, to: Seq<char>) -> Seq<char>
    decreases s.len(),
{
    if s.len() == 0 || from.len() == 0 {
        s
    } else if from.len() <= s.len() && s.take(from.len() as int) == from {
        to + replace_all(s.skip(from.len() as int), from, to)
    } else {
        seq![s[0]] + replace_all(s.skip(1), from, to)
    }
}

/// Whether `from` occurs in `s` at position `i`.
fn occurs_at(s: &Vec<char>, from: &Vec<char>, i: usize) -> (r: bool)
    requires
        i <= s.len(),
    ensures
        r == (i + from.len() <= s.len() && s@.subrange(i as int, i + from.len()) == from@),
{
    let m = from.len();
    if m > s.len() - i {
        return false;
    }
    let mut k: usize = 0;
    while k < m
        invariant
            m == from.len(),
            i + m <= s.len(),
            k <= m,
            forall|j: int| 0 <= j < k ==> s[i + j] == from[j],
        decreases m - k,
    {
        if s[i + k] != from[k] {
            assert(s@.subrange(i as int, i + m)[k as int] != from@[k as int]);
            return false;
        }
        k = k + 1;
    }
    assert(s@.subrange(i as int, i + m) =~= from@);
    true
}

/// `s` with every occurrence of `from` replaced by `to`.
pub fn replace_all_text(s: &str, from: &str, to: &str) -> (r: String)
    requires
        from@.len() > 0,
    ensures
        r@ == replace_all(s@, from@, to@),
{
    let sc = crate::path::chars_of(s);
    let fc = crate::path::chars_of(from);
    let n = sc.len();
    let m = fc.len();
    let mut out = String::new();
    let mut run: usize = 0;
    let mut i: usize = 0;
    assert(s@.skip(0) =~= s@);
    assert(out@ + s@.subrange(0, 0) + replace_all(s@, from@, to@) =~= replace_all(s@, from@, to@));
    while i < n
        invariant
            sc@ == s@,
            fc@ == from@,
            n == s@.len(),
            m == from@.len(),
            m > 0,
            run <= i <= n,
            out@ + s@.subrange(run as int, i as int) + replace_all(s@.skip(i as int), from@, to@)
                == replace_all(s@, from@, to@),
        decreases n - i,
    {
        let ghost rest = s@.skip(i as int);
        if occurs_at(&sc, &fc, i) {
            assert(rest.take(m as int) =~= s@.subrange(i as int, i + m));
            assert(rest.skip(m as int) =~= s@.skip(i + m));
            let piece = text_at(s, run, i);
            let ghost before = out@;
            out.append(piece.as_str());
            out.append(to);
            assert(out@ + s@.subrange((i + m) as int, (i + m) as int) =~= before + s@.subrange(
                run as int,
                i as int,
            ) + to@);
            i = i + m;
            run = i;
        } else {
            assert(!(m <= rest.len() && rest.take(m as int) == from@)) by {
                if m <= rest.len() && rest.take(m as int) == from@ {
                    assert(rest.take(m as int) =~= s@.subrange(i as int, i + m));
                }
            }
            assert(rest.skip(1) =~= s@.skip(i + 1));
            assert(s@.subrange(run as int, i + 1) =~= s@.subrange(run as int, i as int).push(
                rest[0],
            ));
            assert(out@ + s@.subrange(run as int, i + 1) + replace_all(s@.skip(i + 1), from@, to@)
                =~= out@ + s@.subrange(run as int, i as int) + (seq![rest[0]] + replace_all(
                rest.skip(1),
                from@,
                to@,
            )));
            i = i + 1;
        }
    }
    assert(s@.skip(n as int) =~= Seq::<char>::empty());
    let piece = text_at(s, run, n);
    let ghost before = out@;
    out.append(piece.as_str());
    assert(out@ =~= before + s@.subrange(run as int, n as int) + replace_all(
        s@.skip(n as int),
        from@,
        to@,
    ));
    out
}

} // verus!
