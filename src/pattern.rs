//! Route patterns: their structure, their textual grammar, and the compiler
//! from text to structure.
//!
//! A pattern is written `METHOD /tok/tok/...`: one method token, a single
//! space, and a path of `/`-separated tokens (`/` alone for the root).
//! A method token is a name (matched exactly), `_` (any method) or `:name`
//! (any method, captured). A path token is a name (matched exactly), `:name`
//! (one segment, captured), `_` (one segment, not captured), `..` (all
//! remaining segments) or `..:name` (all remaining segments, captured as the
//! raw trailing text).
use vstd::prelude::*;
use crate::text::{is_name, is_name_at, parts_of, split, split_bounds, text_at};
use crate::path::chars_of;

verus! {

/// Which request methods a pattern accepts.
#[derive(Debug, Clone, PartialEq, Eq)]
pub enum MethodSpec {
    /// Every method, without a capture.
    Any,
    /// Exactly this method (case-sensitive).
    Literal(String),
    /// Every method; its text is captured under this name.
    Capture(String),
}

/// What one position of a pattern's path accepts.
#[derive(Debug, Clone, PartialEq, Eq)]
pub enum PathSegmentSpec {
    /// Exactly this segment.
    Literal(String),
    /// Any one segment, captured under this name.
    Capture(String),
    /// Any one segment, not captured.
    Any,
    /// Zero or more trailing segments; with a name, their raw text is captured.
    Rest(Option<String>),
}

/// A compiled route pattern.
#[derive(Debug, Clone, PartialEq, Eq)]
pub struct Pattern {
    pub method: MethodSpec,
    pub segments: Vec<PathSegmentSpec>,
}

/// Why a pattern text was refused.
#[derive(Debug, Clone, Copy, PartialEq, Eq)]
pub enum CompileError {
    /// The text does not follow the pattern grammar.
    Malformed,
    /// A rest token (`..` or `..:name`) stands before the last position.
    RestNotLast,
    /// Two captures of the pattern have the same name.
    DuplicateCapture,
}

/// Method token `t` stands for `m`.
pub open spec fn method_denotes(m: MethodSpec, t: Seq<char>) -> bool {
    match m {
        MethodSpec::Any => t == seq!['_'],
        MethodSpec::Literal(x) => is_name(t) && x@ == t,
        MethodSpec::Capture(x) => t.len() > 0 && t[0] == ':' && is_name(t.skip(1)) && x@ == t.skip(
            1,
        ),
    }
}

/// Path token `t` stands for `s`.
pub open spec fn segment_denotes(s: PathSegmentSpec, t: Seq<char>) -> bool {
    match s {
        PathSegmentSpec::Literal(x) => is_name(t) && x@ == t,
        PathSegmentSpec::Capture(x) => t.len() > 0 && t[0] == ':' && is_name(t.skip(1)) && x@
            == t.skip(1),
        PathSegmentSpec::Any => t == seq!['_'],
        PathSegmentSpec::Rest(None) => t == seq!['.', '.'],
        PathSegmentSpec::Rest(Some(x)) => t.len() > 2 && t.take(3) == seq!['.', '.', ':'] && is_name(
            t.skip(3),
        ) && x@ == t.skip(3),
    }
}

/// Path text `p` stands for the segment specs `segs`.
pub open spec fn path_denotes(segs: Seq<PathSegmentSpec>, p: Seq<char>) -> bool {
    &&& p.len() > 0
    &&& p[0] == '/'
    &&& if p.len() == 1 {
        segs.len() == 0
    } else {
        let toks = split(p.skip(1), '/');
        &&& toks.len() == segs.len()
        &&& forall|i: int| 0 <= i < segs.len() ==> segment_denotes(segs[i], #[trigger] toks[i])
    }
}

/// Pattern text `text` stands for `pat`: a method token and a path, separated
/// by one space.
pub open spec fn denotes(pat: Pattern, text: Seq<char>) -> bool {
    let parts = split(text, ' ');
    &&& parts.len() == 2
    &&& method_denotes(pat.method, parts[0])
    &&& path_denotes(pat.segments@, parts[1])
}

/// The name that a path segment spec captures under, if any.
pub open spec fn segment_capture_name(s: PathSegmentSpec) -> Option<Seq<char>> {
    match s {
        PathSegmentSpec::Capture(x) => Some(x@),
        PathSegmentSpec::Rest(Some(x)) => Some(x@),
        _ => None,
    }
}

/// The capture names of `segs`, left to right.
pub open spec fn path_capture_names(segs: Seq<PathSegmentSpec>) -> Seq<Seq<char>>
    decreases segs.len(),
{
    if segs.len() == 0 {
        seq![]
    } else {
        let prev = path_capture_names(segs.drop_last());
        match segment_capture_name(segs.last()) {
            Some(x) => prev.push(x),
            None => prev,
        }
    }
}

/// The capture names of `pat`, in the order its captured values come: the
/// path's left to right, then the method's.
pub open spec fn capture_names(pat: Pattern) -> Seq<Seq<char>> {
    match pat.method {
        MethodSpec::Capture(x) => path_capture_names(pat.segments@).push(x@),
        _ => path_capture_names(pat.segments@),
    }
}

/// No rest spec stands before the last position.
pub open spec fn rest_is_last(segs: Seq<PathSegmentSpec>) -> bool {
    forall|i: int| 0 <= i < segs.len() - 1 ==> !(#[trigger] segs[i] is Rest)
}

/// A pattern that the compiler can produce: any rest spec is last, and the
/// capture names are distinct.
pub open spec fn is_valid(pat: Pattern) -> bool {
    &&& rest_is_last(pat.segments@)
    &&& capture_names(pat).no_duplicates()
}

/// Pattern text `text` is refused with error `e`: `Malformed` when it stands
/// for no pattern; `RestNotLast` when it does and a rest stands before the
/// last position; `DuplicateCapture` when it does, rests stand last, and two
/// captures share a name.
pub open spec fn refused_as(text: Seq<char>, e: CompileError) -> bool {
    match e {
        CompileError::Malformed => forall|p: Pattern| !denotes(p, text),
        CompileError::RestNotLast => (exists|p: Pattern| denotes(p, text)) && forall|p: Pattern|
            denotes(p, text) ==> !rest_is_last(p.segments@),
        CompileError::DuplicateCapture => (exists|p: Pattern| denotes(p, text)) && forall|
            p: Pattern,
        | denotes(p, text) ==> rest_is_last(p.segments@) && !capture_names(p).no_duplicates(),
    }
}

/// A refused text stands for no valid pattern: compiling succeeds exactly on
/// the texts that stand for a valid pattern.
pub proof fn lemma_refused_means_no_valid_pattern(text: Seq<char>, e: CompileError, p: Pattern)
    requires
        refused_as(text, e),
    ensures
        !(denotes(p, text) && is_valid(p)),
{
}

/// Two specs that one token stands for agree on what they capture and on
/// being a rest.
proof fn lemma_segment_denotes_unique(a: PathSegmentSpec, b: PathSegmentSpec, t: Seq<char>)
    requires
        segment_denotes(a, t),
        segment_denotes(b, t),
    ensures
        segment_capture_name(a) == segment_capture_name(b),
        a is Rest <==> b is Rest,
{
    assert(is_name(t) ==> t[0] != ':' && t[0] != '.' && t != seq!['.', '.']) by {
        if is_name(t) {
            assert(t[0] != '.' && t[0] != ':') by {
                assert(crate::text::is_name_char(t[0]));
            }
            if t == seq!['.', '.'] {
                assert(t[0] == '.');
            }
        }
    }
    if t.len() > 2 {
        assert(t.take(3) == seq!['.', '.', ':'] ==> t[0] == '.' && t[2] == ':') by {
            if t.take(3) == seq!['.', '.', ':'] {
                assert(t.take(3)[0] == t[0] && t.take(3)[2] == t[2]);
            }
        }
    }
    if t == seq!['.', '.'] {
        assert(t.len() == 2);
    }
    if t == seq!['_'] {
        assert(t.len() == 1 && t[0] == '_');
    }
}

/// Segment specs that agree on their capture names give the same list of
/// capture names.
proof fn lemma_path_capture_names_agree(a: Seq<PathSegmentSpec>, b: Seq<PathSegmentSpec>)
    requires
        a.len() == b.len(),
        forall|i: int| 0 <= i < a.len() ==> segment_capture_name(#[trigger] a[i]) == segment_capture_name(b[i]),
    ensures
        path_capture_names(a) == path_capture_names(b),
    decreases a.len(),
{
    if a.len() > 0 {
        lemma_path_capture_names_agree(a.drop_last(), b.drop_last());
        assert(segment_capture_name(a[a.len() - 1]) == segment_capture_name(b[b.len() - 1]));
    }
}


/// A name begins with a name character: not `:` or `.`.
proof fn lemma_name_start(t: Seq<char>)
    requires
        is_name(t),
    ensures
        t[0] != ':',
        t[0] != '.',
{
    assert(crate::text::is_name_char(t[0]));
}

/// The path segment spec that token `s[lo..hi]` stands for, if any.
fn parse_segment_token(text: &str, s: &Vec<char>, lo: usize, hi: usize) -> (r: Option<
    PathSegmentSpec,
>)
    requires
        s@ == text@,
        lo <= hi <= s.len(),
    ensures
        match r {
            Some(x) => segment_denotes(x, s@.subrange(lo as int, hi as int)),
            None => forall|x: PathSegmentSpec| !segment_denotes(x, s@.subrange(lo as int, hi as int)),
        },
{
    let ghost t = s@.subrange(lo as int, hi as int);
    let n = hi - lo;
    if n == 1 && s[lo] == '_' {
        assert(t =~= seq!['_']);
        return Some(PathSegmentSpec::Any);
    }
    if n == 2 && s[lo] == '.' && s[lo + 1] == '.' {
        assert(t =~= seq!['.', '.']);
        return Some(PathSegmentSpec::Rest(None));
    }
    if n >= 3 && s[lo] == '.' && s[lo + 1] == '.' && s[lo + 2] == ':' {
        assert(t.take(3) =~= seq!['.', '.', ':']);
        assert(t.skip(3) =~= s@.subrange(lo + 3, hi as int));
        if is_name_at(s, lo + 3, hi) {
            return Some(PathSegmentSpec::Rest(Some(text_at(text, lo + 3, hi))));
        }
        proof {
            assert forall|x: PathSegmentSpec| !segment_denotes(x, t) by {
                if is_name(t) {
                    lemma_name_start(t);
                }
            }
        }
        return None;
    }
    if n >= 1 && s[lo] == ':' {
        assert(t.skip(1) =~= s@.subrange(lo + 1, hi as int));
        if is_name_at(s, lo + 1, hi) {
            return Some(PathSegmentSpec::Capture(text_at(text, lo + 1, hi)));
        }
        proof {
            assert forall|x: PathSegmentSpec| !segment_denotes(x, t) by {
                if is_name(t) {
                    lemma_name_start(t);
                }
                if t.len() > 2 && t.take(3) == seq!['.', '.', ':'] {
                    assert(t.take(3)[0] == t[0]);
                }
                if t == seq!['_'] {
                    assert(t[0] == '_');
                }
                if t == seq!['.', '.'] {
                    assert(t[0] == '.');
                }
            }
        }
        return None;
    }
    if is_name_at(s, lo, hi) {
        return Some(PathSegmentSpec::Literal(text_at(text, lo, hi)));
    }
    proof {
        assert forall|x: PathSegmentSpec| !segment_denotes(x, t) by {
            if t == seq!['_'] {
                assert(t.len() == 1 && t[0] == '_');
            }
            if t == seq!['.', '.'] {
                assert(t.len() == 2 && t[0] == '.' && t[1] == '.');
            }
            if t.len() > 2 && t.take(3) == seq!['.', '.', ':'] {
                assert(t.take(3)[0] == t[0] && t.take(3)[1] == t[1] && t.take(3)[2] == t[2]);
            }
        }
    }
    None
}

/// The method spec that token `s[lo..hi]` stands for, if any.
fn parse_method_token(text: &str, s: &Vec<char>, lo: usize, hi: usize) -> (r: Option<MethodSpec>)
    requires
        s@ == text@,
        lo <= hi <= s.len(),
    ensures
        match r {
            Some(m) => method_denotes(m, s@.subrange(lo as int, hi as int)),
            None => forall|m: MethodSpec| !method_denotes(m, s@.subrange(lo as int, hi as int)),
        },
{
    let ghost t = s@.subrange(lo as int, hi as int);
    let n = hi - lo;
    if n == 1 && s[lo] == '_' {
        assert(t =~= seq!['_']);
        return Some(MethodSpec::Any);
    }
    if n >= 1 && s[lo] == ':' {
        assert(t.skip(1) =~= s@.subrange(lo + 1, hi as int));
        if is_name_at(s, lo + 1, hi) {
            return Some(MethodSpec::Capture(text_at(text, lo + 1, hi)));
        }
        proof {
            assert forall|m: MethodSpec| !method_denotes(m, t) by {
                if is_name(t) {
                    lemma_name_start(t);
                }
                if t == seq!['_'] {
                    assert(t[0] == '_');
                }
            }
        }
        return None;
    }
    if is_name_at(s, lo, hi) {
        return Some(MethodSpec::Literal(text_at(text, lo, hi)));
    }
    proof {
        assert forall|m: MethodSpec| !method_denotes(m, t) by {
            if t == seq!['_'] {
                assert(t.len() == 1 && t[0] == '_');
            }
        }
    }
    None
}

/// Two method specs that one token stands for agree on what they capture.
proof fn lemma_method_denotes_unique(a: MethodSpec, b: MethodSpec, t: Seq<char>)
    requires
        method_denotes(a, t),
        method_denotes(b, t),
    ensures
        a is Capture <==> b is Capture,
        a is Capture ==> a->Capture_0@ == b->Capture_0@,
{
    if is_name(t) {
        lemma_name_start(t);
    }
    if t == seq!['_'] {
        assert(t[0] == '_');
    }
}

/// Two patterns that one text stands for agree on where their rest specs
/// stand and on their capture names.
pub proof fn lemma_denotes_unique(p: Pattern, q: Pattern, text: Seq<char>)
    requires
        denotes(p, text),
        denotes(q, text),
    ensures
        p.segments@.len() == q.segments@.len(),
        forall|i: int|
            0 <= i < p.segments@.len() ==> (#[trigger] p.segments@[i] is Rest <==> q.segments@[i] is Rest),
        capture_names(p) == capture_names(q),
{
    let parts = split(text, ' ');
    lemma_method_denotes_unique(p.method, q.method, parts[0]);
    let a = p.segments@;
    let b = q.segments@;
    if parts[1].len() > 1 {
        let toks = split(parts[1].skip(1), '/');
        assert forall|i: int| 0 <= i < a.len() implies (a[i] is Rest <==> b[i] is Rest)
            && segment_capture_name(#[trigger] a[i]) == segment_capture_name(b[i]) by {
            assert(segment_denotes(a[i], toks[i]));
            assert(segment_denotes(b[i], toks[i]));
            lemma_segment_denotes_unique(a[i], b[i], toks[i]);
        }
    }
    lemma_path_capture_names_agree(a, b);
}

/// The views of a sequence of strings.
pub open spec fn views(v: Seq<String>) -> Seq<Seq<char>> {
    v.map_values(|x: String| x@)
}

impl Pattern {
    /// The capture names of this pattern, in the order its captured values
    /// come.
    pub fn capture_names(&self) -> (r: Vec<String>)
        ensures
            views(r@) == capture_names(*self),
    {
        let mut r: Vec<String> = Vec::new();
        let mut k: usize = 0;
        while k < self.segments.len()
            invariant
                k <= self.segments@.len(),
                views(r@) == path_capture_names(self.segments@.take(k as int)),
            decreases self.segments@.len() - k,
        {
            let ghost before = r@;
            assert(self.segments@.take(k + 1).drop_last() =~= self.segments@.take(k as int));
            match &self.segments[k] {
                PathSegmentSpec::Capture(x) => {
                    r.push(x.clone());
                    assert(views(r@) =~= views(before).push(x@));
                },
                PathSegmentSpec::Rest(Some(x)) => {
                    r.push(x.clone());
                    assert(views(r@) =~= views(before).push(x@));
                },
                _ => {},
            }
            k = k + 1;
        }
        assert(self.segments@.take(k as int) =~= self.segments@);
        if let MethodSpec::Capture(x) = &self.method {
            let ghost before = r@;
            r.push(x.clone());
            assert(views(r@) =~= views(before).push(x@));
        }
        r
    }

    /// Compiles a pattern text.
    ///
    /// It is refused as `Malformed` when it does not follow the grammar, as
    /// `RestNotLast` when a rest token stands before the last position, and
    /// otherwise as `DuplicateCapture` when two captures share a name.
    pub fn compile(text: &str) -> (r: Result<Pattern, CompileError>)
        ensures
            match r {
                Ok(p) => denotes(p, text@) && is_valid(p),
                Err(e) => refused_as(text@, e),
            },
    {
        let s = chars_of(text);
        let n = s.len();
        let parts = split_bounds(&s, 0, n, ' ');
        assert(s@.subrange(0, n as int) =~= s@);
        let ghost sparts = split(text@, ' ');
        if parts.len() != 2 {
            return Err(CompileError::Malformed);
        }
        assert(sparts[0] == s@.subrange(parts[0].0 as int, parts[0].1 as int));
        assert(sparts[1] == s@.subrange(parts[1].0 as int, parts[1].1 as int));
        let (m_lo, m_hi) = parts[0];
        let method = match parse_method_token(text, &s, m_lo, m_hi) {
            Some(m) => m,
            None => {
                return Err(CompileError::Malformed);
            },
        };
        let (p_lo, p_hi) = parts[1];
        let ghost path = sparts[1];
        if p_lo == p_hi || s[p_lo] != '/' {
            assert(p_lo < p_hi ==> path[0] == s[p_lo as int]);
            return Err(CompileError::Malformed);
        }
        assert(path[0] == '/');
        let mut segments: Vec<PathSegmentSpec> = Vec::new();
        if p_hi - p_lo > 1 {
            let t_lo = p_lo + 1;
            let toks = split_bounds(&s, t_lo, p_hi, '/');
            assert(path.skip(1) =~= s@.subrange(p_lo + 1, p_hi as int));
            let ghost stoks = split(path.skip(1), '/');
            assert(forall|i: int| 0 <= i < toks.len() ==> t_lo <= #[trigger] toks[i].0 <= toks[i].1 <= p_hi);
            let mut k: usize = 0;
            while k < toks.len()
                invariant
                    k <= toks.len(),
                    s@ == text@,
                    stoks == parts_of(s@, toks@),
                    forall|i: int| 0 <= i < toks.len() ==> t_lo <= #[trigger] toks[i].0 <= toks[i].1 <= p_hi,
                    p_hi <= s.len(),
                    segments.len() == k,
                    forall|i: int| 0 <= i < k ==> segment_denotes(#[trigger] segments@[i], stoks[i]),
                    sparts.len() == 2,
                    sparts == split(text@, ' '),
                    path == sparts[1],
                    stoks == split(path.skip(1), '/'),
                    path.len() > 1,
                decreases toks.len() - k,
            {
                let (a, b) = toks[k];
                assert(stoks[k as int] == s@.subrange(a as int, b as int));
                match parse_segment_token(text, &s, a, b) {
                    Some(x) => {
                        segments.push(x);
                    },
                    None => {
                        assert forall|p: Pattern| !denotes(p, text@) by {
                            if denotes(p, text@) {
                                assert(segment_denotes(p.segments@[k as int], stoks[k as int]));
                            }
                        }
                        return Err(CompileError::Malformed);
                    },
                }
                k = k + 1;
            }
        }
        let pat = Pattern { method, segments };
        assert(denotes(pat, text@));
        let len = pat.segments.len();
        let mut i: usize = 0;
        while i < len && i + 1 < len
            invariant
                i <= len,
                denotes(pat, text@),
                len == pat.segments@.len(),
                forall|j: int| 0 <= j < i ==> !(#[trigger] pat.segments@[j] is Rest),
            decreases len - i,
        {
            if let PathSegmentSpec::Rest(_) = &pat.segments[i] {
                assert forall|p: Pattern| denotes(p, text@) implies !rest_is_last(p.segments@) by {
                    lemma_denotes_unique(pat, p, text@);
                    assert(p.segments@[i as int] is Rest);
                }
                return Err(CompileError::RestNotLast);
            }
            i = i + 1;
        }
        assert(rest_is_last(pat.segments@));
        let names = pat.capture_names();
        let mut i: usize = 0;
        while i < names.len()
            invariant
                denotes(pat, text@),
                rest_is_last(pat.segments@),
                views(names@) == capture_names(pat),
                i <= names.len(),
                forall|a: int, b: int|
                    0 <= a < i && 0 <= b < i && a != b ==> views(names@)[a] != views(names@)[b],
            decreases names.len() - i,
        {
            let mut j: usize = 0;
            while j < i
                invariant
                    denotes(pat, text@),
                    rest_is_last(pat.segments@),
                    views(names@) == capture_names(pat),
                    i < names.len(),
                    j <= i,
                    forall|b: int| 0 <= b < j ==> views(names@)[i as int] != views(names@)[b],
                decreases i - j,
            {
                if names[i] == names[j] {
                    assert(views(names@)[i as int] == views(names@)[j as int]);
                    assert forall|p: Pattern| denotes(p, text@) implies rest_is_last(p.segments@)
                        && !capture_names(p).no_duplicates() by {
                        lemma_denotes_unique(pat, p, text@);
                        assert forall|j: int| 0 <= j < p.segments@.len() - 1 implies !(
                        #[trigger] p.segments@[j] is Rest) by {
                            assert(!(pat.segments@[j] is Rest));
                        }
                    }
                    return Err(CompileError::DuplicateCapture);
                }
                j = j + 1;
            }
            i = i + 1;
        }
        Ok(pat)
    }
}

} // verus!
