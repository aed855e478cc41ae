//! Splitting a request path into its segments.
use vstd::prelude::*;
use vstd::std_specs::iter::IteratorSpec;

verus! {

/// A segment begins at a character other than `/` that is the first
/// character of the path or follows a `/`.
pub open spec fn is_segment_start(p: Seq<char>, j: int) -> bool {
    &&& 0 <= j < p.len()
    &&& p[j] != '/'
    &&& (j == 0 || p[j - 1] == '/')
}

/// The start positions of the segments that begin before position `n`, in order.
pub open spec fn segment_starts_upto(p: Seq<char>, n: nat) -> Seq<int>
    decreases n,
{
    if n == 0 {
        seq![]
    } else {
        let prev = segment_starts_upto(p, (n - 1) as nat);
        if is_segment_start(p, n - 1) {
            prev.push(n - 1)
        } else {
            prev
        }
    }
}

/// The start positions of all segments of `p`.
pub open spec fn segment_starts(p: Seq<char>) -> Seq<int> {
    segment_starts_upto(p, p.len())
}

/// The end (exclusive) of the segment running from `j`: the next `/` at or
/// after `j`, or the end of the path.
pub open spec fn segment_end(p: Seq<char>, j: int) -> int
    decreases p.len() - j,
{
    if j < 0 || j >= p.len() || p[j] == '/' {
        j
    } else {
        segment_end(p, j + 1)
    }
}

/// The segments of a path: its `/`-separated components with the empty ones
/// dropped, so that leading, trailing and repeated slashes do not count.
pub open spec fn segments(p: Seq<char>) -> Seq<Seq<char>> {
    segment_starts(p).map_values(|j: int| p.subrange(j, segment_end(p, j)))
}

/// The text of `p` from the first character of its segment `k` to the end of
/// the path; empty when `p` has no segment `k`.
pub open spec fn text_from_segment(p: Seq<char>, k: int) -> Seq<char> {
    if 0 <= k < segment_starts(p).len() {
        p.skip(segment_starts(p)[k])
    } else {
        seq![]
    }
}

/// `b` holds the bounds `(start, end)` of each segment of `p`, in order.
pub open spec fn are_segment_bounds(p: Seq<char>, b: Seq<(usize, usize)>) -> bool {
    &&& b.len() == segment_starts(p).len()
    &&& forall|k: int|
        0 <= k < b.len() ==> {
            &&& #[trigger] b[k].0 == segment_starts(p)[k]
            &&& b[k].1 == segment_end(p, b[k].0 as int)
            &&& b[k].0 < b[k].1 <= p.len()
        }
}

/// What segment bounds say of the segments and of the text from a segment.
pub proof fn lemma_segment_bounds(p: Seq<char>, b: Seq<(usize, usize)>, k: int)
    requires
        are_segment_bounds(p, b),
        0 <= k < b.len(),
    ensures
        segments(p).len() == b.len(),
        segments(p)[k] == p.subrange(b[k].0 as int, b[k].1 as int),
        text_from_segment(p, k) == p.subrange(b[k].0 as int, p.len() as int),
{
    assert(b[k].0 == segment_starts(p)[k]);
}

/// Each step over a character other than `/` stays within the same segment.
proof fn lemma_segment_end_step(p: Seq<char>, j: int)
    requires
        0 <= j < p.len(),
        p[j] != '/',
    ensures
        segment_end(p, j) == segment_end(p, j + 1),
{
}

/// The bounds `(start, end)` of each segment of `p`, in order.
pub fn segment_bounds(p: &Vec<char>) -> (r: Vec<(usize, usize)>)
    ensures
        are_segment_bounds(p@, r@),
{
    let n = p.len();
    let mut r: Vec<(usize, usize)> = Vec::new();
    let mut i: usize = 0;
    while i < n
        invariant
            n == p.len(),
            i <= n,
            i < n && p[i as int] != '/' ==> (i == 0 || p[i - 1] == '/'),
            r.len() == segment_starts_upto(p@, i as nat).len(),
            forall|k: int|
                0 <= k < r.len() ==> {
                    &&& r[k].0 == segment_starts_upto(p@, i as nat)[k]
                    &&& r[k].1 == segment_end(p@, r[k].0 as int)
                    &&& r[k].0 < r[k].1 <= i
                },
        decreases n - i,
    {
        if p[i] == '/' {
            assert(segment_starts_upto(p@, (i + 1) as nat) == segment_starts_upto(p@, i as nat));
            i = i + 1;
        } else {
            let start = i;
            let ghost before = segment_starts_upto(p@, i as nat);
            i = i + 1;
            assert(segment_starts_upto(p@, i as nat) == before.push(start as int));
            while i < n && p[i] != '/'
                invariant
                    n == p.len(),
                    start < i <= n,
                    p[i - 1] != '/',
                    segment_end(p@, start as int) == segment_end(p@, i as int),
                    segment_starts_upto(p@, i as nat) == before.push(start as int),
                decreases n - i,
            {
                proof {
                    lemma_segment_end_step(p@, i as int);
                }
                i = i + 1;
            }
            assert(segment_end(p@, i as int) == i as int);
            let ghost old_r = r@;
            r.push((start, i));
            assert forall|k: int| 0 <= k < r.len() implies {
                &&& r[k].0 == segment_starts_upto(p@, i as nat)[k]
                &&& r[k].1 == segment_end(p@, r[k].0 as int)
                &&& r[k].0 < r[k].1 <= i
            } by {
                if k < old_r.len() {
                    assert(r[k] == old_r[k]);
                    assert(before[k] == segment_starts_upto(p@, i as nat)[k]);
                }
            }
        }
    }
    r
}

/// Segment starts of `'/' + p` are those of `p`, one position later.
proof fn lemma_starts_after_slash(p: Seq<char>, n: nat)
    requires
        n <= p.len(),
    ensures
        segment_starts_upto(seq!['/'] + p, n + 1) == segment_starts_upto(p, n).map_values(
            |j: int| j + 1,
        ),
    decreases n,
{
    let q = seq!['/'] + p;
    if n == 0 {
        assert(!is_segment_start(q, 0));
        assert(segment_starts_upto(q, 0) =~= seq![]);
        assert(segment_starts_upto(q, 1) =~= seq![]);
        assert(segment_starts_upto(p, 0).map_values(|j: int| j + 1) =~= seq![]);
    } else {
        lemma_starts_after_slash(p, (n - 1) as nat);
        let j = n - 1;
        assert(q[j + 1] == p[j]);
        assert(q[j] == (if j == 0 { '/' } else { p[j - 1] }));
        assert(is_segment_start(q, j + 1) == is_segment_start(p, j));
        let prev = segment_starts_upto(p, (n - 1) as nat);
        if is_segment_start(p, j) {
            assert(prev.push(j).map_values(|i: int| i + 1) =~= prev.map_values(|i: int| i + 1).push(
                j + 1,
            ));
        }
    }
}

/// Segment ends of `'/' + p` are those of `p`, one position later.
proof fn lemma_end_after_slash(p: Seq<char>, j: int)
    requires
        0 <= j <= p.len(),
    ensures
        segment_end(seq!['/'] + p, j + 1) == segment_end(p, j) + 1,
    decreases p.len() - j,
{
    let q = seq!['/'] + p;
    if j < p.len() {
        assert(q[j + 1] == p[j]);
        if p[j] != '/' {
            lemma_end_after_slash(p, j + 1);
        }
    }
}

/// A leading slash changes neither the segments of a path nor the text
/// from any of its segments on.
pub proof fn lemma_leading_slash(p: Seq<char>)
    ensures
        segments(seq!['/'] + p) == segments(p),
        forall|k: int| text_from_segment(seq!['/'] + p, k) == #[trigger] text_from_segment(p, k),
{
    let q = seq!['/'] + p;
    lemma_starts_after_slash(p, p.len());
    assert(segment_starts(q) == segment_starts(p).map_values(|j: int| j + 1));
    let sp = segment_starts(p);
    assert forall|k: int| 0 <= k < sp.len() implies segment_end(q, #[trigger] sp[k] + 1)
        == segment_end(p, sp[k]) + 1 && 0 <= sp[k] < p.len() by {
        lemma_starts_in_range(p, p.len(), k);
        lemma_end_after_slash(p, sp[k]);
    }
    assert forall|k: int| 0 <= k < sp.len() implies #[trigger] segments(q)[k] == segments(p)[k]
        && q.skip(sp[k] + 1) == p.skip(sp[k]) by {
        assert(segment_end(q, sp[k] + 1) == segment_end(p, sp[k]) + 1);
        lemma_end_bounds(p, sp[k]);
        assert(q.subrange(sp[k] + 1, segment_end(p, sp[k]) + 1) =~= p.subrange(
            sp[k],
            segment_end(p, sp[k]),
        ));
        assert(q.skip(sp[k] + 1) =~= p.skip(sp[k]));
    }
    assert(segments(q) =~= segments(p));
}

/// Segment starts lie within the path.
proof fn lemma_starts_in_range(p: Seq<char>, n: nat, k: int)
    requires
        n <= p.len(),
        0 <= k < segment_starts_upto(p, n).len(),
    ensures
        0 <= segment_starts_upto(p, n)[k] < n,
    decreases n,
{
    if n > 0 {
        let prev = segment_starts_upto(p, (n - 1) as nat);
        if k < prev.len() {
            lemma_starts_in_range(p, (n - 1) as nat, k);
        }
    }
}

/// A segment end lies between its start and the end of the path.
proof fn lemma_end_bounds(p: Seq<char>, j: int)
    requires
        0 <= j <= p.len(),
    ensures
        j <= segment_end(p, j) <= p.len(),
    decreases p.len() - j,
{
    if j < p.len() && p[j] != '/' {
        lemma_end_bounds(p, j + 1);
    }
}

/// Segment starts of `p + '/'` are those of `p`.
proof fn lemma_starts_before_slash(p: Seq<char>, n: nat)
    requires
        n <= p.len(),
    ensures
        segment_starts_upto(p.push('/'), n) == segment_starts_upto(p, n),
    decreases n,
{
    if n > 0 {
        lemma_starts_before_slash(p, (n - 1) as nat);
        let j = n - 1;
        assert(p.push('/')[j] == p[j]);
        if j > 0 {
            assert(p.push('/')[j - 1] == p[j - 1]);
        }
    }
}

/// Segment ends of `p + '/'` are those of `p`.
proof fn lemma_end_before_slash(p: Seq<char>, j: int)
    requires
        0 <= j <= p.len(),
    ensures
        segment_end(p.push('/'), j) == segment_end(p, j),
    decreases p.len() - j,
{
    if j < p.len() {
        assert(p.push('/')[j] == p[j]);
        if p[j] != '/' {
            lemma_end_before_slash(p, j + 1);
        }
    } else {
        assert(p.push('/')[j] == '/');
    }
}

/// A trailing slash does not change the segments of a path.
pub proof fn lemma_trailing_slash(p: Seq<char>)
    ensures
        segments(p.push('/')) == segments(p),
{
    let q = p.push('/');
    lemma_starts_before_slash(p, p.len());
    assert(!is_segment_start(q, p.len() as int));
    assert(segment_starts(q) == segment_starts(p));
    let sp = segment_starts(p);
    assert forall|k: int| 0 <= k < sp.len() implies #[trigger] segments(q)[k] == segments(p)[k] by {
        lemma_starts_in_range(p, p.len(), k);
        lemma_end_before_slash(p, sp[k]);
        lemma_end_bounds(p, sp[k]);
        assert(q.subrange(sp[k], segment_end(p, sp[k])) =~= p.subrange(sp[k], segment_end(p, sp[k])));
    }
    assert(segments(q) =~= segments(p));
}

/// The characters of `s`, in order.
pub fn chars_of(s: &str) -> (r: Vec<char>)
    ensures
        r@ == s@,
{
    let mut r: Vec<char> = Vec::new();
    for c in it: s.chars()
        invariant
            r@ == it.seq().take(it.index() as int),
    {
        r.push(c);
    }
    r
}

} // verus!
