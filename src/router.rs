//! The route table and the dispatcher.
use vstd::prelude::*;
use crate::path::{
    are_segment_bounds, chars_of, lemma_leading_slash, lemma_segment_bounds, lemma_trailing_slash,
    segment_bounds, segments, text_from_segment,
};
use crate::providers::{HttpMethodProvider, UrlPathProvider};
use crate::text::text_at;
use crate::pattern::{
    capture_names, denotes, is_valid, refused_as, views, CompileError,
    MethodSpec, PathSegmentSpec, Pattern,
};

verus! {

/// The last path segment spec is a rest.
pub open spec fn has_rest(segs: Seq<PathSegmentSpec>) -> bool {
    segs.len() > 0 && segs.last() is Rest
}

/// The number of path segment specs that stand for exactly one segment.
pub open spec fn fixed_count(segs: Seq<PathSegmentSpec>) -> int {
    if has_rest(segs) {
        segs.len() - 1
    } else {
        segs.len() as int
    }
}

/// A method spec accepts a request method.
pub open spec fn method_accepts(m: MethodSpec, method: Seq<char>) -> bool {
    match m {
        MethodSpec::Literal(x) => x@ == method,
        _ => true,
    }
}

/// A path segment spec accepts a segment.
pub open spec fn segment_accepts(s: PathSegmentSpec, seg: Seq<char>) -> bool {
    match s {
        PathSegmentSpec::Literal(x) => x@ == seg,
        _ => true,
    }
}

/// `pat` matches a request: its method spec accepts the method, the path has
/// as many segments as the pattern asks for (at least that many before a
/// rest), and every literal equals the segment at its position.
pub open spec fn matches(pat: Pattern, method: Seq<char>, path: Seq<char>) -> bool {
    let segs = pat.segments@;
    let ps = segments(path);
    &&& method_accepts(pat.method, method)
    &&& if has_rest(segs) {
        ps.len() >= segs.len() - 1
    } else {
        ps.len() == segs.len()
    }
    &&& forall|i: int| 0 <= i < fixed_count(segs) ==> segment_accepts(segs[i], #[trigger] ps[i])
}

/// The values that the first `n` path segment specs capture from `path`.
pub open spec fn path_captures(segs: Seq<PathSegmentSpec>, path: Seq<char>, n: nat) -> Seq<
    Seq<char>,
>
    decreases n,
{
    if n == 0 {
        seq![]
    } else {
        let prev = path_captures(segs, path, (n - 1) as nat);
        match segs[n - 1] {
            PathSegmentSpec::Capture(_) => prev.push(segments(path)[n - 1]),
            PathSegmentSpec::Rest(Some(_)) => prev.push(text_from_segment(path, n - 1)),
            _ => prev,
        }
    }
}

/// The values that `pat` captures from a request it matches: each captured
/// segment left to right, the raw text from a named rest on, and last the
/// method if it is captured.
pub open spec fn captures(pat: Pattern, method: Seq<char>, path: Seq<char>) -> Seq<Seq<char>> {
    let pc = path_captures(pat.segments@, path, pat.segments@.len());
    match pat.method {
        MethodSpec::Capture(_) => pc.push(method),
        _ => pc,
    }
}

/// One entry of a route table.
#[derive(Debug, Clone)]
pub struct Route<H> {
    pub pattern: Pattern,
    pub handler: H,
    /// The position at which the route was registered.
    pub index: usize,
}

/// What `dispatch` found.
#[derive(Debug, PartialEq, Eq)]
pub enum MatchResult<'a, H> {
    /// The handler of the first matching route (or the default handler),
    /// with the captured values.
    Matched { handler: &'a H, captures: Vec<String> },
    /// No route matched and there is no default handler.
    NoMatch,
}

impl<'a, H> MatchResult<'a, H> {
    /// The selected handler and the captured values, or `None` for `NoMatch`.
    pub open spec fn outcome(&self) -> Option<(H, Seq<Seq<char>>)> {
        match self {
            MatchResult::Matched { handler, captures } => Some((**handler, views(captures@))),
            MatchResult::NoMatch => None,
        }
    }
}

/// Route `j` is the first route that matches the request.
pub open spec fn is_first_match<H>(
    routes: Seq<Route<H>>,
    method: Seq<char>,
    path: Seq<char>,
    j: int,
) -> bool {
    &&& 0 <= j < routes.len()
    &&& matches(routes[j].pattern, method, path)
    &&& forall|k: int| 0 <= k < j ==> !matches(#[trigger] routes[k].pattern, method, path)
}

/// What dispatching a request on a table selects: the handler of the first
/// matching route with its captures, else the default handler with no
/// captures, else nothing.
pub open spec fn dispatch_outcome<H>(
    routes: Seq<Route<H>>,
    default: Option<H>,
    method: Seq<char>,
    path: Seq<char>,
) -> Option<(H, Seq<Seq<char>>)> {
    if exists|j: int| is_first_match(routes, method, path, j) {
        let j = choose|j: int| is_first_match(routes, method, path, j);
        Some((routes[j].handler, captures(routes[j].pattern, method, path)))
    } else {
        match default {
            Some(d) => Some((d, seq![])),
            None => None,
        }
    }
}

/// An ordered route table with an optional default handler.
pub struct Router<H> {
    routes: Vec<Route<H>>,
    default: Option<H>,
}

impl<H> Router<H> {
    /// The routes, in registration order.
    pub closed spec fn spec_routes(&self) -> Seq<Route<H>> {
        self.routes@
    }

    /// The default handler.
    pub closed spec fn spec_default(&self) -> Option<H> {
        self.default
    }

    /// Every route holds a compiled pattern and its own registration index.
    pub open spec fn well_formed(&self) -> bool {
        forall|i: int|
            0 <= i < self.spec_routes().len() ==> {
                &&& is_valid(#[trigger] self.spec_routes()[i].pattern)
                &&& self.spec_routes()[i].index == i
            }
    }

    /// An empty table without a default handler.
    pub fn new() -> (r: Router<H>)
        ensures
            r.spec_routes().len() == 0,
            r.spec_default() is None,
            r.well_formed(),
    {
        Router { routes: Vec::new(), default: None }
    }

    /// Installs the default handler, replacing any earlier one.
    pub fn set_default(&mut self, handler: H)
        ensures
            final(self).spec_routes() == old(self).spec_routes(),
            final(self).spec_default() == Some(handler),
            old(self).well_formed() ==> final(self).well_formed(),
    {
        self.default = Some(handler);
    }

    /// The number of registered routes.
    pub fn len(&self) -> (r: usize)
        ensures
            r == self.spec_routes().len(),
    {
        self.routes.len()
    }

    /// Compiles `pattern_text` and appends a route with it and `handler`,
    /// numbered with the next registration index. A refused text leaves the
    /// table as it was.
    pub fn register(&mut self, pattern_text: &str, handler: H) -> (r: Result<(), CompileError>)
        ensures
            final(self).spec_default() == old(self).spec_default(),
            old(self).well_formed() ==> final(self).well_formed(),
            match r {
                Ok(()) => exists|p: Pattern|
                    {
                        &&& denotes(p, pattern_text@)
                        &&& is_valid(p)
                        &&& final(self).spec_routes() == old(self).spec_routes().push(
                            (Route { pattern: p, handler, index: old(self).spec_routes().len() as usize }),
                        )
                    },
                Err(e) => final(self).spec_routes() == old(self).spec_routes() && refused_as(
                    pattern_text@,
                    e,
                ),
            },
    {
        match Pattern::compile(pattern_text) {
            Ok(pattern) => {
                let index = self.routes.len();
                let ghost p = pattern;
                self.routes.push(Route { pattern, handler, index });
                assert(self.spec_routes() == old(self).spec_routes().push(
                    (Route { pattern: p, handler, index: old(self).spec_routes().len() as usize }),
                ));
                Ok(())
            },
            Err(e) => Err(e),
        }
    }

    /// Resolves a request to the handler of the first route that matches it,
    /// with the captured values; failing that, to the default handler with
    /// no captures; failing that, to `NoMatch`.
    pub fn dispatch(&self, method: &str, path: &str) -> (r: MatchResult<'_, H>)
        ensures
            r.outcome() == dispatch_outcome(self.spec_routes(), self.spec_default(), method@, path@),
    {
        let method_text = method.to_owned();
        let chars = chars_of(path);
        let bounds = segment_bounds(&chars);
        let mut i: usize = 0;
        while i < self.routes.len()
            invariant
                i <= self.routes@.len(),
                chars@ == path@,
                method_text@ == method@,
                are_segment_bounds(path@, bounds@),
                forall|k: int|
                    0 <= k < i ==> !matches(#[trigger] self.routes@[k].pattern, method@, path@),
            decreases self.routes@.len() - i,
        {
            let route = &self.routes[i];
            if route_matches(&route.pattern, &method_text, path, &chars, &bounds) {
                let captures = extract_captures(&route.pattern, &method_text, path, &chars, &bounds);
                proof {
                    let routes = self.routes@;
                    assert(is_first_match(routes, method@, path@, i as int));
                    assert forall|j: int| is_first_match(routes, method@, path@, j) implies j
                        == i by {
                        if j < i {
                            assert(!matches(routes[j].pattern, method@, path@));
                        } else if j > i {
                            assert(!matches(routes[i as int].pattern, method@, path@));
                        }
                    }
                }
                return MatchResult::Matched { handler: &route.handler, captures };
            }
            i = i + 1;
        }
        match &self.default {
            Some(d) => {
                let captures: Vec<String> = Vec::new();
                assert(views(captures@) =~= seq![]);
                MatchResult::Matched { handler: d, captures }
            },
            None => MatchResult::NoMatch,
        }
    }
}

impl<H> Router<H> {
    /// Dispatches the request whose method and path the providers lend.
    pub fn dispatch_request<M: HttpMethodProvider, P: UrlPathProvider>(
        &self,
        method: &M,
        path: &P,
    ) -> (r: MatchResult<'_, H>)
        ensures
            r.outcome() == dispatch_outcome(
                self.spec_routes(),
                self.spec_default(),
                method.spec_method(),
                path.spec_path(),
            ),
    {
        self.dispatch(method.method_str(), path.path_str())
    }
}

/// Whether `pat` matches the request; `chars` and `bounds` are the path's
/// characters and segment bounds.
fn route_matches(
    pat: &Pattern,
    method: &String,
    path: &str,
    chars: &Vec<char>,
    bounds: &Vec<(usize, usize)>,
) -> (r: bool)
    requires
        chars@ == path@,
        are_segment_bounds(path@, bounds@),
    ensures
        r == matches(*pat, method@, path@),
{
    if let MethodSpec::Literal(x) = &pat.method {
        if !(*x == *method) {
            return false;
        }
    }
    let ghost segs = pat.segments@;
    let ghost ps = segments(path@);
    assert(ps.len() == bounds.len());
    let n = pat.segments.len();
    let ends_in_rest = n > 0 && matches!(pat.segments[n - 1], PathSegmentSpec::Rest(_));
    assert(ends_in_rest == has_rest(segs));
    let fixed = if ends_in_rest {
        n - 1
    } else {
        n
    };
    if ends_in_rest {
        if bounds.len() < n - 1 {
            return false;
        }
    } else if bounds.len() != n {
        return false;
    }
    let mut i: usize = 0;
    while i < fixed
        invariant
            fixed == fixed_count(segs),
            fixed <= bounds.len(),
            segs == pat.segments@,
            fixed <= segs.len(),
            ps == segments(path@),
            chars@ == path@,
            are_segment_bounds(path@, bounds@),
            i <= fixed,
            forall|k: int| 0 <= k < i ==> segment_accepts(segs[k], #[trigger] ps[k]),
        decreases fixed - i,
    {
        proof {
            lemma_segment_bounds(path@, bounds@, i as int);
        }
        if let PathSegmentSpec::Literal(x) = &pat.segments[i] {
            let seg = text_at(path, bounds[i].0, bounds[i].1);
            if !(*x == seg) {
                return false;
            }
        }
        i = i + 1;
    }
    true
}

/// The values that `pat` captures from a request it matches.
fn extract_captures(
    pat: &Pattern,
    method: &String,
    path: &str,
    chars: &Vec<char>,
    bounds: &Vec<(usize, usize)>,
) -> (r: Vec<String>)
    requires
        chars@ == path@,
        are_segment_bounds(path@, bounds@),
        matches(*pat, method@, path@),
    ensures
        views(r@) == captures(*pat, method@, path@),
{
    let ghost segs = pat.segments@;
    let mut r: Vec<String> = Vec::new();
    let mut k: usize = 0;
    while k < pat.segments.len()
        invariant
            segs == pat.segments@,
            k <= segs.len(),
            chars@ == path@,
            are_segment_bounds(path@, bounds@),
            matches(*pat, method@, path@),
            views(r@) == path_captures(segs, path@, k as nat),
        decreases segs.len() - k,
    {
        let ghost before = r@;
        match &pat.segments[k] {
            PathSegmentSpec::Capture(_) => {
                assert(k < fixed_count(segs));
                proof {
                    lemma_segment_bounds(path@, bounds@, k as int);
                }
                r.push(text_at(path, bounds[k].0, bounds[k].1));
                assert(views(r@) =~= views(before).push(segments(path@)[k as int]));
            },
            PathSegmentSpec::Rest(Some(_)) => {
                if k < bounds.len() {
                    proof {
                        lemma_segment_bounds(path@, bounds@, k as int);
                    }
                    r.push(text_at(path, bounds[k].0, chars.len()));
                    assert(views(r@) =~= views(before).push(text_from_segment(path@, k as int)));
                } else {
                    r.push(String::new());
                    assert(views(r@) =~= views(before).push(text_from_segment(path@, k as int)));
                }
            },
            _ => {},
        }
        k = k + 1;
    }
    if let MethodSpec::Capture(_) = &pat.method {
        let ghost before = r@;
        r.push(method.clone());
        assert(views(r@) =~= views(before).push(method@));
    }
    r
}


/// At most one route is the first to match a request.
pub proof fn lemma_first_match_unique<H>(
    routes: Seq<Route<H>>,
    method: Seq<char>,
    path: Seq<char>,
    j1: int,
    j2: int,
)
    requires
        is_first_match(routes, method, path, j1),
        is_first_match(routes, method, path, j2),
    ensures
        j1 == j2,
{
    if j1 < j2 {
        assert(!matches(routes[j1].pattern, method, path));
    } else if j2 < j1 {
        assert(!matches(routes[j2].pattern, method, path));
    }
}

/// Dispatch is a function of the table and the request: two calls with the
/// same arguments on an unchanged table give the same result.
pub proof fn lemma_dispatch_deterministic<H>(
    router: Router<H>,
    method: Seq<char>,
    path: Seq<char>,
    r1: MatchResult<'_, H>,
    r2: MatchResult<'_, H>,
)
    requires
        r1.outcome() == dispatch_outcome(router.spec_routes(), router.spec_default(), method, path),
        r2.outcome() == dispatch_outcome(router.spec_routes(), router.spec_default(), method, path),
    ensures
        r1.outcome() == r2.outcome(),
{
}

/// The specs capture no raw rest text.
pub open spec fn has_no_named_rest(segs: Seq<PathSegmentSpec>) -> bool {
    forall|i: int| 0 <= i < segs.len() ==> !(#[trigger] segs[i] is Rest && segs[i]->Rest_0 is Some)
}

/// Without a named rest, the captured values depend on the path only through
/// its segments.
proof fn lemma_path_captures_by_segments(
    segs: Seq<PathSegmentSpec>,
    path_a: Seq<char>,
    path_b: Seq<char>,
    n: nat,
)
    requires
        has_no_named_rest(segs),
        segments(path_a) == segments(path_b),
        n <= segs.len(),
    ensures
        path_captures(segs, path_a, n) == path_captures(segs, path_b, n),
    decreases n,
{
    if n > 0 {
        lemma_path_captures_by_segments(segs, path_a, path_b, (n - 1) as nat);
        assert(!(segs[n - 1] is Rest && segs[n - 1]->Rest_0 is Some));
    }
}

/// Two paths that every route matches alike, with the same captures, are
/// dispatched alike.
proof fn lemma_dispatch_agrees<H>(
    routes: Seq<Route<H>>,
    default: Option<H>,
    method: Seq<char>,
    path_a: Seq<char>,
    path_b: Seq<char>,
)
    requires
        forall|j: int| #![trigger routes[j]]
            0 <= j < routes.len() ==> matches(routes[j].pattern, method, path_a) == matches(
                routes[j].pattern,
                method,
                path_b,
            ) && captures(routes[j].pattern, method, path_a) == captures(routes[j].pattern, method, path_b),
    ensures
        dispatch_outcome(routes, default, method, path_a) == dispatch_outcome(
            routes,
            default,
            method,
            path_b,
        ),
{
    assert forall|j: int|
        is_first_match(routes, method, path_a, j) == is_first_match(routes, method, path_b, j) by {
        if 0 <= j < routes.len() {
            assert(matches(routes[j].pattern, method, path_a) == matches(routes[j].pattern, method, path_b));
            assert forall|k: int| 0 <= k < j implies #[trigger] matches(
                routes[k].pattern,
                method,
                path_a,
            ) == matches(routes[k].pattern, method, path_b) by {
                assert(matches(routes[k].pattern, method, path_a) == matches(routes[k].pattern, method, path_b));
            }
        }
    }
    if exists|j: int| is_first_match(routes, method, path_a, j) {
        let j1 = choose|j: int| is_first_match(routes, method, path_a, j);
        let j2 = choose|j: int| is_first_match(routes, method, path_b, j);
        lemma_first_match_unique(routes, method, path_a, j1, j2);
    }
}

/// Paths with the same segments are dispatched alike, as long as no route
/// captures the raw text of a rest: repeated slashes, like leading and
/// trailing ones, make no difference then.
pub proof fn lemma_same_segments_same_dispatch<H>(
    router: Router<H>,
    method: Seq<char>,
    path_a: Seq<char>,
    path_b: Seq<char>,
)
    requires
        segments(path_a) == segments(path_b),
        forall|i: int|
            0 <= i < router.spec_routes().len() ==> has_no_named_rest(
                (#[trigger] router.spec_routes()[i]).pattern.segments@,
            ),
    ensures
        dispatch_outcome(router.spec_routes(), router.spec_default(), method, path_a)
            == dispatch_outcome(router.spec_routes(), router.spec_default(), method, path_b),
{
    let routes = router.spec_routes();
    assert forall|j: int| #![trigger routes[j]]
        0 <= j < routes.len() implies matches(routes[j].pattern, method, path_a) == matches(
        routes[j].pattern,
        method,
        path_b,
    ) && captures(routes[j].pattern, method, path_a) == captures(routes[j].pattern, method, path_b) by {
        let segs = routes[j].pattern.segments@;
        lemma_path_captures_by_segments(segs, path_a, path_b, segs.len());
    }
    lemma_dispatch_agrees(routes, router.spec_default(), method, path_a, path_b);
}

/// Captured values agree on paths with the same segments and the same text
/// from each segment on.
proof fn lemma_path_captures_by_text(
    segs: Seq<PathSegmentSpec>,
    path_a: Seq<char>,
    path_b: Seq<char>,
    n: nat,
)
    requires
        segments(path_a) == segments(path_b),
        forall|k: int| text_from_segment(path_a, k) == #[trigger] text_from_segment(path_b, k),
        n <= segs.len(),
    ensures
        path_captures(segs, path_a, n) == path_captures(segs, path_b, n),
    decreases n,
{
    if n > 0 {
        lemma_path_captures_by_text(segs, path_a, path_b, (n - 1) as nat);
        assert(text_from_segment(path_a, n - 1) == text_from_segment(path_b, n - 1));
    }
}

/// A leading slash never changes what a request is dispatched to, nor the
/// captured values.
pub proof fn lemma_leading_slash_same_dispatch<H>(router: Router<H>, method: Seq<char>, p: Seq<char>)
    ensures
        dispatch_outcome(router.spec_routes(), router.spec_default(), method, seq!['/'] + p)
            == dispatch_outcome(router.spec_routes(), router.spec_default(), method, p),
{
    let routes = router.spec_routes();
    let q = seq!['/'] + p;
    lemma_leading_slash(p);
    assert forall|j: int| #![trigger routes[j]]
        0 <= j < routes.len() implies matches(routes[j].pattern, method, q) == matches(
        routes[j].pattern,
        method,
        p,
    ) && captures(routes[j].pattern, method, q) == captures(routes[j].pattern, method, p) by {
        let segs = routes[j].pattern.segments@;
        lemma_path_captures_by_text(segs, q, p, segs.len());
    }
    lemma_dispatch_agrees(routes, router.spec_default(), method, q, p);
}

/// A trailing slash does not change what a request is dispatched to, and
/// changes no captured value unless a route captures the raw text of a rest.
pub proof fn lemma_trailing_slash_same_dispatch<H>(
    router: Router<H>,
    method: Seq<char>,
    p: Seq<char>,
)
    requires
        forall|i: int|
            0 <= i < router.spec_routes().len() ==> has_no_named_rest(
                (#[trigger] router.spec_routes()[i]).pattern.segments@,
            ),
    ensures
        dispatch_outcome(router.spec_routes(), router.spec_default(), method, p.push('/'))
            == dispatch_outcome(router.spec_routes(), router.spec_default(), method, p),
{
    lemma_trailing_slash(p);
    lemma_same_segments_same_dispatch(router, method, p.push('/'), p);
}

/// The captures of `n` path specs are as many as their capture names.
proof fn lemma_path_captures_len(segs: Seq<PathSegmentSpec>, path: Seq<char>, n: nat)
    requires
        n <= segs.len(),
    ensures
        path_captures(segs, path, n).len() == crate::pattern::path_capture_names(
            segs.take(n as int),
        ).len(),
    decreases n,
{
    if n > 0 {
        lemma_path_captures_len(segs, path, (n - 1) as nat);
        assert(segs.take(n as int).drop_last() =~= segs.take(n - 1));
    }
}

/// A matched route hands its handler one value per capture name of its
/// pattern, in the order of the names.
pub proof fn lemma_capture_count(pat: Pattern, method: Seq<char>, path: Seq<char>)
    ensures
        captures(pat, method, path).len() == capture_names(pat).len(),
{
    let segs = pat.segments@;
    lemma_path_captures_len(segs, path, segs.len());
    assert(segs.take(segs.len() as int) =~= segs);
}

} // verus!
