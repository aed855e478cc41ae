use route_match::{CompileError, MatchResult, MethodSpec, PathSegmentSpec, Pattern, Router};

fn router_of(routes: &[(&str, u32)], default: Option<u32>) -> Router<u32> {
    let mut router = Router::new();
    for (text, handler) in routes {
        router.register(text, *handler).unwrap();
    }
    if let Some(d) = default {
        router.set_default(d);
    }
    router
}

fn outcome(router: &Router<u32>, method: &str, path: &str) -> Option<(u32, Vec<String>)> {
    match router.dispatch(method, path) {
        MatchResult::Matched { handler, captures } => Some((*handler, captures)),
        MatchResult::NoMatch => None,
    }
}

fn strings(v: &[&str]) -> Vec<String> {
    v.iter().map(|s| s.to_string()).collect()
}

#[test]
fn first_match_wins_in_registration_order() {
    let router = router_of(&[("GET /foo", 1), ("POST /foo", 2), ("_ /foo", 3)], Some(4));
    assert_eq!(outcome(&router, "GET", "/foo"), Some((1, vec![])));
    assert_eq!(outcome(&router, "POST", "/foo"), Some((2, vec![])));
    assert_eq!(outcome(&router, "OPTIONS", "/foo"), Some((3, vec![])));
    assert_eq!(outcome(&router, "GET", "/bar"), Some((4, vec![])));
}

#[test]
fn general_route_registered_first_shadows_specific_one() {
    let router = router_of(&[("_ /foo", 1), ("GET /foo", 2)], None);
    assert_eq!(outcome(&router, "GET", "/foo"), Some((1, vec![])));
}

#[test]
fn slashes_do_not_change_the_match() {
    let router = router_of(&[("GET /foo", 1), ("GET /foo/:x", 2)], Some(9));
    let a = outcome(&router, "GET", "foo");
    assert_eq!(a, Some((1, vec![])));
    assert_eq!(outcome(&router, "GET", "/foo"), a);
    assert_eq!(outcome(&router, "GET", "/foo/"), a);
    assert_eq!(outcome(&router, "GET", "//foo//"), a);
    assert_eq!(outcome(&router, "GET", "foo//x/"), Some((2, strings(&["x"]))));
}

#[test]
fn root_pattern_matches_empty_and_slash() {
    let router = router_of(&[("GET /", 1)], None);
    assert_eq!(outcome(&router, "GET", ""), Some((1, vec![])));
    assert_eq!(outcome(&router, "GET", "/"), Some((1, vec![])));
    assert_eq!(outcome(&router, "GET", "/a"), None);
}

#[test]
fn captures_come_in_path_order() {
    let router = router_of(&[("GET /foo/:a/bar/:b", 1)], None);
    assert_eq!(outcome(&router, "GET", "/foo/X/bar/Y"), Some((1, strings(&["X", "Y"]))));
}

#[test]
fn literal_mismatch_fails_the_route() {
    let router = router_of(&[("GET /foo/bar/baz", 1)], Some(2));
    assert_eq!(outcome(&router, "GET", "/foo/bar"), Some((2, vec![])));
    assert_eq!(outcome(&router, "GET", "/foo/qux/baz"), Some((2, vec![])));
    assert_eq!(outcome(&router, "GET", "/foo/bar/baz/x"), Some((2, vec![])));
    assert_eq!(outcome(&router, "GET", "/foo/bar/baz"), Some((1, vec![])));
}

#[test]
fn unnamed_rest_is_a_catch_all() {
    let router = router_of(&[("GET /foo/..", 1)], None);
    assert_eq!(outcome(&router, "GET", "/foo"), Some((1, vec![])));
    assert_eq!(outcome(&router, "GET", "/foo/bar"), Some((1, vec![])));
    assert_eq!(outcome(&router, "GET", "/foo/bar/baz"), Some((1, vec![])));
    assert_eq!(outcome(&router, "GET", "/bar"), None);
}

#[test]
fn named_rest_keeps_raw_text() {
    let router = router_of(&[("GET /bar/..:rest", 1)], None);
    assert_eq!(outcome(&router, "GET", "/bar/foo/bar/baz"), Some((1, strings(&["foo/bar/baz"]))));
    assert_eq!(outcome(&router, "GET", "/bar//foo//baz/"), Some((1, strings(&["foo//baz/"]))));
    assert_eq!(outcome(&router, "GET", "/bar"), Some((1, strings(&[""]))));
}

#[test]
fn captured_method_comes_last() {
    let router = router_of(&[(":m /foo", 1), (":m /x/:id", 2)], None);
    assert_eq!(outcome(&router, "PATCH", "/foo"), Some((1, strings(&["PATCH"]))));
    assert_eq!(outcome(&router, "GET", "/x/7"), Some((2, strings(&["7", "GET"]))));
}

#[test]
fn wildcard_segment_matches_one_without_capture() {
    let router = router_of(&[("GET /a/_/c", 1)], None);
    assert_eq!(outcome(&router, "GET", "/a/anything/c"), Some((1, vec![])));
    assert_eq!(outcome(&router, "GET", "/a/c"), None);
}

#[test]
fn method_is_case_sensitive() {
    let router = router_of(&[("GET /foo", 1)], None);
    assert_eq!(outcome(&router, "get", "/foo"), None);
}

#[test]
fn empty_table_without_default_gives_no_match() {
    let router: Router<u32> = Router::new();
    assert_eq!(router.dispatch("GET", "/anything"), MatchResult::NoMatch);
}

#[test]
fn dispatch_twice_gives_the_same_result() {
    let router = router_of(&[("GET /a/:x", 1), ("_ /..:r", 2)], Some(3));
    for (m, p) in [("GET", "/a/b"), ("PUT", "/q/r/s"), ("GET", "")] {
        assert_eq!(router.dispatch(m, p), router.dispatch(m, p));
    }
}

#[test]
fn set_default_replaces_the_previous_one() {
    let mut router: Router<u32> = Router::new();
    router.set_default(1);
    router.set_default(2);
    assert_eq!(outcome(&router, "GET", "/"), Some((2, vec![])));
}

#[test]
fn compile_builds_the_pattern() {
    let p = Pattern::compile("GET /foo/:a/_/..:rest").unwrap();
    assert_eq!(
        p,
        Pattern {
            method: MethodSpec::Literal("GET".to_string()),
            segments: vec![
                PathSegmentSpec::Literal("foo".to_string()),
                PathSegmentSpec::Capture("a".to_string()),
                PathSegmentSpec::Any,
                PathSegmentSpec::Rest(Some("rest".to_string())),
            ],
        }
    );
    assert_eq!(p.capture_names(), strings(&["a", "rest"]));
    let q = Pattern::compile(":m /").unwrap();
    assert_eq!(q.method, MethodSpec::Capture("m".to_string()));
    assert!(q.segments.is_empty());
    let r = Pattern::compile("_ /..").unwrap();
    assert_eq!(r.method, MethodSpec::Any);
    assert_eq!(r.segments, vec![PathSegmentSpec::Rest(None)]);
}

#[test]
fn capture_names_end_with_the_method() {
    let p = Pattern::compile(":verb /x/:id/..:tail").unwrap();
    assert_eq!(p.capture_names(), strings(&["id", "tail", "verb"]));
}

#[test]
fn malformed_patterns_are_refused() {
    for text in [
        "", "GET", "GET foo", "GET  /foo", "GET /foo bar", "GET /foo/", "GET //foo", "GET /f$o",
        ": /foo", "GET /:", "GET /..:", "GET /...", "/foo", "GET /:a:b",
    ] {
        assert_eq!(Pattern::compile(text), Err(CompileError::Malformed), "{}", text);
    }
}

#[test]
fn rest_before_the_end_is_refused() {
    assert_eq!(Pattern::compile("GET /../foo"), Err(CompileError::RestNotLast));
    assert_eq!(Pattern::compile("GET /..:a/..:b"), Err(CompileError::RestNotLast));
}

#[test]
fn duplicate_capture_names_are_refused() {
    assert_eq!(Pattern::compile("GET /:a/:a"), Err(CompileError::DuplicateCapture));
    assert_eq!(Pattern::compile(":a /x/..:a"), Err(CompileError::DuplicateCapture));
}

#[test]
fn refused_registration_leaves_the_table_alone() {
    let mut router: Router<u32> = Router::new();
    assert_eq!(router.register("GET /ok", 1), Ok(()));
    assert_eq!(router.register("GET /:a/:a", 2), Err(CompileError::DuplicateCapture));
    assert_eq!(router.len(), 1);
    assert_eq!(outcome(&router, "GET", "/x/y"), None);
}

#[test]
fn dispatch_request_reads_the_providers() {
    let router = router_of(&[("GET /u/:id", 1)], None);
    let method = "GET".to_string();
    let path: &str = "/u/42";
    assert_eq!(router.dispatch_request(&method, &path), router.dispatch("GET", "/u/42"));
    match router.dispatch_request(&method, &path) {
        MatchResult::Matched { handler, captures } => {
            assert_eq!(*handler, 1);
            assert_eq!(captures, strings(&["42"]));
        }
        MatchResult::NoMatch => panic!("expected a match"),
    }
}

#[test]
fn leading_and_trailing_slashes_with_named_rest() {
    let router = router_of(&[("GET /f/..:r", 1)], None);
    assert_eq!(outcome(&router, "GET", "f/a/b"), outcome(&router, "GET", "/f/a/b"));
    assert_eq!(outcome(&router, "GET", "/f/a/b/"), Some((1, strings(&["a/b/"]))));
}
