use route_match::{MatchResult, Router};

fn table<H>(routes: Vec<(&str, H)>, default: Option<H>) -> Router<H> {
    let mut router = Router::new();
    for (text, handler) in routes {
        router.register(text, handler).unwrap();
    }
    if let Some(d) = default {
        router.set_default(d);
    }
    router
}

type Handler = fn(&[String]) -> String;

fn run(router: &Router<Handler>, method: &str, path: &str) -> String {
    match router.dispatch(method, path) {
        MatchResult::Matched { handler, captures } => handler(&captures),
        MatchResult::NoMatch => panic!("no route and no default"),
    }
}

#[test]
fn test_route_by_method() {
    let router = table(
        vec![("GET /foo", 1u8), ("POST /foo", 2), ("OPTIONS /foo", 3)],
        Some(4),
    );
    let route = |method: &str, path: &str| -> u8 {
        match router.dispatch(method, path) {
            MatchResult::Matched { handler, .. } => *handler,
            MatchResult::NoMatch => panic!("no route and no default"),
        }
    };

    assert_eq!(route("GET", "/foo"), 1);
    assert_eq!(route("GET", "foo"), 1);
    assert_eq!(route("POST", "/foo"), 2);
    assert_eq!(route("OPTIONS", "/foo"), 3);
    assert_eq!(route("CONNECT", "/foo"), 4);
    assert_eq!(route("GET", "foo/bar"), 4);
}

#[test]
fn test_route_by_path() {
    let router = table(
        vec![
            ("GET /foo/bar/baz", 5u8),
            ("GET /foo", 1),
            ("GET /bar", 2),
            ("GET /baz", 3),
        ],
        Some(4),
    );
    let route = |method: &str, path: &str| -> u8 {
        match router.dispatch(method, path) {
            MatchResult::Matched { handler, .. } => *handler,
            MatchResult::NoMatch => panic!("no route and no default"),
        }
    };

    assert_eq!(route("GET", "/foo"), 1);
    assert_eq!(route("GET", "/bar"), 2);
    assert_eq!(route("GET", "/baz"), 3);
    assert_eq!(route("GET", "/foo/bar"), 4);
    assert_eq!(route("GET", "/foo/bar/baz"), 5);
    assert_eq!(route("POST", "/foo"), 4);
}

#[test]
fn test_path_args() {
    let router: Router<Handler> = table(
        vec![
            ("GET /foo/bar", (|_: &[String]| "static".to_string()) as Handler),
            ("GET /foo/:arg1/bar/:arg2", (|c: &[String]| format!("{}:{}", c[0], c[1])) as Handler),
            ("GET /foo/:arg", (|c: &[String]| c[0].to_string()) as Handler),
        ],
        Some((|_: &[String]| "none".to_string()) as Handler),
    );

    assert_eq!(&run(&router, "GET", "/foo/bar"), "static");
    assert_eq!(&run(&router, "GET", "/foo/baz"), "baz");
    assert_eq!(&run(&router, "GET", "/foo/foo/bar/bar"), "foo:bar");
    assert_eq!(&run(&router, "GET", "/baz"), "none");
}

#[test]
fn test_wildcard() {
    let router: Router<Handler> = table(
        vec![
            ("GET /foo/..", (|_: &[String]| "static".to_string()) as Handler),
            ("GET /bar/..:rest", (|c: &[String]| c[0].to_string()) as Handler),
        ],
        Some((|_: &[String]| "none".to_string()) as Handler),
    );

    assert_eq!(&run(&router, "GET", "/foo/bar/baz"), "static");
    assert_eq!(&run(&router, "GET", "/bar/baz"), "baz");
    assert_eq!(&run(&router, "GET", "/bar/foo/bar/baz"), "foo/bar/baz");
    assert_eq!(&run(&router, "GET", "/baz"), "none");
}

#[test]
fn test_any_method() {
    let router: Router<Handler> = table(
        vec![
            ("GET /foo", (|_: &[String]| "GET".to_string()) as Handler),
            ("_ /foo", (|_: &[String]| "any_method".to_string()) as Handler),
        ],
        Some((|_: &[String]| "none".to_string()) as Handler),
    );

    assert_eq!(&run(&router, "GET", "/foo"), "GET");
    assert_eq!(&run(&router, "POS", "/foo"), "any_method");
    assert_eq!(&run(&router, "POST", "/bar/baz"), "none");
    assert_eq!(&run(&router, "GET", "/baz"), "none");
}
