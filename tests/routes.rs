use hirola::route::{RouteError, RouteTable};

fn params(v: &[(&str, &str)]) -> Vec<(String, String)> {
    v.iter().map(|(a, b)| (a.to_string(), b.to_string())).collect()
}

#[test]
fn literal_beats_capture() {
    let mut t = RouteTable::new();
    assert_eq!(t.add("/users/:id", "id"), Ok(()));
    assert_eq!(t.add("/users/new", "new"), Ok(()));
    let r = t.resolve("/users/new").ok().unwrap();
    assert_eq!(*t.handler(r.route), "new");
    assert!(r.params.is_empty());
    let r = t.resolve("/users/42").ok().unwrap();
    assert_eq!(*t.handler(r.route), "id");
    assert_eq!(r.params, params(&[("id", "42")]));
}

#[test]
fn capture_beats_wildcard() {
    let mut t = RouteTable::new();
    assert_eq!(t.add("/a/*", "rest"), Ok(()));
    assert_eq!(t.add("/a/:b", "b"), Ok(()));
    let r = t.resolve("/a/x").ok().unwrap();
    assert_eq!(*t.handler(r.route), "b");
    assert_eq!(r.params, params(&[("b", "x")]));
    let r = t.resolve("/a/x/y").ok().unwrap();
    assert_eq!(*t.handler(r.route), "rest");
}

#[test]
fn duplicate_and_malformed_patterns_are_rejected() {
    let mut t = RouteTable::new();
    assert_eq!(t.add("/a/:b", 1), Ok(()));
    assert_eq!(t.add("/a/:b", 2), Err(RouteError::DuplicateRoute));
    assert_eq!(t.add("/a/**/b", 3), Err(RouteError::InvalidPattern));
    assert_eq!(t.add("/a/*/b", 3), Err(RouteError::InvalidPattern));
    assert_eq!(t.add("/a//b", 3), Err(RouteError::InvalidPattern));
    assert_eq!(t.add("/:x/:x", 3), Err(RouteError::InvalidPattern));
    assert_eq!(t.add("/:", 3), Err(RouteError::InvalidPattern));
    assert_eq!(t.add("a", 3), Err(RouteError::InvalidPattern));
    assert_eq!(t.add("", 3), Err(RouteError::InvalidPattern));
    assert_eq!(t.len(), 1);
}

#[test]
fn unmatched_path_is_not_found() {
    let mut t = RouteTable::new();
    assert_eq!(t.add("/users/:id", ()), Ok(()));
    assert!(matches!(t.resolve("/posts/1"), Err(RouteError::RouteNotFound)));
    assert!(matches!(t.resolve("/users"), Err(RouteError::RouteNotFound)));
    assert!(matches!(t.resolve("/users/"), Err(RouteError::RouteNotFound)));
    assert!(matches!(t.resolve("users/1"), Err(RouteError::RouteNotFound)));
}

#[test]
fn equally_specific_patterns_pick_the_first_registered() {
    let mut t = RouteTable::new();
    assert_eq!(t.add("/a/:x", 'x'), Ok(()));
    assert_eq!(t.add("/a/:y", 'y'), Ok(()));
    let r = t.resolve("/a/1").ok().unwrap();
    assert_eq!(r.route, 0);
    assert_eq!(r.params, params(&[("x", "1")]));
}

#[test]
fn trailing_wildcard_catches_everything() {
    let mut t = RouteTable::new();
    assert_eq!(t.add("/", "home"), Ok(()));
    assert_eq!(t.add("/*", "fallback"), Ok(()));
    assert_eq!(*t.handler(t.resolve("/").ok().unwrap().route), "home");
    assert_eq!(*t.handler(t.resolve("/q/r").ok().unwrap().route), "fallback");
    assert_eq!(*t.handler(t.resolve("/q").ok().unwrap().route), "fallback");
}
