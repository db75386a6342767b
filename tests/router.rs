use hirola::route::RouteError;
use hirola::router::{HistoryAction, NavigationEvent, Router, RouterState};

fn page_a(_: &u8) -> &'static str {
    "a"
}

fn page_b(_: &u8) -> &'static str {
    "b"
}

fn router() -> Router<fn(&u8) -> &'static str> {
    let mut r: Router<fn(&u8) -> &'static str> = Router::new("/");
    assert_eq!(r.route("/", page_a), Ok(()));
    assert_eq!(r.route("/x", page_b), Ok(()));
    assert_eq!(r.route("/users/:id", page_b), Ok(()));
    r
}

#[test]
fn pop_with_fragment_is_ignored_and_hash_change_replaces() {
    let mut r = router();
    let page = r.render().ok().unwrap();
    assert_eq!(page.route, 0);
    let action = r.handler.on_pop("/elsewhere", "#/x");
    assert!(matches!(action, HistoryAction::Keep));
    assert_eq!(r.handler.current(), "/");
    assert!(r.advance().is_none());
    match r.handler.on_hash_change("#/x") {
        HistoryAction::Replace(p) => assert_eq!(p, "/x"),
        _ => panic!("expected a replace"),
    }
    assert_eq!(r.handler.current(), "/x");
    let page = r.advance().unwrap().ok().unwrap();
    assert_eq!((r.routes().handler(page.route))(&0), "b");
}

#[test]
fn pop_without_fragment_follows_the_platform() {
    let mut r = router();
    assert!(matches!(r.handler.on_pop("/x", ""), HistoryAction::Keep));
    assert_eq!(r.handler.current(), "/x");
}

#[test]
fn navigation_pushes_and_replaces_the_page() {
    let mut r = router();
    let first = r.render().ok().unwrap();
    let mut nodes_root = first.root;
    match r.handler.push("/users/7") {
        HistoryAction::Push(p) => assert_eq!(p, "/users/7"),
        _ => panic!("expected a push"),
    }
    r.handler.push("/x");
    let second = r.advance().unwrap().ok().unwrap();
    assert_eq!(second.route, 2);
    assert_eq!(second.params, vec![("id".to_string(), "7".to_string())]);
    assert!(!r.nodes().mounted(nodes_root));
    assert!(r.nodes().mounted(second.root));
    assert!(second.disposed.is_empty());
    nodes_root = second.root;
    let third = r.advance().unwrap().ok().unwrap();
    assert_eq!(third.route, 1);
    assert!(!r.nodes().mounted(nodes_root));
    assert_eq!(r.mounted_root(), Some(third.root));
    assert!(r.advance().is_none());
    match r.state() {
        RouterState::Resolved { location, route, params } => {
            assert_eq!(location, "/x");
            assert_eq!(*route, 1);
            assert!(params.is_empty());
        }
        RouterState::Idle => panic!("expected a resolved state"),
    }
}

#[test]
fn unknown_location_mounts_nothing() {
    let mut r = router();
    let first = r.render().ok().unwrap();
    r.handler.push("/nowhere");
    assert!(matches!(r.advance(), Some(Err(RouteError::RouteNotFound))));
    assert_eq!(r.mounted_root(), Some(first.root));
    assert!(r.nodes().mounted(first.root));
    assert!(matches!(r.current_params(), Err(RouteError::RouteNotFound)));
}

#[test]
fn router_starts_idle_and_reports_params() {
    let mut r = router();
    assert!(matches!(r.state(), RouterState::Idle));
    assert_eq!(r.mounted_root(), None);
    r.handler.push("/users/42");
    assert_eq!(r.current_params().ok().unwrap(), vec![("id".to_string(), "42".to_string())]);
    let mut other: Router<u8> = r.coerce();
    assert_eq!(other.handler.current(), "/users/42");
    assert_eq!(other.routes().len(), 0);
    assert!(matches!(other.advance(), Some(Err(RouteError::RouteNotFound))));
}

#[test]
fn signal_adds_a_subscription_after_the_routers_own() {
    let mut r = router();
    assert_eq!(r.handler.signal(), 1);
    r.handler.push("/a");
    r.handler.on_hash_change("#b");
    assert_eq!(r.handler.current(), "b");
}

#[test]
fn replaced_page_effects_are_disposed_last_first() {
    let mut r = router();
    let first = r.render().ok().unwrap();
    let sub = r.handler.signal();
    let e0 = r.spawn(first.root, sub);
    let e1 = r.spawn(first.root, sub);
    let e2 = r.spawn(first.root, sub);
    r.handler.push("/x");
    let second = r.advance().unwrap().ok().unwrap();
    assert_eq!(second.disposed, vec![e2, e1, e0]);
    assert!(r.nodes().disposed(e0) && r.nodes().disposed(e1) && r.nodes().disposed(e2));
    assert!(!r.nodes().mounted(first.root));
    let e3 = r.spawn(second.root, sub);
    r.handler.push("/");
    let third = r.advance().unwrap().ok().unwrap();
    assert_eq!(third.disposed, vec![e3]);
    assert!(r.nodes().mounted(third.root));
}

#[test]
fn dispatched_events_drive_the_location() {
    let mut r = router();
    match r.dispatch(NavigationEvent::Navigate("/x".to_string())) {
        HistoryAction::Push(p) => assert_eq!(p, "/x"),
        _ => panic!("expected a push"),
    }
    let pop = NavigationEvent::Pop { path: "/y".to_string(), hash: "#/z".to_string() };
    assert!(matches!(r.dispatch(pop), HistoryAction::Keep));
    assert_eq!(r.handler.current(), "/x");
    match r.dispatch(NavigationEvent::HashChange("#/users/3".to_string())) {
        HistoryAction::Replace(p) => assert_eq!(p, "/users/3"),
        _ => panic!("expected a replace"),
    }
    let pop = NavigationEvent::Pop { path: "/".to_string(), hash: String::new() };
    assert!(matches!(r.dispatch(pop), HistoryAction::Keep));
    let routes: Vec<usize> = std::iter::from_fn(|| r.advance()).map(|p| p.ok().unwrap().route).collect();
    assert_eq!(routes, vec![1, 2, 0]);
}
