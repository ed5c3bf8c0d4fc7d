use bx::router::{RouteError, RouteSegment, Router};

fn lit(s: &'static str) -> RouteSegment {
    RouteSegment::Literal(s)
}

fn var(s: &'static str) -> RouteSegment {
    RouteSegment::Variable(s)
}

#[test]
fn longer_literal_route_wins_and_miss_is_not_found() {
    let mut router: Router<&'static str> = Router::new();
    assert!(router.add(vec![lit("file")], "H1").is_ok());
    assert!(router.add(vec![lit("file"), lit("delete")], "H2").is_ok());

    let (h, bindings) = router.resolve(&["file", "delete"]).unwrap();
    assert_eq!(*h, "H2");
    assert!(bindings.is_empty());

    let (h, _) = router.resolve(&["file"]).unwrap();
    assert_eq!(*h, "H1");

    assert_eq!(router.resolve(&["file", "other"]).err(), Some(RouteError::RouteNotFound));
}

#[test]
fn literal_beats_variable_at_the_same_node() {
    let mut router: Router<&'static str> = Router::new();
    assert!(router.add(vec![lit("folder"), lit("0")], "H1").is_ok());
    assert!(router.add(vec![lit("folder"), var("id")], "H2").is_ok());

    let (h, bindings) = router.resolve(&["folder", "0"]).unwrap();
    assert_eq!(*h, "H1");
    assert!(bindings.is_empty());

    let (h, bindings) = router.resolve(&["folder", "7"]).unwrap();
    assert_eq!(*h, "H2");
    assert_eq!(bindings, vec![("id".to_string(), "7".to_string())]);
}

#[test]
fn registration_order_does_not_change_resolution() {
    let mut router: Router<&'static str> = Router::new();
    assert!(router.add(vec![lit("folder"), var("id")], "H2").is_ok());
    assert!(router.add(vec![lit("folder"), lit("0")], "H1").is_ok());

    assert_eq!(*router.resolve(&["folder", "0"]).unwrap().0, "H1");
    assert_eq!(*router.resolve(&["folder", "7"]).unwrap().0, "H2");
}

#[test]
fn duplicate_registration_is_refused() {
    let mut router: Router<u32> = Router::new();
    assert_eq!(router.add(vec![lit("user")], 1), Ok(()));
    assert_eq!(router.add(vec![lit("user")], 2), Err(RouteError::DuplicateRoute));
    assert_eq!(*router.resolve(&["user"]).unwrap().0, 1);

    assert_eq!(router.add(vec![lit("user"), var("id")], 3), Ok(()));
    assert_eq!(router.add(vec![lit("user"), var("id")], 4), Err(RouteError::DuplicateRoute));
    assert_eq!(*router.resolve(&["user", "2"]).unwrap().0, 3);
}

#[test]
fn resolution_backtracks_from_a_literal_dead_end() {
    let mut router: Router<&'static str> = Router::new();
    assert!(router.add(vec![lit("folder"), lit("0"), lit("items")], "root-items").is_ok());
    assert!(router.add(vec![lit("folder"), var("id"), lit("info")], "info").is_ok());

    let (h, bindings) = router.resolve(&["folder", "0", "info"]).unwrap();
    assert_eq!(*h, "info");
    assert_eq!(bindings, vec![("id".to_string(), "0".to_string())]);

    assert_eq!(*router.resolve(&["folder", "0", "items"]).unwrap().0, "root-items");
    assert_eq!(router.resolve(&["folder", "3", "items"]).err(), Some(RouteError::RouteNotFound));
}

#[test]
fn earliest_literal_decides_between_matching_routes() {
    let mut router: Router<&'static str> = Router::new();
    assert!(router.add(vec![var("a"), lit("x")], "late-literal").is_ok());
    assert!(router.add(vec![lit("k"), var("b")], "early-literal").is_ok());

    let (h, bindings) = router.resolve(&["k", "x"]).unwrap();
    assert_eq!(*h, "early-literal");
    assert_eq!(bindings, vec![("b".to_string(), "x".to_string())]);
}

#[test]
fn variables_bind_in_route_order() {
    let mut router: Router<u8> = Router::new();
    assert!(router.add(vec![lit("file"), var("fileID"), lit("move"), var("folderID")], 9).is_ok());
    let (h, bindings) = router.resolve(&["file", "12", "move", "34"]).unwrap();
    assert_eq!(*h, 9);
    assert_eq!(
        bindings,
        vec![
            ("fileID".to_string(), "12".to_string()),
            ("folderID".to_string(), "34".to_string())
        ]
    );
}

#[test]
fn empty_router_and_empty_path() {
    let mut router: Router<u8> = Router::new();
    assert_eq!(router.resolve(&[]).err(), Some(RouteError::RouteNotFound));
    assert_eq!(router.resolve(&["x"]).err(), Some(RouteError::RouteNotFound));
    assert_eq!(router.add(vec![], 0), Ok(()));
    assert_eq!(*router.resolve(&[]).unwrap().0, 0);
    assert_eq!(router.add(vec![], 1), Err(RouteError::DuplicateRoute));
}

#[test]
fn prefix_without_handler_is_not_found() {
    let mut router: Router<u8> = Router::new();
    assert!(router.add(vec![lit("file"), lit("update")], 1).is_ok());
    assert_eq!(router.resolve(&["file"]).err(), Some(RouteError::RouteNotFound));
}

#[test]
fn segment_accepts_tokens() {
    assert!(lit("file").accepts("file"));
    assert!(!lit("file").accepts("File"));
    assert!(!lit("file").accepts("files"));
    assert!(var("id").accepts("anything"));
    assert!(lit("").accepts(""));
    assert!(lit("x").is_literal());
    assert!(!var("x").is_literal());
}

#[test]
fn routes_differing_only_in_variable_names_resolve_by_name() {
    let mut ab: Router<u8> = Router::new();
    assert_eq!(ab.add(vec![var("a")], 1), Ok(()));
    assert_eq!(ab.add(vec![var("b")], 2), Ok(()));
    let mut ba: Router<u8> = Router::new();
    assert_eq!(ba.add(vec![var("b")], 2), Ok(()));
    assert_eq!(ba.add(vec![var("a")], 1), Ok(()));

    let (h, bindings) = ab.resolve(&["x"]).unwrap();
    assert_eq!(*h, 1);
    assert_eq!(bindings, vec![("a".to_string(), "x".to_string())]);
    let (h, bindings) = ba.resolve(&["x"]).unwrap();
    assert_eq!(*h, 1);
    assert_eq!(bindings, vec![("a".to_string(), "x".to_string())]);

    assert_eq!(ab.add(vec![var("b")], 3), Err(RouteError::DuplicateRoute));
}

#[test]
fn specificity_comes_before_variable_names() {
    for order in [false, true] {
        let mut router: Router<&'static str> = Router::new();
        let routes = [
            (vec![lit("folder"), var("zz"), lit("x")], "literal-later"),
            (vec![lit("folder"), var("aa"), var("y")], "names-first"),
            (vec![lit("folder"), var("id"), lit("x"), var("n")], "longer"),
        ];
        let list: Vec<_> = if order { routes.into_iter().rev().collect() } else { routes.into_iter().collect() };
        for (r, h) in list {
            assert_eq!(router.add(r, h), Ok(()));
        }
        assert_eq!(*router.resolve(&["folder", "1", "x"]).unwrap().0, "literal-later");
        assert_eq!(*router.resolve(&["folder", "1", "q"]).unwrap().0, "names-first");
    }
}
