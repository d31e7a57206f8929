use rm_server_sync::{route_error, routes, valid_name};

#[test]
fn fixed_routes_pass_with_their_method() {
    for (method, path) in [
        ("GET", "/ping"),
        ("POST", "/users"),
        ("POST", "/sessions"),
        ("DELETE", "/sessions/current"),
        ("GET", "/texts"),
        ("POST", "/echo"),
        ("DELETE", "/users/me"),
    ] {
        assert_eq!(route_error(method, path), None);
    }
}

#[test]
fn fixed_routes_refuse_other_methods() {
    assert_eq!(route_error("PATCH", "/ping"), Some(405));
    assert_eq!(route_error("GET", "/echo"), Some(405));
    assert_eq!(route_error("GET", "/users"), Some(405));
    assert_eq!(route_error("PATCH", "/users/me"), Some(405));
}

#[test]
fn unknown_paths_are_not_found() {
    assert_eq!(route_error("GET", "/missing"), Some(404));
    assert_eq!(route_error("GET", "/unknown_route"), Some(404));
    assert_eq!(route_error("GET", "/texts/"), Some(404));
    assert_eq!(route_error("GET", "/texts/a/b"), Some(404));
    assert_eq!(route_error("GET", ""), Some(404));
}

#[test]
fn text_paths_take_get_put_delete() {
    assert_eq!(route_error("GET", "/texts/note"), None);
    assert_eq!(route_error("PUT", "/texts/note"), None);
    assert_eq!(route_error("DELETE", "/texts/note"), None);
    assert_eq!(route_error("POST", "/texts/note"), Some(405));
    assert_eq!(route_error("GET", "/texts/invalid!name"), None);
}

#[test]
fn valid_names() {
    assert!(valid_name("alice", 32));
    assert!(valid_name("A_b-9", 5));
    assert!(!valid_name("A_b-9", 4));
    assert!(!valid_name("", 32));
    assert!(!valid_name("a/b", 32));
    assert!(!valid_name("invalid!name", 64));
    assert!(!valid_name("é", 32));
    assert!(valid_name(&"x".repeat(64), 64));
    assert!(!valid_name(&"x".repeat(65), 64));
}

#[test]
fn route_table_lists_the_fixed_routes() {
    assert_eq!(
        routes(),
        vec![
            ("GET", "/ping"),
            ("POST", "/users"),
            ("POST", "/sessions"),
            ("DELETE", "/sessions/current"),
            ("GET", "/texts"),
            ("POST", "/echo"),
            ("DELETE", "/users/me"),
        ]
    );
    for (method, path) in routes() {
        assert_eq!(route_error(method, path), None);
    }
}
