use rm_server_sync::{error, Body, Data, JsonField, Reply, Service};

fn account(name: &str, password: &str) -> Body {
    Body::object(vec![
        ("username".to_string(), JsonField::Str(name.to_string())),
        ("password".to_string(), JsonField::Str(password.to_string())),
    ])
}

fn text_body(text: &str) -> Body {
    Body::object(vec![("text".to_string(), JsonField::Str(text.to_string()))])
}

fn message(status: u16, text: &str) -> (u16, Reply) {
    (status, Reply::Message(text.to_string()))
}

fn token_of(reply: &Reply) -> String {
    match reply {
        Reply::Data(Data::Session(t, _)) => t.clone(),
        other => panic!("no token in {:?}", other),
    }
}

fn bearer(reply: &Reply) -> String {
    format!("Bearer {}", token_of(reply))
}

fn null() -> (u16, Reply) {
    (200, Reply::Data(Data::Null))
}

#[test]
fn account_lifecycle() {
    let mut service = Service::default();
    let account = account("alice", "password1");
    assert_eq!(service.handle("POST", "/users", &account, "", 0).0, 201);
    assert_eq!(service.handle("POST", "/users", &account, "", 0).0, 409);
    let login = service.handle("POST", "/sessions", &account, "", 0).1;
    let old = bearer(&login);
    let login = service.handle("POST", "/sessions", &account, "", 0).1;
    let current = bearer(&login);
    assert_ne!(old, current);
    assert_eq!(service.handle("GET", "/texts", &Body::Other, &old, 0).0, 401);
    assert_eq!(
        service.handle("GET", "/texts", &Body::Other, &current, 0),
        (200, Reply::Data(Data::Names(vec![])))
    );
    assert_eq!(
        service
            .handle("DELETE", "/sessions/current", &Body::Other, &current, 0)
            .0,
        200
    );
    assert_eq!(
        service.handle("GET", "/texts", &Body::Other, &current, 0).0,
        401
    );
}

#[test]
fn input_validation_and_baseline() {
    let mut service = Service::default();
    assert_eq!(
        service.handle("GET", "/ping", &Body::Other, "", 0),
        (200, Reply::Data(Data::Text("pong".to_string())))
    );
    for body in [
        Body::Other,
        Body::Other,
        Body::object(vec![
            ("username".to_string(), JsonField::Other),
            ("password".to_string(), JsonField::Str("password1".to_string())),
        ]),
        account("a/b", "password1"),
    ] {
        assert_eq!(service.handle("POST", "/users", &body, "", 0).0, 400);
    }
    assert_eq!(service.handle("GET", "/texts", &Body::Other, "", 0).0, 401);
    assert_eq!(service.handle("GET", "/missing", &Body::Other, "", 0).0, 404);
}

#[test]
fn registration_reply_and_duplicate() {
    let mut service = Service::default();
    assert_eq!(
        service.handle("POST", "/users", &account("alice", "password1"), "", 0),
        (201, Reply::Data(Data::Username("alice".to_string())))
    );
    assert_eq!(
        service.handle("POST", "/users", &account("alice", "other-password"), "", 0),
        message(409, "Username exists")
    );
}

#[test]
fn account_field_errors() {
    let mut service = Service::default();
    let only_name = Body::object(vec![("username".to_string(), JsonField::Str("alice".to_string()))]);
    assert_eq!(service.handle("POST", "/users", &only_name, "", 0), message(400, "Expected password"));
    assert_eq!(service.handle("POST", "/users", &Body::Other, "", 0), message(400, "Expected username"));
    let extra = Body::object(vec![
        ("username".to_string(), JsonField::Str("alice".to_string())),
        ("password".to_string(), JsonField::Str("password1".to_string())),
        ("extra".to_string(), JsonField::Other),
    ]);
    assert_eq!(service.handle("POST", "/users", &extra, "", 0), message(400, "Invalid account fields"));
    assert_eq!(
        service.handle("POST", "/users", &account("alice", "short"), "", 0),
        message(400, "Invalid account fields")
    );
    assert_eq!(
        service.handle("POST", "/users", &account("alice", &"p".repeat(129)), "", 0),
        message(400, "Invalid account fields")
    );
    assert_eq!(service.handle("POST", "/users", &account("alice", &"p".repeat(128)), "", 0).0, 201);
    assert_eq!(
        service.handle("POST", "/users", &account(&"n".repeat(33), "password1"), "", 0),
        message(400, "Invalid account fields")
    );
    // Eight characters, more than eight bytes.
    assert_eq!(service.handle("POST", "/users", &account("bob", "ééééééé1"), "", 0).0, 201);
}

#[test]
fn login_errors() {
    let mut service = Service::default();
    assert_eq!(
        service.handle("POST", "/sessions", &account("alice", "password1"), "", 0),
        message(401, "Invalid username or password")
    );
    assert_eq!(service.handle("POST", "/users", &account("alice", "password1"), "", 0).0, 201);
    assert_eq!(
        service.handle("POST", "/sessions", &account("alice", "password2"), "", 0),
        message(401, "Invalid username or password")
    );
    let login = service.handle("POST", "/sessions", &account("alice", "password1"), "", 0);
    assert_eq!(login.0, 200);
    let token = token_of(&login.1);
    assert_eq!(token.len(), 64);
    assert!(token.chars().all(|c| c.is_ascii_digit() || ('a'..='f').contains(&c)));
}

#[test]
fn routing_errors_come_first() {
    let mut service = Service::default();
    assert_eq!(service.handle("GET", "/missing", &Body::Other, "", 0), message(404, "Not found"));
    assert_eq!(service.handle("PATCH", "/ping", &Body::Other, "", 0), message(405, "Method not allowed"));
    assert_eq!(service.handle("GET", "/echo", &Body::Other, "", 0), message(405, "Method not allowed"));
    assert_eq!(service.handle("DELETE", "/users/me", &Body::Other, "", 0), message(401, "Login required"));
    for path in ["/ping", "/users", "/sessions", "/sessions/current", "/texts", "/users/me"] {
        assert_eq!(service.handle("PATCH", path, &Body::Other, "", 0).0, 405);
    }
}

#[test]
fn echo_replies() {
    let mut service = Service::default();
    assert_eq!(
        service.handle("POST", "/echo", &text_body("Hello\nWorld! 🚀"), "", 0),
        (200, Reply::Data(Data::Text("Hello\nWorld! 🚀".to_string())))
    );
    assert_eq!(
        service.handle("POST", "/echo", &text_body(""), "", 0),
        (200, Reply::Data(Data::Text(String::new())))
    );
    assert_eq!(service.handle("POST", "/echo", &Body::object(vec![]), "", 0), message(400, "Expected text"));
    let number = Body::object(vec![("text".to_string(), JsonField::Other)]);
    assert_eq!(service.handle("POST", "/echo", &number, "", 0), message(400, "Expected text"));
    let extra = Body::object(vec![
        ("text".to_string(), JsonField::Str("hi".to_string())),
        ("extra".to_string(), JsonField::Str("field".to_string())),
    ]);
    assert_eq!(service.handle("POST", "/echo", &extra, "", 0), message(400, "Invalid fields"));
    assert_eq!(
        service.handle("POST", "/echo", &text_body(&"a".repeat(65_537)), "", 0),
        message(413, "Text too large")
    );
    assert_eq!(service.handle("POST", "/echo", &text_body(&"a".repeat(65_536)), "", 0).0, 200);
    // 32769 two-byte characters are 65538 bytes.
    assert_eq!(service.handle("POST", "/echo", &text_body(&"é".repeat(32_769)), "", 0).0, 413);
}

#[test]
fn text_lifecycle_and_isolation() {
    let mut service = Service::default();
    assert_eq!(service.handle("POST", "/users", &account("alice", "password1"), "", 0).0, 201);
    assert_eq!(service.handle("POST", "/users", &account("bob", "password1"), "", 0).0, 201);
    let alice = bearer(&service.handle("POST", "/sessions", &account("alice", "password1"), "", 0).1);
    let bob = bearer(&service.handle("POST", "/sessions", &account("bob", "password1"), "", 0).1);

    assert_eq!(service.handle("PUT", "/texts/note", &text_body("alice note"), &alice, 0), null());
    assert_eq!(
        service.handle("GET", "/texts/note", &Body::Other, &alice, 0),
        (200, Reply::Data(Data::Text("alice note".to_string())))
    );
    assert_eq!(
        service.handle("GET", "/texts/note", &Body::Other, &bob, 0),
        message(404, "Text not found")
    );
    assert_eq!(service.handle("PUT", "/texts/note", &text_body("bob note"), &bob, 0), null());
    assert_eq!(
        service.handle("GET", "/texts/note", &Body::Other, &alice, 0),
        (200, Reply::Data(Data::Text("alice note".to_string())))
    );
    assert_eq!(
        service.handle("GET", "/texts/note", &Body::Other, &bob, 0),
        (200, Reply::Data(Data::Text("bob note".to_string())))
    );
    assert_eq!(service.handle("DELETE", "/texts/note", &Body::Other, &alice, 0), null());
    assert_eq!(
        service.handle("DELETE", "/texts/note", &Body::Other, &alice, 0),
        message(404, "Text not found")
    );
    assert_eq!(service.handle("GET", "/texts/note", &Body::Other, &alice, 0).0, 404);
    assert_eq!(service.handle("GET", "/texts/note", &Body::Other, &bob, 0).0, 200);
    assert_eq!(
        service.handle("GET", "/texts/invalid!name", &Body::Other, &alice, 0),
        message(400, "Invalid text name")
    );
}

#[test]
fn text_listing_is_in_name_order() {
    let mut service = Service::default();
    assert_eq!(service.handle("POST", "/users", &account("carol", "password1"), "", 0).0, 201);
    let carol = bearer(&service.handle("POST", "/sessions", &account("carol", "password1"), "", 0).1);
    for name in ["b", "a", "B", "c_1", "c-1", "a"] {
        assert_eq!(service.handle("PUT", &format!("/texts/{name}"), &text_body(name), &carol, 0), null());
    }
    let names: Vec<String> = ["B", "a", "b", "c-1", "c_1"].iter().map(|s| s.to_string()).collect();
    assert_eq!(
        service.handle("GET", "/texts", &Body::Other, &carol, 0),
        (200, Reply::Data(Data::Names(names)))
    );
}

#[test]
fn put_text_errors() {
    let mut service = Service::default();
    assert_eq!(service.handle("POST", "/users", &account("dave", "password1"), "", 0).0, 201);
    let dave = bearer(&service.handle("POST", "/sessions", &account("dave", "password1"), "", 0).1);
    assert_eq!(service.handle("PUT", "/texts/x", &Body::Other, &dave, 0), message(400, "Expected text"));
    let extra = Body::object(vec![
        ("text".to_string(), JsonField::Str("hi".to_string())),
        ("more".to_string(), JsonField::Other),
    ]);
    assert_eq!(service.handle("PUT", "/texts/x", &extra, &dave, 0), message(400, "Invalid fields"));
    assert_eq!(
        service.handle("PUT", "/texts/x", &text_body(&"a".repeat(65_537)), &dave, 0),
        message(413, "Text too large")
    );
    assert_eq!(
        service.handle("GET", "/texts", &Body::Other, &dave, 0),
        (200, Reply::Data(Data::Names(vec![])))
    );
    assert_eq!(
        service.handle("PUT", &format!("/texts/{}", "n".repeat(65)), &text_body("x"), &dave, 0),
        message(400, "Invalid text name")
    );
}

#[test]
fn user_deletion_lifecycle_and_cleanup() {
    let mut service = Service::default();
    assert_eq!(service.handle("POST", "/users", &account("alice", "password1"), "", 0).0, 201);
    assert_eq!(service.handle("POST", "/users", &account("bob", "password1"), "", 0).0, 201);
    let alice = bearer(&service.handle("POST", "/sessions", &account("alice", "password1"), "", 0).1);
    let bob = bearer(&service.handle("POST", "/sessions", &account("bob", "password1"), "", 0).1);
    assert_eq!(service.handle("PUT", "/texts/shared_name", &text_body("alice text"), &alice, 0), null());
    assert_eq!(service.handle("PUT", "/texts/shared_name", &text_body("bob text"), &bob, 0), null());
    assert_eq!(service.handle("DELETE", "/users/me", &Body::Other, &alice, 0), null());
    assert_eq!(service.handle("GET", "/texts", &Body::Other, &alice, 0).0, 401);
    assert_eq!(service.handle("GET", "/texts/shared_name", &Body::Other, &alice, 0).0, 401);
    assert_eq!(service.handle("DELETE", "/users/me", &Body::Other, &alice, 0).0, 401);
    assert_eq!(
        service.handle("GET", "/texts/shared_name", &Body::Other, &bob, 0),
        (200, Reply::Data(Data::Text("bob text".to_string())))
    );
    assert_eq!(service.handle("POST", "/users", &account("alice", "password1"), "", 0).0, 201);
    let alice = bearer(&service.handle("POST", "/sessions", &account("alice", "password1"), "", 0).1);
    assert_eq!(
        service.handle("GET", "/texts", &Body::Other, &alice, 0),
        (200, Reply::Data(Data::Names(vec![])))
    );
    assert_eq!(service.handle("GET", "/texts/shared_name", &Body::Other, &alice, 0).0, 404);
}

#[test]
fn re_registered_user_needs_new_password() {
    let mut service = Service::default();
    let first = account("alice", "password1");
    assert_eq!(service.handle("POST", "/users", &first, "", 0).0, 201);
    let old = bearer(&service.handle("POST", "/sessions", &first, "", 0).1);
    assert_eq!(service.handle("DELETE", "/users/me", &Body::Other, &old, 0).0, 200);
    let second = account("alice", "password2");
    assert_eq!(service.handle("POST", "/users", &second, "", 0).0, 201);
    assert_eq!(service.handle("POST", "/sessions", &first, "", 0).0, 401);
    assert_eq!(service.handle("POST", "/sessions", &second, "", 0).0, 200);
    assert_eq!(service.handle("GET", "/texts", &Body::Other, &old, 0).0, 401);
}

#[test]
fn authorization_needs_bearer_prefix() {
    let mut service = Service::default();
    assert_eq!(service.handle("POST", "/users", &account("erin", "password1"), "", 0).0, 201);
    let login = service.handle("POST", "/sessions", &account("erin", "password1"), "", 0).1;
    let token = token_of(&login);
    assert_eq!(service.handle("GET", "/texts", &Body::Other, &token, 0), message(401, "Login required"));
    assert_eq!(service.handle("GET", "/texts", &Body::Other, "Bearer ", 0), message(401, "Login required"));
    assert_eq!(service.handle("GET", "/texts", &Body::Other, &format!("Bearer {token}"), 0).0, 200);
}

#[test]
fn handle_with_uses_given_salt_and_token() {
    let mut service = Service::default();
    let salt = [7u8; 16];
    let token_bytes = [0xabu8; 32];
    let body = account("frank", "password1");
    assert_eq!(service.handle_with("POST", "/users", &body, "", 0, &salt, &token_bytes).0, 201);
    let login = service.handle_with("POST", "/sessions", &body, "", 0, &[0u8; 16], &token_bytes);
    assert_eq!(login, (200, Reply::Data(Data::Session("ab".repeat(32), 300))));
    let auth = format!("Bearer {}", "ab".repeat(32));
    assert_eq!(service.handle("GET", "/texts", &Body::Other, &auth, 0).0, 200);
}

#[test]
fn error_reply_shape() {
    assert_eq!(error(418, "teapot"), (418, Reply::Message("teapot".to_string())));
}

#[test]
fn later_member_replaces_earlier() {
    let mut service = Service::default();
    let body = Body::object(vec![
        ("text".to_string(), JsonField::Str("first".to_string())),
        ("text".to_string(), JsonField::Str("second".to_string())),
    ]);
    assert_eq!(
        service.handle("POST", "/echo", &body, "", 0),
        (200, Reply::Data(Data::Text("second".to_string())))
    );
}

#[test]
fn refused_requests_change_nothing() {
    let mut service = Service::default();
    assert_eq!(service.handle("POST", "/users", &account("gina", "password1"), "", 0).0, 201);
    let gina = bearer(&service.handle("POST", "/sessions", &account("gina", "password1"), "", 0).1);
    assert_eq!(service.handle("PUT", "/texts/a", &text_body("kept"), &gina, 0), null());
    assert_eq!(service.handle("PUT", "/texts/a", &text_body(&"x".repeat(70_000)), &gina, 0).0, 413);
    assert_eq!(service.handle("PUT", "/texts/b", &Body::Other, &gina, 0).0, 400);
    assert_eq!(service.handle("POST", "/texts/a", &text_body("no"), &gina, 0).0, 405);
    assert_eq!(service.handle("POST", "/users", &account("gina", "password2"), "", 0).0, 409);
    assert_eq!(
        service.handle("GET", "/texts", &Body::Other, &gina, 0),
        (200, Reply::Data(Data::Names(vec!["a".to_string()])))
    );
    assert_eq!(
        service.handle("GET", "/texts/a", &Body::Other, &gina, 0),
        (200, Reply::Data(Data::Text("kept".to_string())))
    );
    assert_eq!(service.handle("POST", "/sessions", &account("gina", "password1"), "", 0).0, 200);
}

#[test]
fn http_token_ttl_and_expiry() {
    let mut service = Service::new(1);
    let account = account("alice", "password1");
    let t0: u64 = 1_700_000_000_000;
    assert_eq!(service.handle("POST", "/users", &account, "", t0).0, 201);
    let login = service.handle("POST", "/sessions", &account, "", t0);
    assert_eq!(login.0, 200);
    match &login.1 {
        Reply::Data(Data::Session(_, expires_in)) => assert_eq!(*expires_in, 1),
        other => panic!("no session in {:?}", other),
    }
    let authorization = bearer(&login.1);
    assert_eq!(service.handle("GET", "/texts", &Body::Other, &authorization, t0 + 10).0, 200);
    assert_eq!(
        service.handle("PUT", "/texts/secret", &text_body("top secret"), &authorization, t0 + 20),
        null()
    );

    let later = t0 + 1100;
    assert_eq!(
        service.handle("GET", "/texts", &Body::Other, &authorization, later),
        message(401, "Login required")
    );
    assert_eq!(
        service.handle("GET", "/texts/secret", &Body::Other, &authorization, later),
        message(401, "Login required")
    );
    assert_eq!(
        service.handle("DELETE", "/users/me", &Body::Other, &authorization, later),
        message(401, "Login required")
    );
    let new_login = service.handle("POST", "/sessions", &account, "", later);
    let new_auth = bearer(&new_login.1);
    assert_eq!(
        service.handle("GET", "/texts/secret", &Body::Other, &new_auth, later + 1),
        (200, Reply::Data(Data::Text("top secret".to_string())))
    );
}

#[test]
fn token_works_until_its_deadline() {
    let mut service = Service::new(2);
    let account = account("carol", "password1");
    assert_eq!(service.handle("POST", "/users", &account, "", 5_000).0, 201);
    let login = service.handle("POST", "/sessions", &account, "", 5_000);
    let authorization = bearer(&login.1);
    assert_eq!(service.handle("GET", "/texts", &Body::Other, &authorization, 6_999).0, 200);
    assert_eq!(service.handle("GET", "/texts", &Body::Other, &authorization, 7_000).0, 401);
}

#[test]
fn default_tokens_last_five_minutes() {
    let mut service = Service::default();
    let account = account("dave", "password1");
    assert_eq!(service.handle("POST", "/users", &account, "", 0).0, 201);
    let login = service.handle("POST", "/sessions", &account, "", 0);
    match &login.1 {
        Reply::Data(Data::Session(_, expires_in)) => assert_eq!(*expires_in, 300),
        other => panic!("no session in {:?}", other),
    }
    let authorization = bearer(&login.1);
    assert_eq!(service.handle("GET", "/texts", &Body::Other, &authorization, 299_999).0, 200);
    assert_eq!(service.handle("GET", "/texts", &Body::Other, &authorization, 300_000).0, 401);
}

#[test]
fn deadline_saturates_at_the_end_of_time() {
    let mut service = Service::new(u64::MAX);
    let account = account("erin", "password1");
    assert_eq!(service.handle("POST", "/users", &account, "", 0).0, 201);
    let login = service.handle("POST", "/sessions", &account, "", 10);
    let authorization = bearer(&login.1);
    assert_eq!(service.handle("GET", "/texts", &Body::Other, &authorization, u64::MAX - 1).0, 200);
    assert_eq!(service.handle("GET", "/texts", &Body::Other, &authorization, u64::MAX).0, 401);
}

#[test]
fn stale_login_does_not_affect_re_registed_user() {
    let mut service = Service::default();
    let first = account("alice", "password1");
    assert_eq!(service.handle("POST", "/users", &first, "", 0).0, 201);
    let login = service.handle("POST", "/sessions", &first, "", 0);
    assert_eq!(login.0, 200);
    let old_auth = bearer(&login.1);
    assert_eq!(service.handle("DELETE", "/users/me", &Body::Other, &old_auth, 1), null());
    let account1 = account("alice", "password2");
    assert_eq!(service.handle("POST", "/users", &account1, "", 2).0, 201);
    // The login with the earlier password, handled after the re-registration.
    assert_eq!(
        service.handle("POST", "/sessions", &first, "", 3),
        message(401, "Invalid username or password")
    );
    assert_eq!(service.handle("GET", "/texts", &Body::Other, &old_auth, 4).0, 401);
    assert_eq!(service.handle("POST", "/sessions", &account1, "", 5).0, 200);
}
