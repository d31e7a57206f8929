use rm_server_sync::{join_lines, read_text, reply_value, request_url, text_line, ReplyBody};

#[test]
fn reads_empty_text() {
    let input = ".\n";
    assert_eq!(read_text(input), "");
}

#[test]
fn reads_dot_as_body_line() {
    let input = "first\n..\nlast\n.\n";
    assert_eq!(read_text(input), "first\n.\nlast");
}

#[test]
fn preserves_trailing_newline() {
    let input = "hello\n\n.\n";
    assert_eq!(read_text(input), "hello\n");
}

#[test]
fn reads_to_end_without_terminator() {
    assert_eq!(read_text("a\nb"), "a\nb");
    assert_eq!(read_text(""), "");
}

#[test]
fn stops_at_first_terminator() {
    assert_eq!(read_text("a\n.\nb\n.\n"), "a");
}

#[test]
fn trims_carriage_returns() {
    assert_eq!(read_text("one\r\ntwo\r\n.\r\n"), "one\ntwo");
}

#[test]
fn strips_only_one_leading_dot() {
    assert_eq!(read_text("...\n.x\n.\n"), "..\nx");
}

#[test]
fn stuffed_text_reads_back() {
    // ".hidden\n.\n\nend" written with each leading dot doubled.
    let stuffed = "..hidden\n..\n\nend\n.\n";
    assert_eq!(read_text(stuffed), ".hidden\n.\n\nend");
}

#[test]
fn text_line_decisions() {
    assert_eq!(text_line(".\n"), None);
    assert_eq!(text_line(".\r\n"), None);
    assert_eq!(text_line("..\n"), Some(".".to_string()));
    assert_eq!(text_line("abc\r\n"), Some("abc".to_string()));
    assert_eq!(text_line(""), Some(String::new()));
}

#[test]
fn join_lines_puts_newlines_between() {
    assert_eq!(join_lines(&vec![]), "");
    assert_eq!(join_lines(&vec!["a".to_string()]), "a");
    assert_eq!(join_lines(&vec!["a".to_string(), String::new(), "b".to_string()]), "a\n\nb");
}

#[test]
fn text_after_terminator_is_ignored() {
    assert_eq!(read_text("a\n.\nnot read\nat all"), read_text("a\n.\n"));
    assert_eq!(read_text(".\nrest"), "");
}

#[test]
fn json_reply_is_kept_with_its_status() {
    let (status, body) = reply_value(201, "{\"data\": {\"username\": \"alice\"}}".to_string());
    assert_eq!(status, 201);
    match body {
        ReplyBody::Json(v) => {
            assert_eq!(v["data"]["username"], serde_json::Value::String("alice".to_string()))
        }
        ReplyBody::Message(m) => panic!("not read as JSON: {m}"),
    }
}

#[test]
fn non_json_reply_becomes_message() {
    let (status, body) = reply_value(502, "Bad Gateway".to_string());
    assert_eq!(status, 502);
    match body {
        ReplyBody::Message(m) => assert_eq!(m, "Bad Gateway"),
        ReplyBody::Json(v) => panic!("read as JSON: {v}"),
    }
    let (status, body) = reply_value(200, "{\"data\": 1} trailing".to_string());
    assert_eq!(status, 200);
    assert!(matches!(body, ReplyBody::Message(m) if m == "{\"data\": 1} trailing"));
    let (_, body) = reply_value(500, String::new());
    assert!(matches!(body, ReplyBody::Message(m) if m.is_empty()));
}

#[test]
fn request_url_joins_base_and_path() {
    assert_eq!(request_url("http://localhost:8000/", "/ping"), "http://localhost:8000/ping");
    assert_eq!(request_url("http://localhost:8000///", "/texts"), "http://localhost:8000/texts");
    assert_eq!(request_url("http://h", "/users"), "http://h/users");
    assert_eq!(request_url("", "/x"), "/x");
}

#[test]
fn kept_json_is_what_serde_json_reads() {
    let text = " {\"data\": [1, 2.5, \"x\", null, {\"k\": true}]} \n";
    let expected: serde_json::Value = serde_json::from_str(text).unwrap();
    let (status, body) = reply_value(404, text.to_string());
    assert_eq!(status, 404);
    match body {
        ReplyBody::Json(v) => assert_eq!(v, expected),
        ReplyBody::Message(m) => panic!("not read as JSON: {m}"),
    }
    let (_, body) = reply_value(200, "0".to_string());
    assert!(matches!(body, ReplyBody::Json(v) if v == serde_json::Value::from(0)));
}
