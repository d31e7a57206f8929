//! The route table and the routing decision.

use vstd::prelude::*;
use crate::text::{chars_of, chars_from, contains_char, eq_str, starts_with_str};

verus! {

/// The method that the fixed route at `path` takes, if `path` is a fixed route.
/// The fixed routes are `GET /ping`, `POST /users`, `POST /sessions`,
/// `DELETE /sessions/current`, `GET /texts`, `POST /echo` and `DELETE /users/me`.
pub open spec fn route_method(path: Seq<char>) -> Option<Seq<char>> {
    if path == "/ping"@ {
        Some("GET"@)
    } else if path == "/users"@ {
        Some("POST"@)
    } else if path == "/sessions"@ {
        Some("POST"@)
    } else if path == "/sessions/current"@ {
        Some("DELETE"@)
    } else if path == "/texts"@ {
        Some("GET"@)
    } else if path == "/echo"@ {
        Some("POST"@)
    } else if path == "/users/me"@ {
        Some("DELETE"@)
    } else {
        None
    }
}

/// The fixed routes as (method, path) pairs, in the order in which they are
/// listed.
pub open spec fn route_table() -> Seq<(Seq<char>, Seq<char>)> {
    seq![
        ("GET"@, "/ping"@),
        ("POST"@, "/users"@),
        ("POST"@, "/sessions"@),
        ("DELETE"@, "/sessions/current"@),
        ("GET"@, "/texts"@),
        ("POST"@, "/echo"@),
        ("DELETE"@, "/users/me"@),
    ]
}

/// The fixed routes, each a method and the path that it serves.
pub fn routes() -> (r: Vec<(&'static str, &'static str)>)
    ensures
        r@.len() == route_table().len(),
        forall|i: int| 0 <= i < r@.len() ==> (#[trigger] r@[i].0@, r@[i].1@) == route_table()[i],
{
    let r = vec![
        ("GET", "/ping"),
        ("POST", "/users"),
        ("POST", "/sessions"),
        ("DELETE", "/sessions/current"),
        ("GET", "/texts"),
        ("POST", "/echo"),
        ("DELETE", "/users/me"),
    ];
    assert forall|i: int| 0 <= i < r@.len() implies (#[trigger] r@[i].0@, r@[i].1@) == route_table()[i] by {}
    r
}

/// The route table and `route_method` agree: each listed path is served by
/// its listed method, and a path that is listed nowhere has no fixed route.
pub proof fn lemma_route_table()
    ensures
        forall|i: int|
            0 <= i < route_table().len() ==> route_method(#[trigger] route_table()[i].1) == Some(
                route_table()[i].0,
            ),
        forall|p: Seq<char>|
            (forall|i: int| 0 <= i < route_table().len() ==> #[trigger] route_table()[i].1 != p)
                ==> route_method(p) is None,
{
    reveal_strlit("/ping");
    reveal_strlit("/users");
    reveal_strlit("/sessions");
    reveal_strlit("/sessions/current");
    reveal_strlit("/texts");
    reveal_strlit("/echo");
    reveal_strlit("/users/me");
    assert("/users"@[1] != "/ping"@[1]);
    assert("/texts"@[1] != "/users"@[1]);
    assert("/texts"@[1] != "/echo"@[1]);
    assert("/echo"@[1] != "/users"@[1]);
    assert("/echo"@[1] != "/sessions/current"@[1]);
    assert("/echo"@[1] != "/sessions"@[1]);
    assert("/echo"@[1] != "/ping"@[1]);
    assert("/texts"@[1] != "/ping"@[1]);
    assert("/texts"@[1] != "/sessions"@[1]);
    assert("/users/me"@[1] != "/ping"@[1]);
    assert("/users/me"@[1] != "/sessions"@[1]);
    assert("/sessions/current"@[1] != "/ping"@[1]);
    assert("/sessions"@[1] != "/ping"@[1]);
    assert("/users/me"@.len() != "/users"@.len());
    assert("/sessions/current"@.len() != "/sessions"@.len());
    assert("/sessions/current"@[1] != "/users"@[1]);
    assert("/sessions/current"@[1] != "/texts"@[1]);
    assert("/sessions"@[1] != "/users"@[1]);
    assert("/sessions"@[1] != "/texts"@[1]);
    assert("/users/me"@[1] != "/texts"@[1]);
    assert("/users/me"@[1] != "/sessions/current"@[1]);
    assert("/users/me"@[1] != "/echo"@[1]);
    assert forall|p: Seq<char>|
        (forall|i: int| 0 <= i < route_table().len() ==> #[trigger] route_table()[i].1 != p)
        implies route_method(p) is None by {
        assert(route_table()[0].1 != p);
        assert(route_table()[1].1 != p);
        assert(route_table()[2].1 != p);
        assert(route_table()[3].1 != p);
        assert(route_table()[4].1 != p);
        assert(route_table()[5].1 != p);
        assert(route_table()[6].1 != p);
    }
}

/// The prefix under which named texts live.
pub open spec fn texts_prefix() -> Seq<char> {
    "/texts/"@
}

/// Whether `path` names a text: it starts with `/texts/`.
pub open spec fn is_text_path(path: Seq<char>) -> bool {
    texts_prefix().is_prefix_of(path)
}

/// The text name in a text path: what follows `/texts/`.
pub open spec fn text_name_of(path: Seq<char>) -> Seq<char> {
    path.skip(texts_prefix().len() as int)
}

/// The status with which a request for `method` and `path` is refused before
/// any other check: 404 for an unknown path, 405 for a known path with a method
/// that it does not take, and none for a request that routing lets through.
pub open spec fn route_error_spec(method: Seq<char>, path: Seq<char>) -> Option<u16> {
    if is_text_path(path) {
        let name = text_name_of(path);
        if name.len() == 0 || name.contains('/') {
            Some(404)
        } else if method == "GET"@ || method == "PUT"@ || method == "DELETE"@ {
            None
        } else {
            Some(405)
        }
    } else {
        match route_method(path) {
            None => Some(404),
            Some(allowed) => if allowed != method {
                Some(405)
            } else {
                None
            },
        }
    }
}

/// The method that the fixed route at `path` takes, if any: the method of
/// the first entry of the route table with that path.
fn fixed_route_method(path: &[char]) -> (r: Option<&'static str>)
    ensures
        match r {
            Some(m) => route_method(path@) == Some(m@),
            None => route_method(path@) is None,
        },
{
    proof {
        lemma_route_table();
    }
    let table = routes();
    let mut i: usize = 0;
    while i < table.len()
        invariant
            table@.len() == route_table().len(),
            forall|k: int| 0 <= k < table@.len() ==> (#[trigger] table@[k].0@, table@[k].1@) == route_table()[k],
            i <= table@.len(),
            forall|k: int| 0 <= k < i ==> #[trigger] route_table()[k].1 != path@,
        decreases table@.len() - i,
    {
        let (method, route) = table[i];
        assert((table@[i as int].0@, table@[i as int].1@) == route_table()[i as int]);
        if eq_str(path, route) {
            proof {
                lemma_route_table();
            }
            assert(route_method(route_table()[i as int].1) == Some(route_table()[i as int].0));
            return Some(method);
        }
        i = i + 1;
    }
    None
}

/// The routing decision on character sequences.
pub fn route_error_chars(method: &[char], path: &[char]) -> (r: Option<u16>)
    ensures
        r == route_error_spec(method@, path@),
{
    if starts_with_str(path, "/texts/") {
        let prefix = chars_of("/texts/");
        let name = chars_from(path, prefix.len());
        if name.len() == 0 || contains_char(name.as_slice(), '/') {
            return Some(404);
        }
        if eq_str(method, "GET") || eq_str(method, "PUT") || eq_str(method, "DELETE") {
            return None;
        }
        return Some(405);
    }
    match fixed_route_method(path) {
        None => Some(404),
        Some(allowed) => {
            if eq_str(method, allowed) {
                None
            } else {
                Some(405)
            }
        },
    }
}

/// Whether routing refuses a request, and with which status.
pub fn route_error(method: &str, path: &str) -> (r: Option<u16>)
    ensures
        r == route_error_spec(method@, path@),
{
    let m = chars_of(method);
    let p = chars_of(path);
    route_error_chars(m.as_slice(), p.as_slice())
}

} // verus!
