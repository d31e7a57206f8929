//! What the client makes of one HTTP exchange: the address it sends to, and
//! the reply it keeps. The status is always kept; a body that is JSON is
//! kept as JSON, any other body becomes a message carrying its text.

use vstd::prelude::*;
use crate::text::{chars_of, string_from_chars};

verus! {

broadcast use vstd::string::group_string_axioms;

#[verifier::external_type_specification]
#[verifier::external_body]
pub struct ExJsonValue(serde_json::Value);

/// The JSON value that `serde_json` reads from `text` (surrounding whitespace
/// allowed), or `None` when `text` is not one JSON value.
pub uninterp spec fn json_read(text: Seq<char>) -> Option<serde_json::Value>;

/// Trusted: calls `serde_json::from_str::<serde_json::Value>` and keeps the
/// value when it succeeds. What it reads depends on the text alone, so the
/// contract names the outcome `json_read` of the text.
#[verifier::external_body]
fn json_from_str(text: &str) -> (r: Option<serde_json::Value>)
    ensures
        r == json_read(text@),
{
    serde_json::from_str::<serde_json::Value>(text).ok()
}

/// The body of a reply as the client keeps it.
pub enum ReplyBody {
    /// The body was JSON: the value read from it.
    Json(serde_json::Value),
    /// The body was not JSON: its text, to be shown as `{"message": text}`.
    Message(String),
}

/// The reply that the client keeps of a response with `status` and body
/// `text`: the same status, and the value that `serde_json` reads from the
/// body when it is JSON, else the text itself as a message.
pub fn reply_value(status: u16, text: String) -> (r: (u16, ReplyBody))
    ensures
        r.0 == status,
        match json_read(text@) {
            Some(v) => r.1 == ReplyBody::Json(v),
            None => r.1 matches ReplyBody::Message(m) && m@ == text@,
        },
{
    match json_from_str(text.as_str()) {
        Some(v) => (status, ReplyBody::Json(v)),
        None => (status, ReplyBody::Message(text)),
    }
}

/// `s` without its trailing `/` characters.
pub open spec fn trim_trailing_slashes(s: Seq<char>) -> Seq<char>
    decreases s.len(),
{
    if s.len() > 0 && s.last() == '/' {
        trim_trailing_slashes(s.drop_last())
    } else {
        s
    }
}

/// The address of a request: the server's base address without trailing
/// `/` characters, followed by the path.
pub fn request_url(url: &str, path: &str) -> (r: String)
    ensures
        r@ == trim_trailing_slashes(url@) + path@,
{
    let u = chars_of(url);
    let p = chars_of(path);
    let mut n: usize = u.len();
    assert(u@.take(n as int) =~= u@);
    while n > 0 && u[n - 1] == '/'
        invariant
            n <= u@.len(),
            trim_trailing_slashes(u@.take(n as int)) == trim_trailing_slashes(u@),
        decreases n,
    {
        assert(u@.take(n as int).drop_last() =~= u@.take(n - 1));
        n = n - 1;
    }
    let mut out: Vec<char> = Vec::new();
    let mut i: usize = 0;
    while i < n
        invariant
            n <= u@.len(),
            i <= n,
            out@ == u@.take(i as int),
        decreases n - i,
    {
        out.push(u[i]);
        assert(u@.take(i + 1) =~= u@.take(i as int).push(u@[i as int]));
        i = i + 1;
    }
    let ghost base = out@;
    let mut j: usize = 0;
    while j < p.len()
        invariant
            j <= p@.len(),
            out@ == base + p@.take(j as int),
        decreases p@.len() - j,
    {
        out.push(p[j]);
        assert(p@.take(j + 1) =~= p@.take(j as int).push(p@[j as int]));
        j = j + 1;
    }
    assert(p@.take(p@.len() as int) =~= p@);
    string_from_chars(out.as_slice())
}

} // verus!
