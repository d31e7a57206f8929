//! Laws of the service, stated over `handle_spec` and proved.

use vstd::prelude::*;
use crate::message::{body_str, ReplyView};
use crate::names::valid_name_spec;
use crate::order::key_lt;
use crate::service::{bearer_token, handle_spec, state_sorted, text_fits, token_holder, UserView};
use crate::store::{
    delete, lemma_delete_entries, lemma_delete_lookup, lemma_delete_sorted, lemma_lower_bound,
    lemma_put_entries, lemma_put_lookup, lemma_put_sorted, lookup, names_of, put, sorted,
};

verus! {

/// A request that the service refuses (a status of 400 or above) changes no
/// account, and it is answered with a message; every other request is
/// answered with data.
pub proof fn law_refusal_changes_nothing(
    users: Seq<(Seq<char>, UserView)>,
    method: Seq<char>,
    path: Seq<char>,
    body: Option<Seq<(Seq<char>, Option<Seq<char>>)>>,
    authorization: Seq<char>,
    salt: Seq<u8>,
    token_bytes: Seq<u8>,
    now: u64,
    ttl: u64,
)
    ensures
        ({
            let o = handle_spec(users, method, path, body, authorization, salt, token_bytes, now, ttl);
            &&& o.status >= 400 ==> o.users == users
            &&& o.status >= 400 <==> o.reply is Message
        }),
{
}

/// The account that a request may change: the one it names in its body for
/// `POST /users` and `POST /sessions`, else the one that its token logs in.
pub open spec fn touched_account(
    users: Seq<(Seq<char>, UserView)>,
    method: Seq<char>,
    path: Seq<char>,
    body: Option<Seq<(Seq<char>, Option<Seq<char>>)>>,
    authorization: Seq<char>,
) -> Seq<char> {
    if method == "POST"@ && (path == "/users"@ || path == "/sessions"@) {
        match body_str(body, "username"@) {
            Some(name) => name,
            None => seq![],
        }
    } else {
        match token_holder(users, bearer_token(authorization)) {
            Some(i) => users[i].0,
            None => seq![],
        }
    }
}

/// `put` under `k` changes what no other name gives.
proof fn lemma_put_others<T>(s: Seq<(Seq<char>, T)>, k: Seq<char>)
    requires
        sorted(s),
    ensures
        forall|v: T, m: Seq<char>| m != k ==> #[trigger] lookup(put(s, k, v), m) == lookup(s, m),
{
    assert forall|v: T, m: Seq<char>| m != k implies #[trigger] lookup(put(s, k, v), m) == lookup(
        s,
        m,
    ) by {
        lemma_put_lookup(s, k, v, m);
    }
}

/// `delete` of `k` changes what no other name gives.
proof fn lemma_delete_others<T>(s: Seq<(Seq<char>, T)>, k: Seq<char>)
    requires
        sorted(s),
    ensures
        forall|m: Seq<char>| m != k ==> #[trigger] lookup(delete(s, k), m) == lookup(s, m),
{
    assert forall|m: Seq<char>| m != k implies #[trigger] lookup(delete(s, k), m) == lookup(s, m) by {
        lemma_delete_lookup(s, k, m);
    }
}

/// A request changes at most one account: every other user name gives the
/// same account after it as before.
pub proof fn law_one_account_at_most(
    users: Seq<(Seq<char>, UserView)>,
    method: Seq<char>,
    path: Seq<char>,
    body: Option<Seq<(Seq<char>, Option<Seq<char>>)>>,
    authorization: Seq<char>,
    salt: Seq<u8>,
    token_bytes: Seq<u8>,
    now: u64,
    ttl: u64,
)
    requires
        state_sorted(users),
    ensures
        ({
            let o = handle_spec(users, method, path, body, authorization, salt, token_bytes, now, ttl);
            let n = touched_account(users, method, path, body, authorization);
            forall|m: Seq<char>| m != n ==> #[trigger] lookup(o.users, m) == lookup(users, m)
        }),
{
    let n = touched_account(users, method, path, body, authorization);
    lemma_put_others(users, n);
    lemma_delete_others(users, n);
}

/// Every text of an account has a valid name of at most 64 bytes and at most
/// 65536 bytes of content, in name order.
pub open spec fn texts_valid(texts: Seq<(Seq<char>, Seq<char>)>) -> bool {
    &&& sorted(texts)
    &&& forall|j: int|
        0 <= j < texts.len() ==> valid_name_spec(#[trigger] texts[j].0, 64) && text_fits(texts[j].1)
}

/// Every account has a valid user name of at most 32 bytes and valid texts,
/// in name order.
pub open spec fn accounts_valid(users: Seq<(Seq<char>, UserView)>) -> bool {
    &&& sorted(users)
    &&& forall|i: int|
        0 <= i < users.len() ==> valid_name_spec(#[trigger] users[i].0, 32) && texts_valid(
            users[i].1.texts,
        )
}

/// When all entries and the new entry have a property, all entries of `put` have it.
proof fn lemma_put_all<T>(s: Seq<(Seq<char>, T)>, k: Seq<char>, v: T, p: spec_fn((Seq<char>, T)) -> bool)
    requires
        forall|i: int| 0 <= i < s.len() ==> p(#[trigger] s[i]),
        p((k, v)),
    ensures
        forall|i: int| 0 <= i < put(s, k, v).len() ==> p(#[trigger] put(s, k, v)[i]),
{
    assert forall|i: int| 0 <= i < put(s, k, v).len() implies p(#[trigger] put(s, k, v)[i]) by {
        let j = lemma_put_entries(s, k, v, i);
        if j != -1 {
            assert(p(s[j]));
        }
    }
}

/// When all entries have a property, all entries of `delete` have it.
proof fn lemma_delete_all<T>(s: Seq<(Seq<char>, T)>, k: Seq<char>, p: spec_fn((Seq<char>, T)) -> bool)
    requires
        forall|i: int| 0 <= i < s.len() ==> p(#[trigger] s[i]),
    ensures
        forall|i: int| 0 <= i < delete(s, k).len() ==> p(#[trigger] delete(s, k)[i]),
{
    assert forall|i: int| 0 <= i < delete(s, k).len() implies p(#[trigger] delete(s, k)[i]) by {
        let j = lemma_delete_entries(s, k, i);
        assert(p(s[j]));
    }
}

/// The property of an account entry that `accounts_valid` asks of each entry.
spec fn account_entry_ok(e: (Seq<char>, UserView)) -> bool {
    valid_name_spec(e.0, 32) && texts_valid(e.1.texts)
}

/// The property of a text entry that `texts_valid` asks of each entry.
spec fn text_entry_ok(e: (Seq<char>, Seq<char>)) -> bool {
    valid_name_spec(e.0, 64) && text_fits(e.1)
}

/// Putting a valid account under a valid name keeps the accounts valid.
proof fn lemma_put_account_valid(users: Seq<(Seq<char>, UserView)>, name: Seq<char>, u: UserView)
    requires
        accounts_valid(users),
        valid_name_spec(name, 32),
        texts_valid(u.texts),
    ensures
        accounts_valid(put(users, name, u)),
{
    lemma_put_sorted(users, name, u);
    let p = |e: (Seq<char>, UserView)| account_entry_ok(e);
    assert forall|i: int| 0 <= i < users.len() implies p(#[trigger] users[i]) by {}
    lemma_put_all(users, name, u, p);
    assert forall|i: int| 0 <= i < put(users, name, u).len() implies valid_name_spec(
        #[trigger] put(users, name, u)[i].0,
        32,
    ) && texts_valid(put(users, name, u)[i].1.texts) by {
        assert(p(put(users, name, u)[i]));
    }
}

/// The entry that `lookup` finds is one of the entries.
proof fn lemma_lookup_is_entry<T>(s: Seq<(Seq<char>, T)>, k: Seq<char>) -> (j: int)
    requires
        lookup(s, k) is Some,
    ensures
        0 <= j < s.len(),
        s[j] == (k, lookup(s, k)->Some_0),
{
    lemma_lower_bound(s, k);
    crate::store::lower_bound(s, k) as int
}

/// Each request keeps the accounts valid: names, text names, text sizes and
/// name order.
pub proof fn law_accounts_stay_valid(
    users: Seq<(Seq<char>, UserView)>,
    method: Seq<char>,
    path: Seq<char>,
    body: Option<Seq<(Seq<char>, Option<Seq<char>>)>>,
    authorization: Seq<char>,
    salt: Seq<u8>,
    token_bytes: Seq<u8>,
    now: u64,
    ttl: u64,
)
    requires
        accounts_valid(users),
    ensures
        accounts_valid(handle_spec(users, method, path, body, authorization, salt, token_bytes, now, ttl).users),
{
    // Accounts after `POST /users` or `POST /sessions`.
    if let (Some(name), Some(password)) = (body_str(body, "username"@), body_str(body, "password"@)) {
        if valid_name_spec(name, 32) {
            assert(texts_valid(seq![]));
            lemma_put_account_valid(
                users,
                name,
                crate::service::new_account(password, salt),
            );
            if lookup(users, name) is Some {
                let j = lemma_lookup_is_entry(users, name);
                let u = lookup(users, name)->Some_0;
                assert(texts_valid(users[j].1.texts));
                lemma_put_account_valid(
                    users,
                    name,
                    crate::service::with_session(u, crate::crypto::hex_lower(token_bytes), crate::service::token_deadline(now, ttl)),
                );
            }
        }
    }
    // Accounts after a request that a token logs in.
    if let Some(i) = token_holder(users, bearer_token(authorization)) {
        crate::service::lemma_token_holder_in_range(users, bearer_token(authorization), 0);
        let name = users[i].0;
        let u = users[i].1;
        assert(valid_name_spec(name, 32) && texts_valid(u.texts));
        lemma_delete_sorted(users, name);
        let pa = |e: (Seq<char>, UserView)| account_entry_ok(e);
        assert forall|k: int| 0 <= k < users.len() implies pa(#[trigger] users[k]) by {}
        lemma_delete_all(users, name, pa);
        assert forall|k: int| 0 <= k < delete(users, name).len() implies valid_name_spec(
            #[trigger] delete(users, name)[k].0,
            32,
        ) && texts_valid(delete(users, name)[k].1.texts) by {
            assert(pa(delete(users, name)[k]));
        }
        lemma_put_account_valid(users, name, crate::service::without_token(u));
        let tn = crate::routes::text_name_of(path);
        let pt = |e: (Seq<char>, Seq<char>)| text_entry_ok(e);
        assert forall|k: int| 0 <= k < u.texts.len() implies pt(#[trigger] u.texts[k]) by {}
        lemma_delete_sorted(u.texts, tn);
        lemma_delete_all(u.texts, tn, pt);
        assert forall|k: int| 0 <= k < delete(u.texts, tn).len() implies valid_name_spec(
            #[trigger] delete(u.texts, tn)[k].0,
            64,
        ) && text_fits(delete(u.texts, tn)[k].1) by {
            assert(pt(delete(u.texts, tn)[k]));
        }
        lemma_put_account_valid(users, name, crate::service::with_texts(u, delete(u.texts, tn)));
        if let Some(t) = body_str(body, "text"@) {
            if valid_name_spec(tn, 64) && text_fits(t) {
                lemma_put_sorted(u.texts, tn, t);
                lemma_put_all(u.texts, tn, t, pt);
                assert forall|k: int| 0 <= k < put(u.texts, tn, t).len() implies valid_name_spec(
                    #[trigger] put(u.texts, tn, t)[k].0,
                    64,
                ) && text_fits(put(u.texts, tn, t)[k].1) by {
                    assert(pt(put(u.texts, tn, t)[k]));
                }
                lemma_put_account_valid(users, name, crate::service::with_texts(u, put(u.texts, tn, t)));
            }
        }
    }
}

/// Accounts with the same tokens, place by place, have the same token holders.
proof fn lemma_same_tokens_same_holder(
    s1: Seq<(Seq<char>, UserView)>,
    s2: Seq<(Seq<char>, UserView)>,
    token: Seq<char>,
    i: int,
)
    requires
        s1.len() == s2.len(),
        forall|j: int| 0 <= j < s1.len() ==> #[trigger] s1[j].1.token == s2[j].1.token,
    ensures
        crate::service::token_holder_from(s1, token, i) == crate::service::token_holder_from(
            s2,
            token,
            i,
        ),
    decreases s1.len() - i,
{
    if 0 <= i < s1.len() {
        lemma_same_tokens_same_holder(s1, s2, token, i + 1);
    }
}

/// Replacing the account at the place of a token holder by one with the same
/// token keeps who holds which token.
proof fn lemma_replace_keeps_holder(
    users: Seq<(Seq<char>, UserView)>,
    i: int,
    u: UserView,
    token: Seq<char>,
)
    requires
        state_sorted(users),
        0 <= i < users.len(),
        u.token == users[i].1.token,
    ensures
        put(users, users[i].0, u) == users.update(i, (users[i].0, u)),
        token_holder(put(users, users[i].0, u), token) == token_holder(users, token),
{
    crate::store::lemma_key_at_lower_bound(users, users[i].0, i);
    let after = users.update(i, (users[i].0, u));
    assert forall|j: int| 0 <= j < users.len() implies #[trigger] users[j].1.token
        == after[j].1.token by {}
    lemma_same_tokens_same_holder(users, after, token, 0);
}

/// The request methods are distinct.
proof fn lemma_method_literals()
    ensures
        "GET"@ != "PUT"@,
        "GET"@ != "POST"@,
        "GET"@ != "DELETE"@,
        "PUT"@ != "POST"@,
        "PUT"@ != "DELETE"@,
        "POST"@ != "DELETE"@,
{
    reveal_strlit("GET");
    reveal_strlit("PUT");
    reveal_strlit("POST");
    reveal_strlit("DELETE");
    assert("PUT"@.len() == 3 && "POST"@.len() == 4 && "DELETE"@.len() == 6 && "GET"@.len() == 3);
    assert("PUT"@[0] != "GET"@[0]);
}

/// The fixed paths are distinct, and none of them is a text path.
proof fn lemma_path_literals()
    ensures
        !crate::routes::is_text_path("/ping"@),
        !crate::routes::is_text_path("/users"@),
        !crate::routes::is_text_path("/sessions"@),
        !crate::routes::is_text_path("/sessions/current"@),
        !crate::routes::is_text_path("/texts"@),
        !crate::routes::is_text_path("/echo"@),
        !crate::routes::is_text_path("/users/me"@),
        "/users"@ != "/ping"@,
        "/sessions"@ != "/ping"@,
        "/sessions"@ != "/users"@,
        "/sessions/current"@ != "/ping"@,
        "/sessions/current"@ != "/users"@,
        "/sessions/current"@ != "/sessions"@,
        "/sessions/current"@ != "/echo"@,
        "/texts"@ != "/ping"@,
        "/texts"@ != "/users"@,
        "/texts"@ != "/sessions"@,
        "/texts"@ != "/sessions/current"@,
        "/texts"@ != "/echo"@,
        "/texts"@ != "/users/me"@,
        "/echo"@ != "/users"@,
        "/echo"@ != "/ping"@,
        "/echo"@ != "/sessions"@,
        "/users/me"@ != "/users"@,
        "/users/me"@ != "/sessions/current"@,
        "/users/me"@ != "/ping"@,
        "/users/me"@ != "/sessions"@,
        "/users/me"@ != "/echo"@,
{
    reveal_strlit("/texts/");
    reveal_strlit("/ping");
    reveal_strlit("/echo");
    reveal_strlit("/users");
    reveal_strlit("/sessions");
    reveal_strlit("/texts");
    reveal_strlit("/sessions/current");
    reveal_strlit("/users/me");
    assert("/texts/"@.len() == 7);
    assert("/ping"@.len() == 5);
    assert("/echo"@.len() == 5);
    assert("/users"@.len() == 6);
    assert("/texts"@.len() == 6);
    assert("/sessions"@.len() == 9);
    assert("/users/me"@.len() == 9);
    assert("/sessions/current"@.len() == 17);
    assert("/texts/"@[1] != "/sessions/current"@[1]);
    assert("/texts/"@[1] != "/users/me"@[1]);
    assert("/texts/"@[1] != "/sessions"@[1]);
    assert("/users"@[1] != "/ping"@[1]);
    assert("/texts"@[1] != "/users"@[1]);
    assert("/texts"@[1] != "/echo"@[1]);
    assert("/echo"@[1] != "/users"@[1]);
    assert("/echo"@[1] != "/sessions/current"@[1]);
    assert("/echo"@[1] != "/ping"@[1]);
}

/// A text path is none of the fixed paths.
proof fn lemma_text_path_not_fixed(path: Seq<char>)
    requires
        crate::routes::is_text_path(path),
    ensures
        path != "/ping"@,
        path != "/echo"@,
        path != "/users"@,
        path != "/sessions"@,
        path != "/texts"@,
        path != "/sessions/current"@,
        path != "/users/me"@,
{
    reveal_strlit("/texts/");
    reveal_strlit("/ping");
    reveal_strlit("/echo");
    reveal_strlit("/users");
    reveal_strlit("/sessions");
    reveal_strlit("/texts");
    reveal_strlit("/sessions/current");
    reveal_strlit("/users/me");
    assert("/texts/"@.len() == 7);
    assert(path[1] == "/texts/"@[1]);
    assert(path[6] == "/texts/"@[6]);
    assert("/texts"@.len() == 6);
    assert("/ping"@[1] != path[1]);
    assert("/echo"@[1] != path[1]);
    assert("/users"@[1] != path[1]);
    assert("/sessions"@[1] != path[1]);
    assert("/sessions/current"@[1] != path[1]);
    assert("/users/me"@[1] != path[1]);
}

/// The bearer token of `authorization` logs an account in at time `now`: an
/// account holds it, and the first that does holds it until after `now`.
pub open spec fn session_live(users: Seq<(Seq<char>, UserView)>, authorization: Seq<char>, now: u64) -> bool {
    match token_holder(users, bearer_token(authorization)) {
        Some(i) => now < users[i].1.expires_at,
        None => false,
    }
}

/// A text read back after it was written: when `PUT` on a text path
/// succeeds, a `GET` on the same path with the same authorization, made
/// while its token is still live, answers with the text that the `PUT`
/// carried.
pub proof fn law_get_returns_put_text(
    users: Seq<(Seq<char>, UserView)>,
    path: Seq<char>,
    put_body: Option<Seq<(Seq<char>, Option<Seq<char>>)>>,
    get_body: Option<Seq<(Seq<char>, Option<Seq<char>>)>>,
    authorization: Seq<char>,
    salt: Seq<u8>,
    token_bytes: Seq<u8>,
    salt2: Seq<u8>,
    token_bytes2: Seq<u8>,
    now: u64,
    ttl: u64,
    now2: u64,
)
    requires
        state_sorted(users),
        handle_spec(users, "PUT"@, path, put_body, authorization, salt, token_bytes, now, ttl).status == 200,
        session_live(users, authorization, now2),
    ensures
        ({
            let after = handle_spec(users, "PUT"@, path, put_body, authorization, salt, token_bytes, now, ttl).users;
            &&& body_str(put_body, "text"@) is Some
            &&& handle_spec(after, "GET"@, path, get_body, authorization, salt2, token_bytes2, now2, ttl)
                == crate::service::answer(
                after,
                200,
                crate::message::DataView::Text(body_str(put_body, "text"@)->Some_0),
            )
        }),
{
    lemma_method_literals();
    let token = bearer_token(authorization);
    assert(crate::routes::is_text_path(path));
    lemma_text_path_not_fixed(path);
    assert(token_holder(users, token) is Some);
    let i = token_holder(users, token)->Some_0;
    crate::service::lemma_token_holder_in_range(users, token, 0);
    let u = users[i].1;
    let tn = crate::routes::text_name_of(path);
    let t = body_str(put_body, "text"@)->Some_0;
    let nu = crate::service::with_texts(u, put(u.texts, tn, t));
    lemma_replace_keeps_holder(users, i, nu, token);
    let after = put(users, users[i].0, nu);
    assert(after[i].1 == nu);
    lemma_put_lookup(u.texts, tn, t, tn);
}

/// A request on a path that needs a login, with a method that the path
/// takes, is refused with 401 exactly when its bearer token logs no account
/// in: no account holds the token, or the first that does holds it no
/// longer at the time of the request. Such a refusal is "Login required"
/// and keeps every account, texts included, as it was.
pub proof fn law_login_required_exactly(
    users: Seq<(Seq<char>, UserView)>,
    method: Seq<char>,
    path: Seq<char>,
    body: Option<Seq<(Seq<char>, Option<Seq<char>>)>>,
    authorization: Seq<char>,
    salt: Seq<u8>,
    token_bytes: Seq<u8>,
    now: u64,
    ttl: u64,
)
    requires
        crate::service::is_protected(path),
        crate::routes::route_error_spec(method, path) is None,
    ensures
        ({
            let o = handle_spec(users, method, path, body, authorization, salt, token_bytes, now, ttl);
            &&& o.status == 401 <==> !session_live(users, authorization, now)
            &&& !session_live(users, authorization, now) ==> o == crate::service::refuse(
                users,
                401,
                "Login required"@,
            )
        }),
{
    lemma_method_literals();
    lemma_path_literals();
    if crate::routes::is_text_path(path) {
        lemma_text_path_not_fixed(path);
    }
}

/// With no account holding the token from place `i` on, no holder is found.
proof fn lemma_no_holder(users: Seq<(Seq<char>, UserView)>, token: Seq<char>, i: int)
    requires
        0 <= i,
        forall|j: int| i <= j < users.len() ==> !crate::service::holds_token(#[trigger] users[j].1, token),
    ensures
        crate::service::token_holder_from(users, token, i) is None,
    decreases users.len() - i,
{
    if i < users.len() {
        lemma_no_holder(users, token, i + 1);
    }
}

/// The hex form has two digits per byte.
proof fn lemma_hex_len(bytes: Seq<u8>)
    ensures
        crate::crypto::hex_lower(bytes).len() == 2 * bytes.len(),
    decreases bytes.len(),
{
    if bytes.len() > 0 {
        lemma_hex_len(bytes.drop_last());
    }
}

/// A registration stores the new account, and the same registration made
/// again is refused with 409 and changes nothing.
pub proof fn law_second_registration_conflicts(
    users: Seq<(Seq<char>, UserView)>,
    body: Option<Seq<(Seq<char>, Option<Seq<char>>)>>,
    authorization: Seq<char>,
    salt: Seq<u8>,
    token_bytes: Seq<u8>,
    authorization2: Seq<char>,
    salt2: Seq<u8>,
    token_bytes2: Seq<u8>,
    now: u64,
    ttl: u64,
    now2: u64,
)
    requires
        state_sorted(users),
        handle_spec(users, "POST"@, "/users"@, body, authorization, salt, token_bytes, now, ttl).status == 201,
    ensures
        ({
            let after = handle_spec(users, "POST"@, "/users"@, body, authorization, salt, token_bytes, now, ttl).users;
            let name = body_str(body, "username"@)->Some_0;
            let password = body_str(body, "password"@)->Some_0;
            &&& lookup(users, name) is None
            &&& lookup(after, name) == Some(crate::service::new_account(password, salt))
            &&& handle_spec(after, "POST"@, "/users"@, body, authorization2, salt2, token_bytes2, now2, ttl)
                == crate::service::refuse(after, 409, "Username exists"@)
        }),
{
    lemma_method_literals();
    lemma_path_literals();
    let name = body_str(body, "username"@)->Some_0;
    let password = body_str(body, "password"@)->Some_0;
    lemma_put_lookup(users, name, crate::service::new_account(password, salt), name);
}

/// After a login, the token that it answered logs its account in until
/// `ttl` seconds later and no longer: `GET /texts` with that bearer token
/// succeeds before its deadline and is refused with 401 from then on. The
/// login itself keeps the account's texts. (The token is taken to be fresh:
/// no account held it before.)
pub proof fn law_login_token_logs_in(
    users: Seq<(Seq<char>, UserView)>,
    body: Option<Seq<(Seq<char>, Option<Seq<char>>)>>,
    authorization: Seq<char>,
    salt: Seq<u8>,
    token_bytes: Seq<u8>,
    body2: Option<Seq<(Seq<char>, Option<Seq<char>>)>>,
    salt2: Seq<u8>,
    token_bytes2: Seq<u8>,
    now: u64,
    ttl: u64,
    now2: u64,
)
    requires
        state_sorted(users),
        token_bytes.len() > 0,
        forall|j: int|
            0 <= j < users.len() ==> !crate::service::holds_token(
                #[trigger] users[j].1,
                crate::crypto::hex_lower(token_bytes),
            ),
        handle_spec(users, "POST"@, "/sessions"@, body, authorization, salt, token_bytes, now, ttl).status == 200,
    ensures
        ({
            let o = handle_spec(users, "POST"@, "/sessions"@, body, authorization, salt, token_bytes, now, ttl);
            let token = crate::crypto::hex_lower(token_bytes);
            let name = body_str(body, "username"@)->Some_0;
            let deadline = crate::service::token_deadline(now, ttl);
            let o2 = handle_spec(o.users, "GET"@, "/texts"@, body2, "Bearer "@ + token, salt2, token_bytes2, now2, ttl);
            &&& o.reply == ReplyView::Data(crate::message::DataView::Session(token, ttl))
            &&& lookup(users, name) matches Some(u) && lookup(o.users, name) == Some(
                crate::service::with_session(u, token, deadline),
            )
            &&& now2 < deadline ==> o2.status == 200
            &&& now2 >= deadline ==> o2 == crate::service::refuse(o.users, 401, "Login required"@)
        }),
{
    lemma_method_literals();
    lemma_path_literals();
    let name = body_str(body, "username"@)->Some_0;
    let token = crate::crypto::hex_lower(token_bytes);
    lemma_hex_len(token_bytes);
    let u = lookup(users, name)->Some_0;
    let nu = crate::service::with_session(u, token, crate::service::token_deadline(now, ttl));
    let after = put(users, name, nu);
    let j = lemma_lookup_is_entry(users, name);
    crate::store::lemma_key_at_lower_bound(users, name, j);
    assert(after == users.update(j, (name, nu)));
    lemma_put_lookup(users, name, nu, name);
    assert(after[j].1 == nu);
    assert(crate::service::holds_token(after[j].1, token));
    assert forall|k: int| 0 <= k < j implies !crate::service::holds_token(#[trigger] after[k].1, token) by {
        assert(after[k] == users[k]);
    }
    lemma_first_holder(after, token, 0, j);
    assert(("Bearer "@ + token).skip("Bearer "@.len() as int) =~= token);
    assert("Bearer "@.is_prefix_of("Bearer "@ + token));
    assert(bearer_token("Bearer "@ + token) == token);
}

/// The first account from place `i` on that holds the token is at place `j`
/// when none between `i` and `j` holds it.
proof fn lemma_first_holder(users: Seq<(Seq<char>, UserView)>, token: Seq<char>, i: int, j: int)
    requires
        0 <= i <= j < users.len(),
        crate::service::holds_token(users[j].1, token),
        forall|k: int| i <= k < j ==> !crate::service::holds_token(#[trigger] users[k].1, token),
    ensures
        crate::service::token_holder_from(users, token, i) == Some(j),
    decreases j - i,
{
    if i < j {
        lemma_first_holder(users, token, i + 1, j);
    }
}

/// After a logout, the token no longer logs in the account that it logged
/// in; when no other account held that token, every request that needs a
/// login is refused with 401.
pub proof fn law_logout_ends_session(
    users: Seq<(Seq<char>, UserView)>,
    body: Option<Seq<(Seq<char>, Option<Seq<char>>)>>,
    authorization: Seq<char>,
    salt: Seq<u8>,
    token_bytes: Seq<u8>,
    body2: Option<Seq<(Seq<char>, Option<Seq<char>>)>>,
    salt2: Seq<u8>,
    token_bytes2: Seq<u8>,
    now: u64,
    ttl: u64,
    now2: u64,
)
    requires
        state_sorted(users),
        handle_spec(users, "DELETE"@, "/sessions/current"@, body, authorization, salt, token_bytes, now, ttl).status
            == 200,
    ensures
        ({
            let after = handle_spec(
                users,
                "DELETE"@,
                "/sessions/current"@,
                body,
                authorization,
                salt,
                token_bytes,
                now,
                ttl,
            ).users;
            let name = touched_account(users, "DELETE"@, "/sessions/current"@, body, authorization);
            &&& lookup(after, name) matches Some(u) && u.token is None
            &&& (forall|j: int, k: int|
                0 <= j < users.len() && 0 <= k < users.len() && crate::service::holds_token(
                    #[trigger] users[j].1,
                    bearer_token(authorization),
                ) && crate::service::holds_token(#[trigger] users[k].1, bearer_token(authorization))
                    ==> j == k) ==> handle_spec(
                after,
                "GET"@,
                "/texts"@,
                body2,
                authorization,
                salt2,
                token_bytes2,
                now2,
                ttl,
            ) == crate::service::refuse(after, 401, "Login required"@)
        }),
{
    lemma_method_literals();
    lemma_path_literals();
    let token = bearer_token(authorization);
    let i = token_holder(users, token)->Some_0;
    crate::service::lemma_token_holder_in_range(users, token, 0);
    let name = users[i].0;
    let nu = crate::service::without_token(users[i].1);
    crate::store::lemma_key_at_lower_bound(users, name, i);
    let after = put(users, name, nu);
    assert(after == users.update(i, (name, nu)));
    lemma_put_lookup(users, name, nu, name);
    if forall|j: int, k: int|
        0 <= j < users.len() && 0 <= k < users.len() && crate::service::holds_token(
            #[trigger] users[j].1,
            token,
        ) && crate::service::holds_token(#[trigger] users[k].1, token) ==> j == k {
        assert forall|j: int| 0 <= j < after.len() implies !crate::service::holds_token(
            #[trigger] after[j].1,
            token,
        ) by {
            if j != i {
                assert(after[j] == users[j]);
                assert(crate::service::holds_token(users[i].1, token));
            }
        }
        lemma_no_holder(after, token, 0);
    }
}

/// After an account is deleted, its name is free: the account is gone, and
/// a registration of that name with acceptable fields succeeds and starts
/// with no texts.
pub proof fn law_deleted_account_is_gone(
    users: Seq<(Seq<char>, UserView)>,
    body: Option<Seq<(Seq<char>, Option<Seq<char>>)>>,
    authorization: Seq<char>,
    salt: Seq<u8>,
    token_bytes: Seq<u8>,
    body2: Option<Seq<(Seq<char>, Option<Seq<char>>)>>,
    authorization2: Seq<char>,
    salt2: Seq<u8>,
    token_bytes2: Seq<u8>,
    now: u64,
    ttl: u64,
    now2: u64,
)
    requires
        accounts_valid(users),
        handle_spec(users, "DELETE"@, "/users/me"@, body, authorization, salt, token_bytes, now, ttl).status == 200,
    ensures
        ({
            let after = handle_spec(users, "DELETE"@, "/users/me"@, body, authorization, salt, token_bytes, now, ttl).users;
            let name = touched_account(users, "DELETE"@, "/users/me"@, body, authorization);
            let o2 = handle_spec(after, "POST"@, "/users"@, body2, authorization2, salt2, token_bytes2, now2, ttl);
            let password = body_str(body2, "password"@)->Some_0;
            &&& lookup(after, name) is None
            &&& (body_str(body2, "username"@) == Some(name) && body_str(body2, "password"@) is Some
                && crate::message::body_len(body2) == Some(2nat) && crate::service::password_fits(
                password,
            )) ==> o2.status == 201 && lookup(o2.users, name) == Some(
                crate::service::new_account(password, salt2),
            ) && lookup(o2.users, name)->Some_0.texts.len() == 0
        }),
{
    lemma_method_literals();
    lemma_path_literals();
    let token = bearer_token(authorization);
    let i = token_holder(users, token)->Some_0;
    crate::service::lemma_token_holder_in_range(users, token, 0);
    let name = users[i].0;
    lemma_delete_lookup(users, name, name);
    let after = delete(users, name);
    lemma_delete_sorted(users, name);
    assert(valid_name_spec(name, 32));
    if let Some(password) = body_str(body2, "password"@) {
        lemma_put_lookup(after, name, crate::service::new_account(password, salt2), name);
    }
}

/// After a registration, the account's password is the one it was
/// registered with: a login for that name with acceptable fields succeeds
/// exactly when its password gives the same digest with the new account's
/// salt, and otherwise is refused with 401 and changes nothing. So a login
/// with a password that an earlier account of the same name had sets no
/// token on the new account, unless the two passwords give equal digests.
pub proof fn law_login_after_registration(
    users: Seq<(Seq<char>, UserView)>,
    reg_body: Option<Seq<(Seq<char>, Option<Seq<char>>)>>,
    login_body: Option<Seq<(Seq<char>, Option<Seq<char>>)>>,
    authorization: Seq<char>,
    salt: Seq<u8>,
    token_bytes: Seq<u8>,
    authorization2: Seq<char>,
    salt2: Seq<u8>,
    token_bytes2: Seq<u8>,
    now: u64,
    ttl: u64,
    now2: u64,
)
    requires
        state_sorted(users),
        handle_spec(users, "POST"@, "/users"@, reg_body, authorization, salt, token_bytes, now, ttl).status == 201,
        body_str(login_body, "username"@) == body_str(reg_body, "username"@),
        body_str(login_body, "password"@) is Some,
        crate::message::body_len(login_body) == Some(2nat),
        crate::service::password_fits(body_str(login_body, "password"@)->Some_0),
    ensures
        ({
            let after = handle_spec(users, "POST"@, "/users"@, reg_body, authorization, salt, token_bytes, now, ttl).users;
            let registered = body_str(reg_body, "password"@)->Some_0;
            let password = body_str(login_body, "password"@)->Some_0;
            let o = handle_spec(after, "POST"@, "/sessions"@, login_body, authorization2, salt2, token_bytes2, now2, ttl);
            &&& o.status == 200 <==> crate::crypto::password_digest(password, salt)
                == crate::crypto::password_digest(registered, salt)
            &&& o.status != 200 ==> o == crate::service::refuse(
                after,
                401,
                "Invalid username or password"@,
            )
        }),
{
    lemma_method_literals();
    lemma_path_literals();
    let name = body_str(reg_body, "username"@)->Some_0;
    let registered = body_str(reg_body, "password"@)->Some_0;
    lemma_put_lookup(users, name, crate::service::new_account(registered, salt), name);
}

/// `GET /texts` lists the names of the logged-in account's texts in
/// strictly increasing name order, each name once.
pub proof fn law_listing_in_name_order(
    users: Seq<(Seq<char>, UserView)>,
    body: Option<Seq<(Seq<char>, Option<Seq<char>>)>>,
    authorization: Seq<char>,
    salt: Seq<u8>,
    token_bytes: Seq<u8>,
    now: u64,
    ttl: u64,
)
    requires
        state_sorted(users),
        handle_spec(users, "GET"@, "/texts"@, body, authorization, salt, token_bytes, now, ttl).status == 200,
    ensures
        ({
            let o = handle_spec(users, "GET"@, "/texts"@, body, authorization, salt, token_bytes, now, ttl);
            let name = touched_account(users, "GET"@, "/texts"@, body, authorization);
            let texts = lookup(users, name)->Some_0.texts;
            &&& lookup(users, name) is Some
            &&& o.reply == ReplyView::Data(crate::message::DataView::Names(names_of(texts)))
            &&& forall|i: int, j: int|
                0 <= i < j < names_of(texts).len() ==> key_lt(
                    #[trigger] names_of(texts)[i],
                    #[trigger] names_of(texts)[j],
                )
            &&& forall|i: int|
                0 <= i < names_of(texts).len() ==> #[trigger] lookup(texts, names_of(texts)[i]) is Some
        }),
{
    lemma_method_literals();
    lemma_path_literals();
    let token = bearer_token(authorization);
    let i = token_holder(users, token)->Some_0;
    crate::service::lemma_token_holder_in_range(users, token, 0);
    crate::store::lemma_key_at_lower_bound(users, users[i].0, i);
    let texts = users[i].1.texts;
    assert(sorted(texts));
    assert forall|a: int| 0 <= a < names_of(texts).len() implies #[trigger] lookup(
        texts,
        names_of(texts)[a],
    ) is Some by {
        crate::store::lemma_lookup_entry(texts, texts[a].0, a);
    }
}

/// A second login replaces the account's token: when the earlier token was
/// held by this account alone and the new token differs from it, no account
/// holds the earlier token any more, so it logs nobody in.
pub proof fn law_relogin_replaces_token(
    users: Seq<(Seq<char>, UserView)>,
    body: Option<Seq<(Seq<char>, Option<Seq<char>>)>>,
    authorization: Seq<char>,
    salt: Seq<u8>,
    token_bytes: Seq<u8>,
    now: u64,
    ttl: u64,
    old_token: Seq<char>,
)
    requires
        state_sorted(users),
        handle_spec(users, "POST"@, "/sessions"@, body, authorization, salt, token_bytes, now, ttl).status == 200,
        forall|j: int|
            0 <= j < users.len() && crate::service::holds_token(#[trigger] users[j].1, old_token)
                ==> users[j].0 == body_str(body, "username"@)->Some_0,
        crate::crypto::hex_lower(token_bytes) != old_token,
    ensures
        token_holder(
            handle_spec(users, "POST"@, "/sessions"@, body, authorization, salt, token_bytes, now, ttl).users,
            old_token,
        ) is None,
{
    lemma_method_literals();
    lemma_path_literals();
    let name = body_str(body, "username"@)->Some_0;
    let token = crate::crypto::hex_lower(token_bytes);
    let u = lookup(users, name)->Some_0;
    let nu = crate::service::with_session(u, token, crate::service::token_deadline(now, ttl));
    let j0 = lemma_lookup_is_entry(users, name);
    crate::store::lemma_key_at_lower_bound(users, name, j0);
    let after = put(users, name, nu);
    assert(after == users.update(j0, (name, nu)));
    assert forall|j: int| 0 <= j < after.len() implies !crate::service::holds_token(
        #[trigger] after[j].1,
        old_token,
    ) by {
        if j != j0 {
            assert(after[j] == users[j]);
            if crate::service::holds_token(users[j].1, old_token) {
                if j < j0 {
                    assert(key_lt(users[j].0, users[j0].0));
                } else {
                    assert(key_lt(users[j0].0, users[j].0));
                }
                crate::order::lemma_key_lt_irreflexive(name);
            }
        }
    }
    lemma_no_holder(after, old_token, 0);
}

/// The path of the text named `n`.
pub open spec fn text_path(n: Seq<char>) -> Seq<char> {
    "/texts/"@ + n
}

/// A valid text name makes a text path that routing lets through for `GET`,
/// `PUT` and `DELETE`, that needs a login, and whose text name is `n`.
proof fn lemma_text_route(n: Seq<char>)
    requires
        valid_name_spec(n, 64),
    ensures
        crate::routes::is_text_path(text_path(n)),
        crate::routes::text_name_of(text_path(n)) == n,
        crate::service::is_protected(text_path(n)),
        crate::routes::route_error_spec("GET"@, text_path(n)) is None,
        crate::routes::route_error_spec("PUT"@, text_path(n)) is None,
        crate::routes::route_error_spec("DELETE"@, text_path(n)) is None,
{
    reveal_strlit("/texts/");
    let path = text_path(n);
    assert(path.take(7) =~= "/texts/"@);
    assert(path.skip(7) =~= n);
    crate::names::law_valid_name_characters(n, 64);
    if n.contains('/') {
        let j = choose|j: int| 0 <= j < n.len() && n[j] == '/';
        assert(n[j] == '/');
    }
}

/// The account that a live session logs in is at the holder's place, and
/// `lookup` finds it there.
proof fn lemma_live_holder(users: Seq<(Seq<char>, UserView)>, authorization: Seq<char>, now: u64) -> (i: int)
    requires
        state_sorted(users),
        session_live(users, authorization, now),
    ensures
        token_holder(users, bearer_token(authorization)) == Some(i),
        0 <= i < users.len(),
        now < users[i].1.expires_at,
        lookup(users, users[i].0) == Some(users[i].1),
        sorted(users[i].1.texts),
{
    let i = token_holder(users, bearer_token(authorization))->Some_0;
    crate::service::lemma_token_holder_in_range(users, bearer_token(authorization), 0);
    crate::store::lemma_lookup_entry(users, users[i].0, i);
    i
}

/// `PUT /texts/{n}` with a live session and a body that is exactly
/// `{"text": t}` stores `t` under `n` for the logged-in account and answers
/// 200 with null data when `t` is at most 65536 bytes in UTF-8; every other
/// text of that account, its token and its password stay as they were, and
/// so does every other account. A longer text is refused with 413 and
/// nothing changes.
pub proof fn law_put_stores_text(
    users: Seq<(Seq<char>, UserView)>,
    n: Seq<char>,
    t: Seq<char>,
    body: Option<Seq<(Seq<char>, Option<Seq<char>>)>>,
    authorization: Seq<char>,
    salt: Seq<u8>,
    token_bytes: Seq<u8>,
    now: u64,
    ttl: u64,
)
    requires
        state_sorted(users),
        session_live(users, authorization, now),
        valid_name_spec(n, 64),
        body_str(body, "text"@) == Some(t),
        crate::message::body_len(body) == Some(1nat),
    ensures
        ({
            let o = handle_spec(users, "PUT"@, text_path(n), body, authorization, salt, token_bytes, now, ttl);
            let name = touched_account(users, "PUT"@, text_path(n), body, authorization);
            let u = lookup(users, name)->Some_0;
            &&& lookup(users, name) is Some
            &&& vstd::utf8::encode_utf8(t).len() <= 65536 ==> {
                &&& o.status == 200
                &&& o.reply == ReplyView::Data(crate::message::DataView::Null)
                &&& lookup(o.users, name) matches Some(u2) && {
                    &&& lookup(u2.texts, n) == Some(t)
                    &&& forall|m: Seq<char>| m != n ==> #[trigger] lookup(u2.texts, m) == lookup(u.texts, m)
                    &&& u2.token == u.token && u2.expires_at == u.expires_at
                    &&& u2.salt == u.salt && u2.digest == u.digest
                }
                &&& forall|m: Seq<char>| m != name ==> #[trigger] lookup(o.users, m) == lookup(users, m)
            }
            &&& vstd::utf8::encode_utf8(t).len() > 65536 ==> {
                &&& o.status == 413
                &&& o.reply == ReplyView::Message("Text too large"@)
                &&& o.users == users
            }
        }),
{
    lemma_method_literals();
    lemma_text_route(n);
    lemma_text_path_not_fixed(text_path(n));
    let i = lemma_live_holder(users, authorization, now);
    let name = users[i].0;
    let u = users[i].1;
    let nu = crate::service::with_texts(u, put(u.texts, n, t));
    lemma_put_lookup(users, name, nu, name);
    lemma_put_lookup(u.texts, n, t, n);
    assert forall|m: Seq<char>| m != n implies #[trigger] lookup(nu.texts, m) == lookup(u.texts, m) by {
        lemma_put_lookup(u.texts, n, t, m);
    }
    lemma_put_others(users, name);
}

/// `GET /texts/{n}` with a live session answers 200 with the text that the
/// logged-in account holds under `n`, and 404 "Text not found" when it holds
/// none; it changes nothing.
pub proof fn law_get_reads_text(
    users: Seq<(Seq<char>, UserView)>,
    n: Seq<char>,
    body: Option<Seq<(Seq<char>, Option<Seq<char>>)>>,
    authorization: Seq<char>,
    salt: Seq<u8>,
    token_bytes: Seq<u8>,
    now: u64,
    ttl: u64,
)
    requires
        state_sorted(users),
        session_live(users, authorization, now),
        valid_name_spec(n, 64),
    ensures
        ({
            let o = handle_spec(users, "GET"@, text_path(n), body, authorization, salt, token_bytes, now, ttl);
            let name = touched_account(users, "GET"@, text_path(n), body, authorization);
            let u = lookup(users, name)->Some_0;
            &&& lookup(users, name) is Some
            &&& o.users == users
            &&& match lookup(u.texts, n) {
                Some(t) => o.status == 200 && o.reply == ReplyView::Data(crate::message::DataView::Text(t)),
                None => o.status == 404 && o.reply == ReplyView::Message("Text not found"@),
            }
        }),
{
    lemma_method_literals();
    lemma_text_route(n);
    lemma_text_path_not_fixed(text_path(n));
    let i = lemma_live_holder(users, authorization, now);
}

/// `DELETE /texts/{n}` with a live session removes the text `n` of the
/// logged-in account and answers 200 with null data when the account holds
/// it: afterwards `n` gives nothing and every other name gives what it gave
/// before, and no other account changes. When the account holds no text `n`
/// it answers 404 "Text not found" and nothing changes.
pub proof fn law_delete_removes_text(
    users: Seq<(Seq<char>, UserView)>,
    n: Seq<char>,
    body: Option<Seq<(Seq<char>, Option<Seq<char>>)>>,
    authorization: Seq<char>,
    salt: Seq<u8>,
    token_bytes: Seq<u8>,
    now: u64,
    ttl: u64,
)
    requires
        state_sorted(users),
        session_live(users, authorization, now),
        valid_name_spec(n, 64),
    ensures
        ({
            let o = handle_spec(users, "DELETE"@, text_path(n), body, authorization, salt, token_bytes, now, ttl);
            let name = touched_account(users, "DELETE"@, text_path(n), body, authorization);
            let u = lookup(users, name)->Some_0;
            &&& lookup(users, name) is Some
            &&& lookup(u.texts, n) is Some ==> {
                &&& o.status == 200
                &&& o.reply == ReplyView::Data(crate::message::DataView::Null)
                &&& lookup(o.users, name) matches Some(u2) && {
                    &&& lookup(u2.texts, n) is None
                    &&& forall|m: Seq<char>| m != n ==> #[trigger] lookup(u2.texts, m) == lookup(u.texts, m)
                    &&& u2.token == u.token && u2.expires_at == u.expires_at
                    &&& u2.salt == u.salt && u2.digest == u.digest
                }
                &&& forall|m: Seq<char>| m != name ==> #[trigger] lookup(o.users, m) == lookup(users, m)
            }
            &&& lookup(u.texts, n) is None ==> {
                &&& o.status == 404
                &&& o.reply == ReplyView::Message("Text not found"@)
                &&& o.users == users
            }
        }),
{
    lemma_method_literals();
    lemma_text_route(n);
    lemma_text_path_not_fixed(text_path(n));
    let i = lemma_live_holder(users, authorization, now);
    let name = users[i].0;
    let u = users[i].1;
    let nu = crate::service::with_texts(u, delete(u.texts, n));
    lemma_put_lookup(users, name, nu, name);
    lemma_delete_lookup(u.texts, n, n);
    assert forall|m: Seq<char>| m != n implies #[trigger] lookup(nu.texts, m) == lookup(u.texts, m) by {
        lemma_delete_lookup(u.texts, n, m);
    }
    lemma_put_others(users, name);
}

/// `POST /echo` with a body that is exactly `{"text": t}` answers 200 with
/// `t` itself when `t` is at most 65536 bytes in UTF-8, and 413 "Text too
/// large" otherwise; it changes no account, whatever the authorization.
pub proof fn law_echo_returns_text(
    users: Seq<(Seq<char>, UserView)>,
    t: Seq<char>,
    body: Option<Seq<(Seq<char>, Option<Seq<char>>)>>,
    authorization: Seq<char>,
    salt: Seq<u8>,
    token_bytes: Seq<u8>,
    now: u64,
    ttl: u64,
)
    requires
        body_str(body, "text"@) == Some(t),
        crate::message::body_len(body) == Some(1nat),
    ensures
        ({
            let o = handle_spec(users, "POST"@, "/echo"@, body, authorization, salt, token_bytes, now, ttl);
            &&& o.users == users
            &&& vstd::utf8::encode_utf8(t).len() <= 65536 ==> o.status == 200 && o.reply
                == ReplyView::Data(crate::message::DataView::Text(t))
            &&& vstd::utf8::encode_utf8(t).len() > 65536 ==> o.status == 413 && o.reply
                == ReplyView::Message("Text too large"@)
        }),
{
    lemma_method_literals();
    lemma_path_literals();
    crate::routes::lemma_route_table();
    assert(crate::routes::route_table()[5] == ("POST"@, "/echo"@));
    assert(crate::routes::route_method(crate::routes::route_table()[5].1) == Some(
        crate::routes::route_table()[5].0,
    ));
    assert(crate::routes::route_method("/echo"@) == Some("POST"@));
}

/// `POST /sessions` with acceptable fields for an existing account answers
/// 200 exactly when the password gives the account's digest with the
/// account's salt, whatever token and expiry the account has (so also after
/// a logout or after its token expired). On success the reply carries the
/// new token and its lifetime, and the account gets that token until
/// `ttl` seconds from now, keeping its texts and password; otherwise it is
/// refused with 401 "Invalid username or password" and nothing changes.
pub proof fn law_login_checks_password(
    users: Seq<(Seq<char>, UserView)>,
    name: Seq<char>,
    password: Seq<char>,
    body: Option<Seq<(Seq<char>, Option<Seq<char>>)>>,
    authorization: Seq<char>,
    salt: Seq<u8>,
    token_bytes: Seq<u8>,
    now: u64,
    ttl: u64,
)
    requires
        state_sorted(users),
        lookup(users, name) is Some,
        valid_name_spec(name, 32),
        body_str(body, "username"@) == Some(name),
        body_str(body, "password"@) == Some(password),
        crate::message::body_len(body) == Some(2nat),
        8 <= password.len() <= 128,
    ensures
        ({
            let o = handle_spec(users, "POST"@, "/sessions"@, body, authorization, salt, token_bytes, now, ttl);
            let u = lookup(users, name)->Some_0;
            let token = crate::crypto::hex_lower(token_bytes);
            &&& o.status == 200 <==> crate::crypto::password_digest(password, u.salt) == u.digest
            &&& o.status == 200 ==> {
                &&& o.reply == ReplyView::Data(crate::message::DataView::Session(token, ttl))
                &&& lookup(o.users, name) matches Some(u2) && {
                    &&& u2.token == Some(token)
                    &&& u2.expires_at == crate::service::token_deadline(now, ttl)
                    &&& u2.texts == u.texts && u2.salt == u.salt && u2.digest == u.digest
                }
                &&& forall|m: Seq<char>| m != name ==> #[trigger] lookup(o.users, m) == lookup(users, m)
            }
            &&& o.status != 200 ==> {
                &&& o.status == 401
                &&& o.reply == ReplyView::Message("Invalid username or password"@)
                &&& o.users == users
            }
        }),
{
    lemma_method_literals();
    lemma_path_literals();
    let u = lookup(users, name)->Some_0;
    let nu = crate::service::with_session(u, crate::crypto::hex_lower(token_bytes), crate::service::token_deadline(now, ttl));
    lemma_put_lookup(users, name, nu, name);
    lemma_put_others(users, name);
}

/// `POST /users` with acceptable fields (a valid user name of at most 32
/// bytes, a password of 8 to 128 characters, and no other member) creates
/// the account exactly when the name is free, and answers 201 with the name:
/// the new account has the given salt, the digest of the password with that
/// salt, no token and no texts, and no other account changes. A taken name
/// is refused with 409 "Username exists" and nothing changes.
pub proof fn law_register_creates_account(
    users: Seq<(Seq<char>, UserView)>,
    name: Seq<char>,
    password: Seq<char>,
    body: Option<Seq<(Seq<char>, Option<Seq<char>>)>>,
    authorization: Seq<char>,
    salt: Seq<u8>,
    token_bytes: Seq<u8>,
    now: u64,
    ttl: u64,
)
    requires
        state_sorted(users),
        valid_name_spec(name, 32),
        body_str(body, "username"@) == Some(name),
        body_str(body, "password"@) == Some(password),
        crate::message::body_len(body) == Some(2nat),
        8 <= password.len() <= 128,
    ensures
        ({
            let o = handle_spec(users, "POST"@, "/users"@, body, authorization, salt, token_bytes, now, ttl);
            &&& o.status == 201 <==> lookup(users, name) is None
            &&& o.status == 201 ==> {
                &&& o.reply == ReplyView::Data(crate::message::DataView::Username(name))
                &&& lookup(o.users, name) matches Some(u) && {
                    &&& u.salt == salt
                    &&& u.digest == crate::crypto::password_digest(password, salt)
                    &&& u.token is None
                    &&& u.texts.len() == 0
                }
                &&& forall|m: Seq<char>| m != name ==> #[trigger] lookup(o.users, m) == lookup(users, m)
            }
            &&& o.status != 201 ==> {
                &&& o.status == 409
                &&& o.reply == ReplyView::Message("Username exists"@)
                &&& o.users == users
            }
        }),
{
    lemma_method_literals();
    lemma_path_literals();
    let nu = crate::service::new_account(password, salt);
    lemma_put_lookup(users, name, nu, name);
    lemma_put_others(users, name);
}

/// With a live session: `GET /texts` answers 200 with the names of the
/// account's texts, each once, in strictly increasing order, and exactly the
/// names it holds; `DELETE /sessions/current` answers 200 with null data,
/// takes the account's token away and keeps its texts and password; and
/// `DELETE /users/me` answers 200 with null data and removes the account,
/// leaving every other account as it was.
pub proof fn law_live_session_requests(
    users: Seq<(Seq<char>, UserView)>,
    body: Option<Seq<(Seq<char>, Option<Seq<char>>)>>,
    authorization: Seq<char>,
    salt: Seq<u8>,
    token_bytes: Seq<u8>,
    now: u64,
    ttl: u64,
)
    requires
        state_sorted(users),
        session_live(users, authorization, now),
    ensures
        ({
            let name = touched_account(users, "GET"@, "/texts"@, body, authorization);
            let u = lookup(users, name)->Some_0;
            let list = handle_spec(users, "GET"@, "/texts"@, body, authorization, salt, token_bytes, now, ttl);
            let logout = handle_spec(users, "DELETE"@, "/sessions/current"@, body, authorization, salt, token_bytes, now, ttl);
            let gone = handle_spec(users, "DELETE"@, "/users/me"@, body, authorization, salt, token_bytes, now, ttl);
            &&& lookup(users, name) is Some
            &&& list.status == 200 && list.users == users
            &&& list.reply matches ReplyView::Data(crate::message::DataView::Names(names)) && {
                &&& forall|a: int, b: int| 0 <= a < b < names.len() ==> key_lt(#[trigger] names[a], #[trigger] names[b])
                &&& forall|m: Seq<char>| names.contains(m) <==> lookup(u.texts, m) is Some
            }
            &&& logout.status == 200
            &&& logout.reply == ReplyView::Data(crate::message::DataView::Null)
            &&& lookup(logout.users, name) matches Some(u2) && u2.token is None && u2.texts == u.texts
                && u2.salt == u.salt && u2.digest == u.digest
            &&& forall|m: Seq<char>| m != name ==> #[trigger] lookup(logout.users, m) == lookup(users, m)
            &&& gone.status == 200
            &&& gone.reply == ReplyView::Data(crate::message::DataView::Null)
            &&& lookup(gone.users, name) is None
            &&& forall|m: Seq<char>| m != name ==> #[trigger] lookup(gone.users, m) == lookup(users, m)
        }),
{
    lemma_method_literals();
    lemma_path_literals();
    let i = lemma_live_holder(users, authorization, now);
    let name = users[i].0;
    let u = users[i].1;
    let texts = u.texts;
    let names = names_of(texts);
    assert forall|m: Seq<char>| names.contains(m) <==> lookup(texts, m) is Some by {
        if names.contains(m) {
            let a = choose|a: int| 0 <= a < names.len() && names[a] == m;
            crate::store::lemma_lookup_entry(texts, m, a);
        }
        if lookup(texts, m) is Some {
            let a = lemma_lookup_is_entry(texts, m);
            assert(names[a] == m);
        }
    }
    lemma_put_lookup(users, name, crate::service::without_token(u), name);
    lemma_put_others(users, name);
    lemma_delete_lookup(users, name, name);
    lemma_delete_others(users, name);
}

/// `POST /users` and `POST /sessions` check their fields first, in this
/// order, and a refusal changes nothing: no string `username` gives 400
/// "Expected username"; then no string `password` gives 400 "Expected
/// password"; then a member besides the two, a user name that is not valid
/// (letters, digits, `_` and `-`, at most 32 bytes) or a password outside 8
/// to 128 characters gives 400 "Invalid account fields".
pub proof fn law_account_fields_checked(
    users: Seq<(Seq<char>, UserView)>,
    path: Seq<char>,
    body: Option<Seq<(Seq<char>, Option<Seq<char>>)>>,
    authorization: Seq<char>,
    salt: Seq<u8>,
    token_bytes: Seq<u8>,
    now: u64,
    ttl: u64,
)
    requires
        path == "/users"@ || path == "/sessions"@,
    ensures
        ({
            let o = handle_spec(users, "POST"@, path, body, authorization, salt, token_bytes, now, ttl);
            let name = body_str(body, "username"@);
            let password = body_str(body, "password"@);
            &&& name is None ==> o.status == 400 && o.reply == ReplyView::Message("Expected username"@)
                && o.users == users
            &&& name is Some && password is None ==> o.status == 400 && o.reply == ReplyView::Message(
                "Expected password"@,
            ) && o.users == users
            &&& name is Some && password is Some && (crate::message::body_len(body) != Some(2nat)
                || !valid_name_spec(name->Some_0, 32) || password->Some_0.len() < 8
                || password->Some_0.len() > 128) ==> o.status == 400 && o.reply == ReplyView::Message(
                "Invalid account fields"@,
            ) && o.users == users
            &&& o.status == 400 ==> o.users == users
        }),
{
    lemma_method_literals();
    lemma_path_literals();
    crate::routes::lemma_route_table();
    assert(crate::routes::route_table()[1] == ("POST"@, "/users"@));
    assert(crate::routes::route_table()[2] == ("POST"@, "/sessions"@));
    assert(crate::routes::route_method(crate::routes::route_table()[1].1) == Some(
        crate::routes::route_table()[1].0,
    ));
    assert(crate::routes::route_method(crate::routes::route_table()[2].1) == Some(
        crate::routes::route_table()[2].0,
    ));
}

/// `POST /echo` and `PUT /texts/{n}` (with a live session and a valid text
/// name) check their body the same way, and a refusal changes nothing: no
/// string `text` gives 400 "Expected text", and a member besides `text`
/// gives 400 "Invalid fields".
pub proof fn law_text_body_checked(
    users: Seq<(Seq<char>, UserView)>,
    n: Seq<char>,
    body: Option<Seq<(Seq<char>, Option<Seq<char>>)>>,
    authorization: Seq<char>,
    salt: Seq<u8>,
    token_bytes: Seq<u8>,
    now: u64,
    ttl: u64,
)
    ensures
        ({
            let echo = handle_spec(users, "POST"@, "/echo"@, body, authorization, salt, token_bytes, now, ttl);
            &&& body_str(body, "text"@) is None ==> echo.status == 400 && echo.reply == ReplyView::Message(
                "Expected text"@,
            ) && echo.users == users
            &&& body_str(body, "text"@) is Some && crate::message::body_len(body) != Some(1nat)
                ==> echo.status == 400 && echo.reply == ReplyView::Message("Invalid fields"@)
                && echo.users == users
        }),
        state_sorted(users) && session_live(users, authorization, now) && valid_name_spec(n, 64) ==> {
            let put_o = handle_spec(users, "PUT"@, text_path(n), body, authorization, salt, token_bytes, now, ttl);
            &&& body_str(body, "text"@) is None ==> put_o.status == 400 && put_o.reply
                == ReplyView::Message("Expected text"@) && put_o.users == users
            &&& body_str(body, "text"@) is Some && crate::message::body_len(body) != Some(1nat)
                ==> put_o.status == 400 && put_o.reply == ReplyView::Message("Invalid fields"@)
                && put_o.users == users
        },
{
    lemma_method_literals();
    lemma_path_literals();
    crate::routes::lemma_route_table();
    assert(crate::routes::route_table()[5] == ("POST"@, "/echo"@));
    assert(crate::routes::route_method(crate::routes::route_table()[5].1) == Some(
        crate::routes::route_table()[5].0,
    ));
    if state_sorted(users) && session_live(users, authorization, now) && valid_name_spec(n, 64) {
        lemma_text_route(n);
        lemma_text_path_not_fixed(text_path(n));
        let i = lemma_live_holder(users, authorization, now);
    }
}

/// Routing: a path under `/texts/` names a text when the rest is non-empty
/// and has no `/` (else 404), and takes `GET`, `PUT` and `DELETE` (else
/// 405). Any other path is one of the fixed routes `GET /ping`, `POST
/// /users`, `POST /sessions`, `DELETE /sessions/current`, `GET /texts`,
/// `POST /echo`, `DELETE /users/me`, which pass with their method and are
/// refused with 405 with any other; every other path is refused with 404.
pub proof fn law_routing(method: Seq<char>, path: Seq<char>)
    ensures
        ({
            let rest = path.skip(7);
            let fixed_path = path == "/ping"@ || path == "/users"@ || path == "/sessions"@ || path
                == "/sessions/current"@ || path == "/texts"@ || path == "/echo"@ || path == "/users/me"@;
            let fixed_route = (method == "GET"@ && path == "/ping"@) || (method == "POST"@ && path
                == "/users"@) || (method == "POST"@ && path == "/sessions"@) || (method == "DELETE"@
                && path == "/sessions/current"@) || (method == "GET"@ && path == "/texts"@) || (method
                == "POST"@ && path == "/echo"@) || (method == "DELETE"@ && path == "/users/me"@);
            crate::routes::route_error_spec(method, path) == if "/texts/"@.is_prefix_of(path) {
                if rest.len() == 0 || rest.contains('/') {
                    Some(404u16)
                } else if method == "GET"@ || method == "PUT"@ || method == "DELETE"@ {
                    None
                } else {
                    Some(405u16)
                }
            } else if fixed_route {
                None
            } else if fixed_path {
                Some(405u16)
            } else {
                Some(404u16)
            }
        }),
{
    lemma_method_literals();
    lemma_path_literals();
    reveal_strlit("/texts/");
    crate::routes::lemma_route_table();
    let t = crate::routes::route_table();
    assert(t[0] == ("GET"@, "/ping"@));
    assert(t[1] == ("POST"@, "/users"@));
    assert(t[2] == ("POST"@, "/sessions"@));
    assert(t[3] == ("DELETE"@, "/sessions/current"@));
    assert(t[4] == ("GET"@, "/texts"@));
    assert(t[5] == ("POST"@, "/echo"@));
    assert(t[6] == ("DELETE"@, "/users/me"@));
    assert(crate::routes::route_method(t[0].1) == Some(t[0].0));
    assert(crate::routes::route_method(t[1].1) == Some(t[1].0));
    assert(crate::routes::route_method(t[2].1) == Some(t[2].0));
    assert(crate::routes::route_method(t[3].1) == Some(t[3].0));
    assert(crate::routes::route_method(t[4].1) == Some(t[4].0));
    assert(crate::routes::route_method(t[5].1) == Some(t[5].0));
    assert(crate::routes::route_method(t[6].1) == Some(t[6].0));
    if crate::routes::is_text_path(path) {
        lemma_text_path_not_fixed(path);
    }
}

} // verus!
