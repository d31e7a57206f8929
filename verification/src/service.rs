//! The service: accounts with salted password digests, bearer tokens, and
//! each account's named texts; one request at a time goes through `handle`.

use vstd::prelude::*;
use vstd::utf8::encode_utf8;
use crate::crypto::{
    digests_equal, hex_lower, hex_string, os_random_bytes, password_digest, password_hash,
};
use crate::message::{body_len, body_str, error, Body, Data, DataView, Reply, ReplyView};
use crate::names::{valid_name, valid_name_spec};
use crate::routes::{is_text_path, route_error_chars, route_error_spec, text_name_of};
use crate::store::{
    delete, lemma_key_at_lower_bound, lookup, names_of, put, sorted, NameMap,
};
use crate::text::{chars_eq, chars_from, chars_of, eq_str, starts_with_str, string_from_chars};

verus! {

broadcast use vstd::string::group_string_axioms;

/// The largest text, in UTF-8 bytes, that the service accepts.
pub const MAX_TEXT_BYTES: usize = 65536;

/// An account.
pub struct User {
    pub salt: [u8; 16],
    pub digest: [u8; 32],
    pub token: Option<String>,
    /// The time, in milliseconds, from which the token no longer logs in.
    pub expires_at: u64,
    pub texts: NameMap<String>,
}

/// The view of an account.
pub struct UserView {
    pub salt: Seq<u8>,
    pub digest: Seq<u8>,
    pub token: Option<Seq<char>>,
    pub expires_at: u64,
    pub texts: Seq<(Seq<char>, Seq<char>)>,
}

impl View for User {
    type V = UserView;

    open spec fn view(&self) -> UserView {
        UserView {
            salt: self.salt@,
            digest: self.digest@,
            token: match self.token {
                Some(t) => Some(t@),
                None => None,
            },
            expires_at: self.expires_at,
            texts: self.texts@,
        }
    }
}

impl User {
    /// An account with no token and no texts, to stand in a place for a moment.
    fn placeholder() -> (u: User)
        ensures
            u@ == (UserView {
                salt: Seq::new(16, |i: int| 0u8),
                digest: Seq::new(32, |i: int| 0u8),
                token: None,
                expires_at: 0,
                texts: seq![],
            }),
            u.texts.wf(),
    {
        let u = User {
            salt: [0u8; 16],
            digest: [0u8; 32],
            token: None,
            expires_at: 0,
            texts: NameMap::new(),
        };
        assert(u.salt@ =~= Seq::new(16, |i: int| 0u8));
        assert(u.digest@ =~= Seq::new(32, |i: int| 0u8));
        u
    }
}

/// The accounts, keyed by user name in name order, and how long a token
/// lasts.
pub struct Service {
    users: NameMap<User>,
    token_ttl_seconds: u64,
}

impl View for Service {
    type V = Seq<(Seq<char>, UserView)>;

    closed spec fn view(&self) -> Seq<(Seq<char>, UserView)> {
        self.users@
    }
}

/// The accounts and each account's texts are in name order.
pub open spec fn state_sorted(users: Seq<(Seq<char>, UserView)>) -> bool {
    &&& sorted(users)
    &&& forall|i: int| 0 <= i < users.len() ==> sorted(#[trigger] users[i].1.texts)
}

/// What a request leads to: the status, the reply and the accounts after it.
pub struct Outcome {
    pub status: u16,
    pub reply: ReplyView,
    pub users: Seq<(Seq<char>, UserView)>,
}

/// A refusal: `status` with `message`, the accounts unchanged.
pub open spec fn refuse(users: Seq<(Seq<char>, UserView)>, status: u16, message: Seq<char>) -> Outcome {
    Outcome { status, reply: ReplyView::Message(message), users }
}

/// An answer: `status` with `data`, and the accounts as they are then.
pub open spec fn answer(users: Seq<(Seq<char>, UserView)>, status: u16, data: DataView) -> Outcome {
    Outcome { status, reply: ReplyView::Data(data), users }
}

/// The token that an `Authorization` header carries: what follows `Bearer `,
/// or nothing.
pub open spec fn bearer_token(authorization: Seq<char>) -> Seq<char> {
    if "Bearer "@.is_prefix_of(authorization) {
        authorization.skip("Bearer "@.len() as int)
    } else {
        seq![]
    }
}

/// The account holds `token`, which is not empty.
pub open spec fn holds_token(u: UserView, token: Seq<char>) -> bool {
    token.len() > 0 && u.token == Some(token)
}

/// The place of the first account from place `i` on, in name order, that holds `token`.
pub open spec fn token_holder_from(users: Seq<(Seq<char>, UserView)>, token: Seq<char>, i: int) -> Option<
    int,
>
    decreases users.len() - i,
{
    if i < 0 || i >= users.len() {
        None
    } else if holds_token(users[i].1, token) {
        Some(i)
    } else {
        token_holder_from(users, token, i + 1)
    }
}

/// The place of the first account, in name order, that holds `token`.
pub open spec fn token_holder(users: Seq<(Seq<char>, UserView)>, token: Seq<char>) -> Option<int> {
    token_holder_from(users, token, 0)
}

/// A text that the service accepts: at most 65536 bytes in UTF-8.
pub open spec fn text_fits(text: Seq<char>) -> bool {
    encode_utf8(text).len() <= MAX_TEXT_BYTES
}

/// `POST /echo`.
pub open spec fn echo_spec(
    users: Seq<(Seq<char>, UserView)>,
    body: Option<Seq<(Seq<char>, Option<Seq<char>>)>>,
) -> Outcome {
    match body_str(body, "text"@) {
        None => refuse(users, 400, "Expected text"@),
        Some(text) => if body_len(body) != Some(1nat) {
            refuse(users, 400, "Invalid fields"@)
        } else if !text_fits(text) {
            refuse(users, 413, "Text too large"@)
        } else {
            answer(users, 200, DataView::Text(text))
        },
    }
}

/// A new account for `password`, with `salt`.
pub open spec fn new_account(password: Seq<char>, salt: Seq<u8>) -> UserView {
    UserView { salt, digest: password_digest(password, salt), token: None, expires_at: 0, texts: seq![] }
}

/// `POST /users` with valid fields.
pub open spec fn register_spec(
    users: Seq<(Seq<char>, UserView)>,
    name: Seq<char>,
    password: Seq<char>,
    salt: Seq<u8>,
) -> Outcome {
    if lookup(users, name) is Some {
        refuse(users, 409, "Username exists"@)
    } else {
        Outcome {
            status: 201,
            reply: ReplyView::Data(DataView::Username(name)),
            users: put(users, name, new_account(password, salt)),
        }
    }
}

/// `u` holding `token` until `expires_at`.
pub open spec fn with_session(u: UserView, token: Seq<char>, expires_at: u64) -> UserView {
    UserView { salt: u.salt, digest: u.digest, token: Some(token), expires_at, texts: u.texts }
}

/// `u` without a token.
pub open spec fn without_token(u: UserView) -> UserView {
    UserView { salt: u.salt, digest: u.digest, token: None, expires_at: u.expires_at, texts: u.texts }
}

/// `u` with `texts`.
pub open spec fn with_texts(u: UserView, texts: Seq<(Seq<char>, Seq<char>)>) -> UserView {
    UserView { salt: u.salt, digest: u.digest, token: u.token, expires_at: u.expires_at, texts }
}

/// The time, in milliseconds, at which a token given at `now` stops logging
/// in: `ttl_seconds` later, or the largest time when that is past it.
pub open spec fn token_deadline(now: u64, ttl_seconds: u64) -> u64 {
    if now + ttl_seconds * 1000 > u64::MAX {
        u64::MAX
    } else {
        (now + ttl_seconds * 1000) as u64
    }
}

/// `POST /sessions` with valid fields at time `now`: a fresh token made of
/// `token_bytes`, which lasts `ttl_seconds`.
pub open spec fn login_spec(
    users: Seq<(Seq<char>, UserView)>,
    name: Seq<char>,
    password: Seq<char>,
    token_bytes: Seq<u8>,
    now: u64,
    ttl_seconds: u64,
) -> Outcome {
    match lookup(users, name) {
        None => refuse(users, 401, "Invalid username or password"@),
        Some(u) => if password_digest(password, u.salt) != u.digest {
            refuse(users, 401, "Invalid username or password"@)
        } else {
            let token = hex_lower(token_bytes);
            Outcome {
                status: 200,
                reply: ReplyView::Data(DataView::Session(token, ttl_seconds)),
                users: put(users, name, with_session(u, token, token_deadline(now, ttl_seconds))),
            }
        },
    }
}

/// A password of acceptable length: 8 to 128 characters.
pub open spec fn password_fits(password: Seq<char>) -> bool {
    8 <= password.len() <= 128
}

/// `POST /users` (when `register`) or `POST /sessions`.
pub open spec fn account_spec(
    users: Seq<(Seq<char>, UserView)>,
    register: bool,
    body: Option<Seq<(Seq<char>, Option<Seq<char>>)>>,
    salt: Seq<u8>,
    token_bytes: Seq<u8>,
    now: u64,
    ttl_seconds: u64,
) -> Outcome {
    match body_str(body, "username"@) {
        None => refuse(users, 400, "Expected username"@),
        Some(name) => match body_str(body, "password"@) {
            None => refuse(users, 400, "Expected password"@),
            Some(password) => if body_len(body) != Some(2nat) || !valid_name_spec(name, 32)
                || !password_fits(password) {
                refuse(users, 400, "Invalid account fields"@)
            } else if register {
                register_spec(users, name, password, salt)
            } else {
                login_spec(users, name, password, token_bytes, now, ttl_seconds)
            },
        },
    }
}

/// A request on text `text_name` of the account at place `i`.
pub open spec fn text_spec(
    users: Seq<(Seq<char>, UserView)>,
    i: int,
    method: Seq<char>,
    text_name: Seq<char>,
    body: Option<Seq<(Seq<char>, Option<Seq<char>>)>>,
) -> Outcome {
    let name = users[i].0;
    let u = users[i].1;
    if !valid_name_spec(text_name, 64) {
        refuse(users, 400, "Invalid text name"@)
    } else if method == "GET"@ {
        match lookup(u.texts, text_name) {
            Some(t) => answer(users, 200, DataView::Text(t)),
            None => refuse(users, 404, "Text not found"@),
        }
    } else if method == "PUT"@ {
        match body_str(body, "text"@) {
            None => refuse(users, 400, "Expected text"@),
            Some(t) => if body_len(body) != Some(1nat) {
                refuse(users, 400, "Invalid fields"@)
            } else if !text_fits(t) {
                refuse(users, 413, "Text too large"@)
            } else {
                answer(put(users, name, with_texts(u, put(u.texts, text_name, t))), 200, DataView::Null)
            },
        }
    } else if method == "DELETE"@ {
        match lookup(u.texts, text_name) {
            Some(_) => answer(
                put(users, name, with_texts(u, delete(u.texts, text_name))),
                200,
                DataView::Null,
            ),
            None => refuse(users, 404, "Text not found"@),
        }
    } else {
        refuse(users, 404, "Not found"@)
    }
}

/// Paths that need a logged-in account.
pub open spec fn is_protected(path: Seq<char>) -> bool {
    path == "/texts"@ || path == "/sessions/current"@ || path == "/users/me"@ || is_text_path(path)
}

/// A request at time `now` on a path that needs a logged-in account: the
/// first account that holds the bearer token logs in, unless its token has
/// expired.
pub open spec fn protected_spec(
    users: Seq<(Seq<char>, UserView)>,
    method: Seq<char>,
    path: Seq<char>,
    body: Option<Seq<(Seq<char>, Option<Seq<char>>)>>,
    authorization: Seq<char>,
    now: u64,
) -> Outcome {
    match token_holder(users, bearer_token(authorization)) {
        None => refuse(users, 401, "Login required"@),
        Some(i) => if now >= users[i].1.expires_at {
            refuse(users, 401, "Login required"@)
        } else {
            let name = users[i].0;
            let u = users[i].1;
            if method == "DELETE"@ && path == "/users/me"@ {
                answer(delete(users, name), 200, DataView::Null)
            } else if method == "DELETE"@ && path == "/sessions/current"@ {
                answer(put(users, name, without_token(u)), 200, DataView::Null)
            } else if method == "GET"@ && path == "/texts"@ {
                answer(users, 200, DataView::Names(names_of(u.texts)))
            } else if is_text_path(path) {
                text_spec(users, i, method, text_name_of(path), body)
            } else {
                refuse(users, 404, "Not found"@)
            }
        },
    }
}

/// What the service answers to a request made at time `now` (in
/// milliseconds), and the accounts after it, when tokens last `ttl_seconds`,
/// a new account would get `salt` and a new token would be made of
/// `token_bytes`.
pub open spec fn handle_spec(
    users: Seq<(Seq<char>, UserView)>,
    method: Seq<char>,
    path: Seq<char>,
    body: Option<Seq<(Seq<char>, Option<Seq<char>>)>>,
    authorization: Seq<char>,
    salt: Seq<u8>,
    token_bytes: Seq<u8>,
    now: u64,
    ttl_seconds: u64,
) -> Outcome {
    match route_error_spec(method, path) {
        Some(status) => refuse(
            users,
            status,
            if status == 404 {
                "Not found"@
            } else {
                "Method not allowed"@
            },
        ),
        None => if method == "GET"@ && path == "/ping"@ {
            answer(users, 200, DataView::Text("pong"@))
        } else if method == "POST"@ && path == "/echo"@ {
            echo_spec(users, body)
        } else if method == "POST"@ && (path == "/users"@ || path == "/sessions"@) {
            account_spec(users, path == "/users"@, body, salt, token_bytes, now, ttl_seconds)
        } else if is_protected(path) {
            protected_spec(users, method, path, body, authorization, now)
        } else {
            refuse(users, 404, "Not found"@)
        },
    }
}

/// `r` and the accounts `users` are what `o` says.
pub open spec fn is_outcome(r: (u16, Reply), users: Seq<(Seq<char>, UserView)>, o: Outcome) -> bool {
    r.0 == o.status && r.1@ == o.reply && users == o.users
}

/// Sixteen zero bytes: the salt of an outcome in which no account was made.
pub open spec fn unused_salt() -> Seq<u8> {
    Seq::new(16, |i: int| 0u8)
}

/// Thirty-two zero bytes: the token bytes of an outcome in which no token was made.
pub open spec fn unused_token_bytes() -> Seq<u8> {
    Seq::new(32, |i: int| 0u8)
}

impl Default for Service {
    /// A service with no accounts, whose tokens last 300 seconds.
    fn default() -> (s: Self)
        ensures
            s@ == Seq::<(Seq<char>, UserView)>::empty(),
            s.token_ttl() == 300,
            s.wf(),
    {
        Service::new(300)
    }
}

impl Service {
    /// The accounts and their texts are in name order.
    pub open spec fn wf(&self) -> bool {
        state_sorted(self@)
    }

    /// How long, in seconds, a token lasts after the login that gave it.
    pub closed spec fn token_ttl(&self) -> u64 {
        self.token_ttl_seconds
    }

    /// The accounts, keyed by user name in name order, to be read.
    pub fn users(&self) -> (r: &NameMap<User>)
        ensures
            r@ == self@,
    {
        &self.users
    }

    /// A service with no accounts, whose tokens last `token_ttl_seconds`.
    pub fn new(token_ttl_seconds: u64) -> (s: Self)
        ensures
            s@ == Seq::<(Seq<char>, UserView)>::empty(),
            s.token_ttl() == token_ttl_seconds,
            s.wf(),
    {
        Service { users: NameMap::new(), token_ttl_seconds }
    }

    /// Handles one request made at time `now` (milliseconds since the Unix
    /// epoch). A new account's salt and a new token's bytes are drawn from the
    /// operating system's random number generator, only when an account is
    /// made and only when a login succeeds.
    pub fn handle(
        &mut self,
        method: &str,
        path: &str,
        body: &Body,
        authorization: &str,
        now: u64,
    ) -> (r: (u16, Reply))
        requires
            old(self).wf(),
        ensures
            final(self).wf(),
            final(self).token_ttl() == old(self).token_ttl(),
            exists|salt: Seq<u8>, token_bytes: Seq<u8>|
                #![trigger handle_spec(old(self)@, method@, path@, body@, authorization@, salt, token_bytes, now, old(self).token_ttl())]
                salt.len() == 16 && token_bytes.len() == 32 && is_outcome(
                    r,
                    final(self)@,
                    handle_spec(
                        old(self)@,
                        method@,
                        path@,
                        body@,
                        authorization@,
                        salt,
                        token_bytes,
                        now,
                        old(self).token_ttl(),
                    ),
                ),
    {
        let (r, Ghost(salt), Ghost(token_bytes)) = self.respond(
            method,
            path,
            body,
            authorization,
            now,
            None,
            None,
        );
        assert(is_outcome(
            r,
            self@,
            handle_spec(
                old(self)@,
                method@,
                path@,
                body@,
                authorization@,
                salt,
                token_bytes,
                now,
                old(self).token_ttl(),
            ),
        ));
        r
    }

    /// Handles one request made at time `now`, with `salt` for a new account
    /// and `token_bytes` for a new token.
    pub fn handle_with(
        &mut self,
        method: &str,
        path: &str,
        body: &Body,
        authorization: &str,
        now: u64,
        salt: &[u8; 16],
        token_bytes: &[u8; 32],
    ) -> (r: (u16, Reply))
        requires
            old(self).wf(),
        ensures
            final(self).wf(),
            final(self).token_ttl() == old(self).token_ttl(),
            is_outcome(
                r,
                final(self)@,
                handle_spec(
                    old(self)@,
                    method@,
                    path@,
                    body@,
                    authorization@,
                    salt@,
                    token_bytes@,
                    now,
                    old(self).token_ttl(),
                ),
            ),
    {
        let (r, _, _) = self.respond(
            method,
            path,
            body,
            authorization,
            now,
            Some(salt),
            Some(token_bytes),
        );
        r
    }

    /// Handles one request; the salt and token bytes are the given ones, or
    /// drawn when needed. Hands out those that the outcome was made with.
    fn respond(
        &mut self,
        method: &str,
        path: &str,
        body: &Body,
        authorization: &str,
        now: u64,
        given_salt: Option<&[u8; 16]>,
        given_token: Option<&[u8; 32]>,
    ) -> (r: ((u16, Reply), Ghost<Seq<u8>>, Ghost<Seq<u8>>))
        requires
            old(self).wf(),
        ensures
            final(self).wf(),
            final(self).token_ttl() == old(self).token_ttl(),
            r.1@.len() == 16,
            r.2@.len() == 32,
            given_salt matches Some(g) ==> r.1@ == g@,
            given_token matches Some(g) ==> r.2@ == g@,
            is_outcome(
                r.0,
                final(self)@,
                handle_spec(
                    old(self)@,
                    method@,
                    path@,
                    body@,
                    authorization@,
                    r.1@,
                    r.2@,
                    now,
                    old(self).token_ttl(),
                ),
            ),
    {
        let ghost unused_s = match given_salt {
            Some(g) => g@,
            None => unused_salt(),
        };
        let ghost unused_t = match given_token {
            Some(g) => g@,
            None => unused_token_bytes(),
        };
        let m = chars_of(method);
        let p = chars_of(path);
        if let Some(status) = route_error_chars(m.as_slice(), p.as_slice()) {
            let message = if status == 404 {
                "Not found"
            } else {
                "Method not allowed"
            };
            return (error(status, message), Ghost(unused_s), Ghost(unused_t));
        }
        if eq_str(m.as_slice(), "GET") && eq_str(p.as_slice(), "/ping") {
            return (
                (200, Reply::Data(Data::Text("pong".to_owned()))),
                Ghost(unused_s),
                Ghost(unused_t),
            );
        }
        if eq_str(m.as_slice(), "POST") && eq_str(p.as_slice(), "/echo") {
            return (self.echo(body), Ghost(unused_s), Ghost(unused_t));
        }
        if eq_str(m.as_slice(), "POST") {
            let register = eq_str(p.as_slice(), "/users");
            if register || eq_str(p.as_slice(), "/sessions") {
                return self.account(register, body, now, given_salt, given_token);
            }
        }
        if is_protected_path(p.as_slice()) {
            return (
                self.protected(m.as_slice(), p.as_slice(), body, authorization, now),
                Ghost(unused_s),
                Ghost(unused_t),
            );
        }
        (error(404, "Not found"), Ghost(unused_s), Ghost(unused_t))
    }

    /// `POST /echo`.
    fn echo(&self, body: &Body) -> (r: (u16, Reply))
        ensures
            is_outcome(r, self@, echo_spec(self@, body@)),
    {
        let text = match body.text_member("text") {
            None => return error(400, "Expected text"),
            Some(t) => t,
        };
        let one = match body.member_count() {
            Some(n) => n == 1,
            None => false,
        };
        if !one {
            return error(400, "Invalid fields");
        }
        if text.as_str().as_bytes().len() > MAX_TEXT_BYTES {
            return error(413, "Text too large");
        }
        (200, Reply::Data(Data::Text(text.clone())))
    }

    /// `POST /users` (when `register`) or `POST /sessions`, at time `now`.
    fn account(
        &mut self,
        register: bool,
        body: &Body,
        now: u64,
        given_salt: Option<&[u8; 16]>,
        given_token: Option<&[u8; 32]>,
    ) -> (r: ((u16, Reply), Ghost<Seq<u8>>, Ghost<Seq<u8>>))
        requires
            old(self).wf(),
        ensures
            final(self).wf(),
            final(self).token_ttl() == old(self).token_ttl(),
            r.1@.len() == 16,
            r.2@.len() == 32,
            given_salt matches Some(g) ==> r.1@ == g@,
            given_token matches Some(g) ==> r.2@ == g@,
            is_outcome(
                r.0,
                final(self)@,
                account_spec(old(self)@, register, body@, r.1@, r.2@, now, old(self).token_ttl()),
            ),
    {
        let ghost unused_s = match given_salt {
            Some(g) => g@,
            None => unused_salt(),
        };
        let ghost unused_t = match given_token {
            Some(g) => g@,
            None => unused_token_bytes(),
        };
        let name = match body.text_member("username") {
            None => return (error(400, "Expected username"), Ghost(unused_s), Ghost(unused_t)),
            Some(n) => n,
        };
        let password = match body.text_member("password") {
            None => return (error(400, "Expected password"), Ghost(unused_s), Ghost(unused_t)),
            Some(p) => p,
        };
        let two = match body.member_count() {
            Some(n) => n == 2,
            None => false,
        };
        let password_chars = chars_of(password.as_str()).len();
        if !two || !valid_name(name.as_str(), 32) || password_chars < 8 || password_chars > 128 {
            return (error(400, "Invalid account fields"), Ghost(unused_s), Ghost(unused_t));
        }
        if register {
            let (r, salt) = self.register(name, password, given_salt);
            (r, salt, Ghost(unused_t))
        } else {
            let (r, token_bytes) = self.login(name, password, now, given_token);
            (r, Ghost(unused_s), token_bytes)
        }
    }

    /// Creates the account `name`, unless it exists, with the given salt or
    /// one drawn now; hands out the salt.
    fn register(&mut self, name: &String, password: &String, given_salt: Option<&[u8; 16]>) -> (r: (
        (u16, Reply),
        Ghost<Seq<u8>>,
    ))
        requires
            old(self).wf(),
        ensures
            final(self).wf(),
            final(self).token_ttl() == old(self).token_ttl(),
            r.1@.len() == 16,
            given_salt matches Some(g) ==> r.1@ == g@,
            is_outcome(r.0, final(self)@, register_spec(old(self)@, name@, password@, r.1@)),
    {
        let salt: [u8; 16] = match given_salt {
            Some(g) => *g,
            None => os_random_bytes(),
        };
        let digest = password_hash(password.as_str(), &salt);
        if self.users.get(name.as_str()).is_some() {
            return (error(409, "Username exists"), Ghost(salt@));
        }
        let user = User { salt, digest, token: None, expires_at: 0, texts: NameMap::new() };
        assert(user@ == new_account(password@, salt@));
        self.users.insert(name.clone(), user);
        proof {
            crate::store::lemma_put_sorted(old(self)@, name@, new_account(password@, salt@));
            assert forall|i: int| 0 <= i < self@.len() implies sorted(#[trigger] self@[i].1.texts) by {
                let j = crate::store::lemma_put_entries(old(self)@, name@, new_account(password@, salt@), i);
                if j != -1 {
                    assert(sorted(old(self)@[j].1.texts));
                }
            }
        }
        ((201, Reply::Data(Data::Username(name.clone()))), Ghost(salt@))
    }

    /// Gives the account `name` a new token, if `password` is its password.
    fn login(
        &mut self,
        name: &String,
        password: &String,
        now: u64,
        given_token: Option<&[u8; 32]>,
    ) -> (r: ((u16, Reply), Ghost<Seq<u8>>))
        requires
            old(self).wf(),
        ensures
            final(self).wf(),
            final(self).token_ttl() == old(self).token_ttl(),
            r.1@.len() == 32,
            given_token matches Some(g) ==> r.1@ == g@,
            is_outcome(
                r.0,
                final(self)@,
                login_spec(old(self)@, name@, password@, r.1@, now, old(self).token_ttl()),
            ),
    {
        let ghost unused_t = match given_token {
            Some(g) => g@,
            None => unused_token_bytes(),
        };
        let (stored_salt, stored_digest) = match self.users.get(name.as_str()) {
            None => return (error(401, "Invalid username or password"), Ghost(unused_t)),
            Some(u) => (u.salt, u.digest),
        };
        let digest = password_hash(password.as_str(), &stored_salt);
        if !digests_equal(&digest, &stored_digest) {
            return (error(401, "Invalid username or password"), Ghost(unused_t));
        }
        let token_bytes: [u8; 32] = match given_token {
            Some(g) => *g,
            None => os_random_bytes(),
        };
        let token = hex_string(&token_bytes);
        let expires_at = session_deadline(now, self.token_ttl_seconds);
        let ghost s = self@;
        let (i, _) = self.users.search(name.as_str());
        proof {
            crate::store::lemma_lower_bound(s, name@);
        }
        let mut u = self.users.replace_at(i, User::placeholder());
        assert(u@ == s[i as int].1);
        assert(sorted(s[i as int].1.texts));
        u.token = Some(token.clone());
        u.expires_at = expires_at;
        assert(u@ == with_session(s[i as int].1, token@, expires_at));
        let _ = self.replace_user(i, u);
        assert(self@ =~= s.update(i as int, (name@, u@)));
        ((200, Reply::Data(Data::Session(token, self.token_ttl_seconds))), Ghost(token_bytes@))
    }

    /// Puts `u` in place `i` of the accounts, where an account is.
    fn replace_user(&mut self, i: usize, u: User) -> (old_user: User)
        requires
            sorted(old(self)@),
            i < old(self)@.len(),
            u.texts.wf(),
            forall|j: int| 0 <= j < old(self)@.len() && j != i ==> sorted(#[trigger] old(self)@[j].1.texts),
        ensures
            final(self)@ == old(self)@.update(i as int, (old(self)@[i as int].0, u@)),
            final(self)@ == put(old(self)@, old(self)@[i as int].0, u@),
            old_user@ == old(self)@[i as int].1,
            final(self).wf(),
            final(self).token_ttl() == old(self).token_ttl(),
    {
        let ghost s = self@;
        proof {
            lemma_key_at_lower_bound(s, s[i as int].0, i as int);
        }
        let old_user = self.users.replace_at(i, u);
        proof {
            assert forall|j: int| 0 <= j < self@.len() implies sorted(#[trigger] self@[j].1.texts) by {
                if j != i {
                    assert(self@[j] == s[j]);
                }
            }
        }
        old_user
    }

    /// The place of the first account, in name order, that holds `token`.
    fn find_holder(&self, token: &[char]) -> (r: Option<usize>)
        ensures
            match r {
                Some(i) => token_holder(self@, token@) == Some(i as int),
                None => token_holder(self@, token@) is None,
            },
    {
        let mut j: usize = 0;
        while j < self.users.len()
            invariant
                j <= self@.len(),
                token_holder(self@, token@) == token_holder_from(self@, token@, j as int),
            decreases self@.len() - j,
        {
            let u = self.users.value_at(j);
            let held = match &u.token {
                Some(t) => token.len() > 0 && chars_eq(chars_of(t.as_str()).as_slice(), token),
                None => false,
            };
            assert(held == holds_token(self@[j as int].1, token@));
            if held {
                return Some(j);
            }
            j = j + 1;
        }
        None
    }

    /// A request on a path that needs a logged-in account.
    fn protected(
        &mut self,
        method: &[char],
        path: &[char],
        body: &Body,
        authorization: &str,
        now: u64,
    ) -> (r: (u16, Reply))
        requires
            old(self).wf(),
        ensures
            final(self).wf(),
            final(self).token_ttl() == old(self).token_ttl(),
            is_outcome(
                r,
                final(self)@,
                protected_spec(old(self)@, method@, path@, body@, authorization@, now),
            ),
    {
        let ghost s = self@;
        let auth = chars_of(authorization);
        let token: Vec<char> = if starts_with_str(auth.as_slice(), "Bearer ") {
            let prefix = chars_of("Bearer ");
            chars_from(auth.as_slice(), prefix.len())
        } else {
            Vec::new()
        };
        assert(token@ == bearer_token(authorization@));
        let i = match self.find_holder(token.as_slice()) {
            None => return error(401, "Login required"),
            Some(i) => i,
        };
        proof {
            lemma_token_holder_in_range(s, token@, 0);
            lemma_key_at_lower_bound(s, s[i as int].0, i as int);
        }
        if now >= self.users.value_at(i).expires_at {
            return error(401, "Login required");
        }
        if eq_str(method, "DELETE") && eq_str(path, "/users/me") {
            let _ = self.users.remove_at(i);
            assert(self@ =~= delete(s, s[i as int].0));
            proof {
                assert forall|j: int| 0 <= j < self@.len() implies sorted(#[trigger] self@[j].1.texts) by {
                    if j < i {
                        assert(self@[j] == s[j]);
                    } else {
                        assert(self@[j] == s[j + 1]);
                    }
                }
            }
            return (200, Reply::Data(Data::Null));
        }
        if eq_str(method, "DELETE") && eq_str(path, "/sessions/current") {
            let mut u = self.users.replace_at(i, User::placeholder());
            assert(u@ == s[i as int].1);
            assert(sorted(s[i as int].1.texts));
            u.token = None;
            assert(u@ == without_token(s[i as int].1));
            let _ = self.replace_user(i, u);
            assert(self@ =~= s.update(i as int, (s[i as int].0, u@)));
            return (200, Reply::Data(Data::Null));
        }
        if eq_str(method, "GET") && eq_str(path, "/texts") {
            let names = self.users.value_at(i).texts.names();
            return (200, Reply::Data(Data::Names(names)));
        }
        if starts_with_str(path, "/texts/") {
            let prefix = chars_of("/texts/");
            let text_name = string_from_chars(chars_from(path, prefix.len()).as_slice());
            return self.text_request(i, method, &text_name, body);
        }
        error(404, "Not found")
    }

    /// A request on text `text_name` of the account at place `i`.
    fn text_request(&mut self, i: usize, method: &[char], text_name: &String, body: &Body) -> (r: (
        u16,
        Reply,
    ))
        requires
            old(self).wf(),
            i < old(self)@.len(),
        ensures
            final(self).wf(),
            final(self).token_ttl() == old(self).token_ttl(),
            is_outcome(r, final(self)@, text_spec(old(self)@, i as int, method@, text_name@, body@)),
    {
        let ghost s = self@;
        if !valid_name(text_name.as_str(), 64) {
            return error(400, "Invalid text name");
        }
        if eq_str(method, "GET") {
            return match self.users.value_at(i).texts.get(text_name.as_str()) {
                Some(t) => (200, Reply::Data(Data::Text(t.clone()))),
                None => error(404, "Text not found"),
            };
        }
        if eq_str(method, "PUT") {
            let text = match body.text_member("text") {
                None => return error(400, "Expected text"),
                Some(t) => t,
            };
            let one = match body.member_count() {
                Some(n) => n == 1,
                None => false,
            };
            if !one {
                return error(400, "Invalid fields");
            }
            if text.as_str().as_bytes().len() > MAX_TEXT_BYTES {
                return error(413, "Text too large");
            }
            let mut u = self.users.replace_at(i, User::placeholder());
            assert(u@ == s[i as int].1);
            assert(sorted(s[i as int].1.texts));
            u.texts.insert(text_name.clone(), text.clone());
            assert(u@ == with_texts(s[i as int].1, put(s[i as int].1.texts, text_name@, text@)));
            let _ = self.replace_user(i, u);
            proof {
                lemma_key_at_lower_bound(s, s[i as int].0, i as int);
            }
            assert(self@ =~= s.update(i as int, (s[i as int].0, u@)));
            return (200, Reply::Data(Data::Null));
        }
        if eq_str(method, "DELETE") {
            let mut u = self.users.replace_at(i, User::placeholder());
            assert(u@ == s[i as int].1);
            assert(sorted(s[i as int].1.texts));
            let removed = u.texts.remove(text_name.as_str());
            assert(u@ == with_texts(s[i as int].1, delete(s[i as int].1.texts, text_name@)));
            let _ = self.replace_user(i, u);
            proof {
                lemma_key_at_lower_bound(s, s[i as int].0, i as int);
            }
            assert(self@ =~= s.update(i as int, (s[i as int].0, u@)));
            return match removed {
                Some(_) => (200, Reply::Data(Data::Null)),
                None => {
                    assert(u@ == s[i as int].1);
                    assert(self@ =~= s);
                    error(404, "Text not found")
                },
            };
        }
        error(404, "Not found")
    }
}

/// The time at which a token given at `now` stops logging in.
fn session_deadline(now: u64, ttl_seconds: u64) -> (d: u64)
    ensures
        d == token_deadline(now, ttl_seconds),
{
    match ttl_seconds.checked_mul(1000) {
        Some(span) => now.saturating_add(span),
        None => {
            assert(now + ttl_seconds * 1000 > u64::MAX) by (nonlinear_arith)
                requires
                    ttl_seconds * 1000 > u64::MAX,
            ;
            u64::MAX
        },
    }
}

/// Whether `path` needs a logged-in account.
fn is_protected_path(path: &[char]) -> (r: bool)
    ensures
        r == is_protected(path@),
{
    eq_str(path, "/texts") || eq_str(path, "/sessions/current") || eq_str(path, "/users/me")
        || starts_with_str(path, "/texts/")
}

/// A holder found from place `i` on is at a place of the accounts.
pub proof fn lemma_token_holder_in_range(users: Seq<(Seq<char>, UserView)>, token: Seq<char>, i: int)
    ensures
        token_holder_from(users, token, i) matches Some(j) ==> i <= j < users.len() && holds_token(
            users[j].1,
            token,
        ),
    decreases users.len() - i,
{
    if 0 <= i < users.len() && !holds_token(users[i].1, token) {
        lemma_token_holder_in_range(users, token, i + 1);
    }
}

} // verus!
