//! What the server answers on a connection: requests before and after authentication, the
//! reply texts, and the reading of a token out of a JSON request.
use vstd::prelude::*;

use crate::authentication::{
    drawn_token, email_taken, expires_a_day_after, has_fresh_extension, has_login, logged_in,
    logged_out, registered, well_formed_id, AuthView, Authenticate, LoginError, RegisterError,
};
use crate::checks::{email_accepted, password_acceptable};
use crate::clock::{format_utc, parse_rfc3339, rfc3339_instant, utc_display, utc_now, Timestamp};
use crate::text::{contains_seq, contains_str, trim_char, trim_quotes};
use crate::token::{Token, TokenView};

verus! {

/// The kind of a message received before authentication.
pub enum MessageKind {
    /// The text mentions `register`.
    Register,
    /// The text mentions `login` (and not `register`).
    Login,
    /// Anything else.
    Other,
}

/// Sorts a message by the words it contains: `register` wins over `login`.
pub fn classify_message(msg: &str) -> (k: MessageKind)
    ensures
        contains_seq(msg@, "register"@) ==> k is Register,
        !contains_seq(msg@, "register"@) && contains_seq(msg@, "login"@) ==> k is Login,
        !contains_seq(msg@, "register"@) && !contains_seq(msg@, "login"@) ==> k is Other,
{
    if contains_str(msg, "register") {
        MessageKind::Register
    } else if contains_str(msg, "login") {
        MessageKind::Login
    } else {
        MessageKind::Other
    }
}

/// A request received before authentication.
pub enum PreAuthRequest {
    Register { full_name: String, password: String, email: String },
    Login { email: String, password: String },
    Other,
}

/// A registration request from the JSON texts of its `email`, `password` and `name` fields,
/// each with its surrounding double quotes removed.
pub fn register_request(email_text: &str, password_text: &str, name_text: &str) -> (r:
    PreAuthRequest)
    ensures
        r matches PreAuthRequest::Register { full_name, password, email } && full_name@
            == trim_char(name_text@, '"') && password@ == trim_char(password_text@, '"') && email@
            == trim_char(email_text@, '"'),
{
    PreAuthRequest::Register {
        full_name: trim_quotes(name_text),
        password: trim_quotes(password_text),
        email: trim_quotes(email_text),
    }
}

/// A login request from the JSON texts of its `email` and `password` fields, each with its
/// surrounding double quotes removed.
pub fn login_request(email_text: &str, password_text: &str) -> (r: PreAuthRequest)
    ensures
        r matches PreAuthRequest::Login { email, password } && password@ == trim_char(
            password_text@,
            '"',
        ) && email@ == trim_char(email_text@, '"'),
{
    PreAuthRequest::Login { email: trim_quotes(email_text), password: trim_quotes(password_text) }
}

/// What a `JsonField` holds, as plain values.
pub open spec fn field_view(f: JsonField) -> (Seq<char>, Option<Seq<char>>) {
    (
        f.text@,
        match f.str_value {
            Some(s) => Some(s@),
            None => None,
        },
    )
}

/// What an optional `JsonField` holds, as plain values.
pub open spec fn opt_field_view(f: Option<JsonField>) -> Option<(Seq<char>, Option<Seq<char>>)> {
    match f {
        Some(g) => Some(field_view(g)),
        None => None,
    }
}

/// What `serde_json` finds in the document `text` at `path`: starting from the whole
/// document, each key in turn is looked up with `Value::get`; the value reached is given as
/// its JSON text (`Value::to_string`) and, for a JSON string, the string (`Value::as_str`).
/// `None` where `text` is not JSON or a key is not found.
pub uninterp spec fn json_member(text: Seq<char>, path: Seq<Seq<char>>) -> Option<
    (Seq<char>, Option<Seq<char>>),
>;

/// The keys of a path, as plain values.
pub open spec fn path_view(path: Seq<String>) -> Seq<Seq<char>> {
    path.map_values(|k: String| k@)
}

/// Parses `text` with `serde_json::from_str` into a `serde_json::Value` and looks up `path`
/// in it with `Value::get`, giving the value found as a `JsonField` (`Value::to_string` and
/// `Value::as_str`).
/// Claimed: the result is the one `json_member` names for the text and the path.
#[verifier::external_body]
pub(crate) fn json_member_at(text: &str, path: &Vec<String>) -> (r: Option<JsonField>)
    ensures
        opt_field_view(r) == json_member(text@, path_view(path@)),
{
    let Ok(doc) = serde_json::from_str::<serde_json::Value>(text) else { return None };
    let mut cur = &doc;
    for key in path {
        match cur.get(key.as_str()) {
            Some(v) => cur = v,
            None => return None,
        }
    }
    let str_value = match cur.as_str() {
        Some(s) => Some(s.to_string()),
        None => None,
    };
    Some(JsonField { text: cur.to_string(), str_value })
}

/// The path made of the given keys.
fn path_of(keys: &[&str]) -> (p: Vec<String>)
    ensures
        path_view(p@) == keys@.map_values(|k: &str| k@),
{
    let mut p: Vec<String> = Vec::new();
    let mut i: usize = 0;
    while i < keys.len()
        invariant
            i <= keys.len(),
            path_view(p@) =~= keys@.map_values(|k: &str| k@).take(i as int),
        decreases keys.len() - i,
    {
        let ghost before = p@;
        p.push(String::from_str(keys[i]));
        assert(path_view(p@) =~= path_view(before).push(keys@[i as int]@));
        assert(keys@.map_values(|k: &str| k@).take(i + 1) =~= keys@.map_values(|k: &str| k@).take(
            i as int,
        ).push(keys@[i as int]@));
        i = i + 1;
    }
    assert(keys@.map_values(|k: &str| k@).take(i as int) =~= keys@.map_values(|k: &str| k@));
    p
}

/// The JSON text found at `path` in `msg`, if any.
pub open spec fn member_text(msg: Seq<char>, path: Seq<Seq<char>>) -> Option<Seq<char>> {
    match json_member(msg, path) {
        Some(m) => Some(m.0),
        None => None,
    }
}

fn member_text_at(msg: &str, keys: &[&str]) -> (r: Option<String>)
    ensures
        match r {
            Some(t) => member_text(msg@, keys@.map_values(|k: &str| k@)) == Some(t@),
            None => member_text(msg@, keys@.map_values(|k: &str| k@)) is None,
        },
{
    let path = path_of(keys);
    match json_member_at(msg, &path) {
        Some(f) => Some(f.text),
        None => None,
    }
}

/// Reads a message received before authentication. A message that mentions `register` is a
/// registration, read from the JSON texts of `register.email`, `register.password` and
/// `register.name`; otherwise one that mentions `login` is a login, read from `login.email`
/// and `login.password`; each text loses its surrounding double quotes. Any other message is
/// `Other`. `None` where the message is not JSON or a member is missing.
pub fn parse_pre_auth(msg: &str) -> (r: Option<PreAuthRequest>)
    ensures
        contains_seq(msg@, "register"@) ==> match (
            member_text(msg@, seq!["register"@, "email"@]),
            member_text(msg@, seq!["register"@, "password"@]),
            member_text(msg@, seq!["register"@, "name"@]),
        ) {
            (Some(e), Some(p), Some(n)) => r matches Some(
                PreAuthRequest::Register { full_name, password, email },
            ) && full_name@ == trim_char(n, '"') && password@ == trim_char(p, '"') && email@
                == trim_char(e, '"'),
            _ => r is None,
        },
        !contains_seq(msg@, "register"@) && contains_seq(msg@, "login"@) ==> match (
            member_text(msg@, seq!["login"@, "email"@]),
            member_text(msg@, seq!["login"@, "password"@]),
        ) {
            (Some(e), Some(p)) => r matches Some(PreAuthRequest::Login { email, password })
                && password@ == trim_char(p, '"') && email@ == trim_char(e, '"'),
            _ => r is None,
        },
        !contains_seq(msg@, "register"@) && !contains_seq(msg@, "login"@) ==> r matches Some(
            PreAuthRequest::Other,
        ),
{
    proof {
        reveal_strlit("register");
        reveal_strlit("login");
        reveal_strlit("email");
        reveal_strlit("password");
        reveal_strlit("name");
    }
    match classify_message(msg) {
        MessageKind::Register => {
            let keys_e = ["register", "email"];
            let keys_p = ["register", "password"];
            let keys_n = ["register", "name"];
            assert(keys_e@.map_values(|k: &str| k@) =~= seq!["register"@, "email"@]);
            assert(keys_p@.map_values(|k: &str| k@) =~= seq!["register"@, "password"@]);
            assert(keys_n@.map_values(|k: &str| k@) =~= seq!["register"@, "name"@]);
            let e = member_text_at(msg, &keys_e);
            let p = member_text_at(msg, &keys_p);
            let n = member_text_at(msg, &keys_n);
            match (e, p, n) {
                (Some(e), Some(p), Some(n)) => Some(
                    register_request(e.as_str(), p.as_str(), n.as_str()),
                ),
                _ => None,
            }
        },
        MessageKind::Login => {
            let keys_e = ["login", "email"];
            let keys_p = ["login", "password"];
            assert(keys_e@.map_values(|k: &str| k@) =~= seq!["login"@, "email"@]);
            assert(keys_p@.map_values(|k: &str| k@) =~= seq!["login"@, "password"@]);
            let e = member_text_at(msg, &keys_e);
            let p = member_text_at(msg, &keys_p);
            match (e, p) {
                (Some(e), Some(p)) => Some(login_request(e.as_str(), p.as_str())),
                _ => None,
            }
        },
        MessageKind::Other => Some(PreAuthRequest::Other),
    }
}

/// Something to send on the connection.
pub enum Reply {
    /// This text, as a text frame.
    Text(String),
    /// The JSON object `{"token": ...}` wrapping this token serialized as JSON.
    TokenJson(Token),
}

/// What the connection does after a request received before authentication.
pub enum ConnectionStep {
    /// Wait for the next message.
    KeepReading,
    /// Stop reading and drop the connection.
    Stop,
    /// Hand the connection to a client session for this token.
    Authenticated(Token),
}

/// The text sent when a login fails.
pub open spec fn login_failed_text() -> Seq<char> {
    "{login: {failed}}"@
}

/// The text sent when a login succeeds with token `t`, whose expiry renders as `expire`.
pub open spec fn login_success_text(t: TokenView, expire: Seq<char>) -> Seq<char> {
    "{\"login\": {\"token\": {\"user\": \""@ + t.user + "\", token_id: \""@ + t.token_id
        + "\", \"expire_date\": \""@ + expire + "\"}}}"@
}

/// The login answer for `token` given the rendered expiry `expire_text`.
pub fn login_success_reply(token: &Token, expire_text: &str) -> (r: String)
    ensures
        r@ == login_success_text(token@, expire_text@),
{
    let mut r = String::from_str("{\"login\": {\"token\": {\"user\": \"");
    r.append(token.get_user_id().as_str());
    r.append("\", token_id: \"");
    r.append(token.get_id().as_str());
    r.append("\", \"expire_date\": \"");
    r.append(expire_text);
    r.append("\"}}}");
    r
}

/// The login answer for `token`, its expiry rendered as `Display` of `DateTime<Utc>`
/// renders it; `None` where that instant cannot be rendered.
pub fn login_reply(token: &Token) -> (r: Option<String>)
    ensures
        match utc_display(token@.expire_date.secs, token@.expire_date.nanos) {
            Some(e) => r matches Some(m) && m@ == login_success_text(token@, e),
            None => r is None,
        },
        token@.expire_date.well_inside_range() ==> r is Some,
{
    match format_utc(token.get_expire()) {
        Some(e) => Some(login_success_reply(token, e.as_str())),
        None => None,
    }
}

/// What handling `request` before authentication does, taking the service from `before` to
/// `after` and answering `r`.
///
/// A registration always ends the wait: on success the client is sent its token as JSON and
/// the connection is authenticated; a refused registration because of a taken address sends
/// `{"register":"failed, email is already used"}`. A successful login sends the login answer
/// and authenticates the connection; a failed one sends `{login: {failed}}` and waits for the
/// next message. Other requests are ignored. When no token can be issued, the connection
/// stops without an answer.
pub open spec fn pre_auth_outcome(
    before: AuthView,
    after: AuthView,
    request: PreAuthRequest,
    r: (Option<Reply>, ConnectionStep),
) -> bool {
        match request {
            PreAuthRequest::Register { full_name, password, email } => {
                if password_acceptable(password@) && email_accepted(email@) && !email_taken(
                    before.users,
                    email@,
                ) {
                    ||| match r.1 {
                        ConnectionStep::Authenticated(t) => registered(
                            before,
                            after,
                            full_name@,
                            password@,
                            email@,
                            t@,
                        ) && match r.0 {
                            Some(Reply::TokenJson(j)) => j@ == t@,
                            _ => false,
                        },
                        _ => false,
                    }
                    ||| (r.1 is Stop && r.0 is None && after == before)
                } else {
                    &&& r.1 is Stop
                    &&& after == before
                    &&& if password_acceptable(password@) && email_accepted(email@) {
                        r.0 matches Some(Reply::Text(m)) && m@
                            == "{\"register\":\"failed, email is already used\"}"@
                    } else {
                        r.0 is None
                    }
                }
            },
            PreAuthRequest::Login { email, password } => {
                if has_login(before.users, email@, password@) {
                    ||| (r.1 is Stop && r.0 is None && after == before)
                    ||| match r.1 {
                        ConnectionStep::Authenticated(t) => logged_in(
                            before,
                            after,
                            email@,
                            t@,
                        ) && match utc_display(t@.expire_date.secs, t@.expire_date.nanos) {
                            Some(e) => r.0 matches Some(Reply::Text(m)) && m@ == login_success_text(
                                t@,
                                e,
                            ),
                            None => r.0 is None,
                        },
                        _ => false,
                    }
                } else {
                    &&& r.1 is KeepReading
                    &&& after == before
                    &&& r.0 matches Some(Reply::Text(m)) && m@ == login_failed_text()
                }
            },
            PreAuthRequest::Other => r.0 is None && r.1 is KeepReading && after == before,
        }
}

/// Handles one request received before authentication (see `pre_auth_outcome`), issuing
/// tokens that expire one day after the instant `now`. A registration that passes its checks,
/// or a login whose credentials match, authenticates the connection whenever `now` lies well
/// inside the range of `chrono` and some token identifier is free.
pub fn handle_pre_auth_at(auth: &mut Authenticate, request: PreAuthRequest, now: Timestamp) -> (r: (
    Option<Reply>,
    ConnectionStep,
))
    requires
        old(auth).wf(),
    ensures
        final(auth).wf(),
        pre_auth_outcome(old(auth)@, final(auth)@, request, r),
        r.1 matches ConnectionStep::Authenticated(t) ==> expires_a_day_after(t@, now)
            && well_formed_id(t@.token_id),
        now.well_inside_range() && has_fresh_extension(old(auth)@.sessions, Seq::<char>::empty())
            ==> match request {
            PreAuthRequest::Register { full_name, password, email } => password_acceptable(
                password@,
            ) && email_accepted(email@) && !email_taken(old(auth)@.users, email@)
                ==> r.1 is Authenticated,
            PreAuthRequest::Login { email, password } => has_login(
                old(auth)@.users,
                email@,
                password@,
            ) ==> r.1 is Authenticated,
            PreAuthRequest::Other => true,
        },
{
    match request {
        PreAuthRequest::Register { full_name, password, email } => {
            match auth.register_user_at(full_name, password, email, now) {
                Ok(t) => (Some(Reply::TokenJson(t.duplicate())), ConnectionStep::Authenticated(t)),
                Err(e) => (
                    match e.reply() {
                        Some(m) => Some(Reply::Text(m)),
                        None => None,
                    },
                    ConnectionStep::Stop,
                ),
            }
        },
        PreAuthRequest::Login { email, password } => {
            match auth.login_user_at(email, password, now) {
                Ok(t) => {
                    let reply = match login_reply(&t) {
                        Some(m) => Some(Reply::Text(m)),
                        None => None,
                    };
                    (reply, ConnectionStep::Authenticated(t))
                },
                Err(LoginError::AuthenticationFailed) => (
                    Some(Reply::Text(String::from_str("{login: {failed}}"))),
                    ConnectionStep::KeepReading,
                ),
                Err(LoginError::TokenUnavailable) => (None, ConnectionStep::Stop),
            }
        },
        PreAuthRequest::Other => (None, ConnectionStep::KeepReading),
    }
}

/// Handles one request received before authentication (see `pre_auth_outcome`), issuing
/// tokens that expire one day after the clock's current instant.
pub fn handle_pre_auth(auth: &mut Authenticate, request: PreAuthRequest) -> (r: (
    Option<Reply>,
    ConnectionStep,
))
    requires
        old(auth).wf(),
    ensures
        final(auth).wf(),
        pre_auth_outcome(old(auth)@, final(auth)@, request, r),
        r.1 matches ConnectionStep::Authenticated(t) ==> drawn_token(t@),
{
    let now = utc_now();
    let r = handle_pre_auth_at(auth, request, now);
    proof {
        if r.1 is Authenticated {
            assert(expires_a_day_after(r.1->Authenticated_0@, now));
        }
    }
    r
}

/// What a request reads from one JSON value: its JSON text (`Value::to_string`) and, for a
/// JSON string, the string itself (`Value::as_str`).
pub struct JsonField {
    pub text: String,
    pub str_value: Option<String>,
}

/// The fields `user`, `token_id` and `expire_date` of a JSON token object, where present.
pub struct TokenFields {
    pub user: Option<JsonField>,
    pub token_id: Option<JsonField>,
    pub expire_date: Option<JsonField>,
}

/// All three fields are present.
pub open spec fn fields_complete(f: TokenFields) -> bool {
    f.user is Some && f.token_id is Some && f.expire_date is Some
}

/// A complete set of fields whose `expire_date` is a JSON string that `chrono` reads as
/// RFC 3339.
pub open spec fn expiry_readable(f: TokenFields) -> bool {
    &&& f.expire_date matches Some(e)
    &&& e.str_value matches Some(s)
    &&& rfc3339_instant(s@) is Some
}

/// The token the fields describe: quotes trimmed off the texts of `user` and `token_id`, and
/// the instant of `expire_date`.
pub open spec fn token_from_fields(f: TokenFields) -> TokenView {
    TokenView {
        user: trim_char(f.user->Some_0.text@, '"'),
        token_id: trim_char(f.token_id->Some_0.text@, '"'),
        expire_date: crate::clock::Timestamp {
            secs: rfc3339_instant(f.expire_date->Some_0.str_value->Some_0@)->Some_0.0,
            nanos: rfc3339_instant(f.expire_date->Some_0.str_value->Some_0@)->Some_0.1,
        },
    }
}

/// `s` holds no double quote.
pub open spec fn quote_free(s: Seq<char>) -> bool {
    forall|i: int| 0 <= i < s.len() ==> s[i] != '"'
}

/// `s` between double quotes: the JSON text of a string that holds no double quote,
/// backslash or control character.
pub open spec fn quoted(s: Seq<char>) -> Seq<char> {
    seq!['"'] + s + seq!['"']
}

proof fn lemma_trim_quoted(s: Seq<char>)
    requires
        quote_free(s),
    ensures
        trim_char(quoted(s), '"') == s,
{
    let q = quoted(s);
    let r = s.push('"');
    assert(q.drop_first() =~= r);
    assert(trim_char(q, '"') == trim_char(r, '"'));
    if s.len() == 0 {
        assert(r.drop_first() =~= Seq::<char>::empty());
        assert(trim_char(r, '"') == trim_char(r.drop_first(), '"'));
        assert(trim_char(Seq::<char>::empty(), '"') == Seq::<char>::empty());
        assert(s =~= Seq::<char>::empty());
    } else {
        assert(r[0] == s[0]);
        assert(r.drop_last() =~= s);
        assert(trim_char(r, '"') == trim_char(s, '"'));
        assert(s.last() == s[s.len() - 1]);
    }
}

/// A token reads back from the JSON fields that carry it: when `user` and `token_id` hold no
/// double quote and appear as quoted JSON strings, and `chrono` reads the text of
/// `expire_date` as the token's expiry, the fields are complete and readable and describe
/// exactly that token.
pub proof fn lemma_token_fields_round_trip(f: TokenFields, t: TokenView)
    requires
        quote_free(t.user),
        quote_free(t.token_id),
        f.user matches Some(u) && u.text@ == quoted(t.user),
        f.token_id matches Some(i) && i.text@ == quoted(t.token_id),
        f.expire_date matches Some(e) && (e.str_value matches Some(x) && rfc3339_instant(x@)
            == Some((t.expire_date.secs, t.expire_date.nanos))),
    ensures
        fields_complete(f),
        expiry_readable(f),
        token_from_fields(f) == t,
{
    lemma_trim_quoted(t.user);
    lemma_trim_quoted(t.token_id);
}

/// Reads a token out of the fields of a JSON token object; `None` when a field is missing.
pub fn serialize_to_token(fields: &TokenFields) -> (r: Option<Token>)
    requires
        fields_complete(*fields) ==> expiry_readable(*fields),
    ensures
        !fields_complete(*fields) ==> r is None,
        fields_complete(*fields) ==> (r matches Some(t) && t@ == token_from_fields(*fields)),
{
    match (&fields.user, &fields.token_id, &fields.expire_date) {
        (Some(user), Some(token_id), Some(expire_date)) => {
            let user = trim_quotes(user.text.as_str());
            let token_id = trim_quotes(token_id.text.as_str());
            match &expire_date.str_value {
                Some(s) => match parse_rfc3339(s.as_str()) {
                    Some(t) => Some(Token::new(user, token_id, t)),
                    None => None,
                },
                None => None,
            }
        },
        _ => None,
    }
}

/// Reads a token out of the fields like `serialize_to_token`, first testing that the
/// `expire_date` of a complete set of fields is readable: `None` when it is not.
pub fn try_serialize_to_token(fields: &TokenFields) -> (r: Option<Option<Token>>)
    ensures
        match r {
            None => fields_complete(*fields) && !expiry_readable(*fields),
            Some(inner) => {
                &&& fields_complete(*fields) ==> expiry_readable(*fields)
                &&& !fields_complete(*fields) ==> inner is None
                &&& fields_complete(*fields) ==> (inner matches Some(t) && t@ == token_from_fields(
                    *fields,
                ))
            },
        },
{
    if let (Some(_), Some(_), Some(expire_date)) = (
        &fields.user,
        &fields.token_id,
        &fields.expire_date,
    ) {
        match &expire_date.str_value {
            Some(s) => {
                if parse_rfc3339(s.as_str()).is_none() {
                    return None;
                }
            },
            None => {
                return None;
            },
        }
    }
    Some(serialize_to_token(fields))
}

/// A request received on an authenticated connection.
pub enum ClientRequest {
    /// A `logout` request with the fields of its `token` object.
    Logout(TokenFields),
    /// A request that carries no `logout` member.
    Other,
}

/// Reads a message received on an authenticated connection. A message with a `logout`
/// member is a logout, read from the `user`, `token_id` and `expire_date` members of
/// `logout.token`; one without is `Other`. `None` where the message is not JSON or the
/// logout has no `token`.
pub fn parse_client_request(msg: &str) -> (r: Option<ClientRequest>)
    ensures
        json_member(msg@, seq![]) is None ==> r is None,
        json_member(msg@, seq![]) is Some && json_member(msg@, seq!["logout"@]) is None
            ==> r matches Some(ClientRequest::Other),
        json_member(msg@, seq![]) is Some && json_member(msg@, seq!["logout"@]) is Some
            && json_member(msg@, seq!["logout"@, "token"@]) is None ==> r is None,
        json_member(msg@, seq![]) is Some && json_member(msg@, seq!["logout"@]) is Some
            && json_member(msg@, seq!["logout"@, "token"@]) is Some ==> (r matches Some(
            ClientRequest::Logout(f),
        ) && opt_field_view(f.user) == json_member(msg@, seq!["logout"@, "token"@, "user"@])
            && opt_field_view(f.token_id) == json_member(
            msg@,
            seq!["logout"@, "token"@, "token_id"@],
        ) && opt_field_view(f.expire_date) == json_member(
            msg@,
            seq!["logout"@, "token"@, "expire_date"@],
        )),
{
    let keys_doc: [&str; 0] = [];
    let keys_logout = ["logout"];
    let keys_token = ["logout", "token"];
    let keys_user = ["logout", "token", "user"];
    let keys_id = ["logout", "token", "token_id"];
    let keys_expire = ["logout", "token", "expire_date"];
    proof {
        assert(keys_doc@.map_values(|k: &str| k@) =~= Seq::<Seq<char>>::empty());
        assert(keys_logout@.map_values(|k: &str| k@) =~= seq!["logout"@]);
        assert(keys_token@.map_values(|k: &str| k@) =~= seq!["logout"@, "token"@]);
        assert(keys_user@.map_values(|k: &str| k@) =~= seq!["logout"@, "token"@, "user"@]);
        assert(keys_id@.map_values(|k: &str| k@) =~= seq!["logout"@, "token"@, "token_id"@]);
        assert(keys_expire@.map_values(|k: &str| k@) =~= seq![
            "logout"@,
            "token"@,
            "expire_date"@,
        ]);
    }
    if json_member_at(msg, &path_of(&keys_doc)).is_none() {
        return None;
    }
    if json_member_at(msg, &path_of(&keys_logout)).is_none() {
        return Some(ClientRequest::Other);
    }
    if json_member_at(msg, &path_of(&keys_token)).is_none() {
        return None;
    }
    let user = json_member_at(msg, &path_of(&keys_user));
    let token_id = json_member_at(msg, &path_of(&keys_id));
    let expire_date = json_member_at(msg, &path_of(&keys_expire));
    Some(ClientRequest::Logout(TokenFields { user, token_id, expire_date }))
}

/// How an authenticated session words its logout answers: the plain session sends bare
/// texts, the watch-list session sends JSON objects.
pub enum ReplyStyle {
    Plain,
    Json,
}

/// The answer to a logout whose token lacks a field.
pub open spec fn unserializable_text(style: ReplyStyle) -> Seq<char> {
    match style {
        ReplyStyle::Plain => "{logout: failed token unable to be serialized}"@,
        ReplyStyle::Json => "{\"logout\": \"failed token unable to be serialized\"}"@,
    }
}

/// The answer to a logout that went through.
pub open spec fn logout_success_text(style: ReplyStyle) -> Seq<char> {
    match style {
        ReplyStyle::Plain => "{logout: success}"@,
        ReplyStyle::Json => "{\"logout\": \"success\"}"@,
    }
}

fn unserializable_reply(style: &ReplyStyle) -> (r: String)
    ensures
        r@ == unserializable_text(*style),
{
    match style {
        ReplyStyle::Plain => String::from_str("{logout: failed token unable to be serialized}"),
        ReplyStyle::Json => String::from_str(
            "{\"logout\": \"failed token unable to be serialized\"}",
        ),
    }
}

fn logout_success_reply(style: &ReplyStyle) -> (r: String)
    ensures
        r@ == logout_success_text(*style),
{
    match style {
        ReplyStyle::Plain => String::from_str("{logout: success}"),
        ReplyStyle::Json => String::from_str("{\"logout\": \"success\"}"),
    }
}

/// What an authenticated connection does after a request.
pub enum ClientAction {
    /// Send the text, if any, and wait for the next request.
    KeepReading(Option<String>),
    /// Send the text, then a close frame, then read until the peer closes.
    Close(String),
    /// The token's expiry could not be read: the session's task ends.
    Abort,
}

/// Handles one request on an authenticated connection.
///
/// A logout whose token lacks a field is answered with the "unable to be serialized" text of
/// `style`; otherwise the token is logged out, which always reports that it was not found,
/// and the connection is closed after the "success" text of `style`. Every other request is
/// ignored.
pub fn handle_client_request(
    auth: &mut Authenticate,
    request: &ClientRequest,
    style: &ReplyStyle,
) -> (r: ClientAction)
    requires
        old(auth).wf(),
    ensures
        final(auth).wf(),
        request is Other ==> (r matches ClientAction::KeepReading(m) && m is None),
        request is Other ==> final(auth)@ == old(auth)@,
        match request {
            ClientRequest::Logout(f) => {
                if !fields_complete(*f) {
                    &&& r matches ClientAction::KeepReading(m) && m matches Some(t) && t@
                        == unserializable_text(*style)
                    &&& final(auth)@ == old(auth)@
                } else if !expiry_readable(*f) {
                    r is Abort && final(auth)@ == old(auth)@
                } else {
                    &&& r matches ClientAction::Close(m) && m@ == logout_success_text(*style)
                    &&& logged_out(old(auth)@, final(auth)@, token_from_fields(*f))
                }
            },
            ClientRequest::Other => true,
        },
{
    match request {
        ClientRequest::Other => ClientAction::KeepReading(None),
        ClientRequest::Logout(fields) => match try_serialize_to_token(fields) {
            None => ClientAction::Abort,
            Some(None) => ClientAction::KeepReading(Some(unserializable_reply(style))),
            Some(Some(t)) => {
                if auth.logout_user(t).is_err() {
                    ClientAction::Close(logout_success_reply(style))
                } else {
                    ClientAction::KeepReading(Some(String::from_str("{logout: failed}")))
                }
            },
        },
    }
}

} // verus!
