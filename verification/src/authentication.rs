//! The account database and the table of live session tokens.
use vstd::prelude::*;

use crate::clock::{add_one_day, utc_now, Timestamp, SECONDS_PER_DAY};
use crate::token::{
    charset_at, charset_char, generate_rand, is_token_char, Token, TokenView, CHARSET_LEN,
    TOKENLENGTH,
};
use crate::user::{token_views, without_tokens, User, UserView};

verus! {

/// No two tokens of `s` share an identifier.
pub open spec fn unique_token_ids(s: Seq<TokenView>) -> bool {
    forall|i: int, j: int|
        0 <= i < s.len() && 0 <= j < s.len() && i != j ==> #[trigger] s[i].token_id
            != #[trigger] s[j].token_id
}

/// Some token of `s` has the identifier `id`.
pub open spec fn lists_id(s: Seq<TokenView>, id: Seq<char>) -> bool {
    exists|i: int| 0 <= i < s.len() && (#[trigger] s[i]).token_id == id
}

/// The session table that a list of tokens stands for: each identifier maps to the token
/// that carries it.
pub open spec fn session_map(s: Seq<TokenView>) -> Map<Seq<char>, TokenView> {
    Map::new(
        |id: Seq<char>| lists_id(s, id),
        |id: Seq<char>| s[choose|i: int| 0 <= i < s.len() && (#[trigger] s[i]).token_id == id],
    )
}

/// The entries of `m` whose token `keep` accepts.
pub open spec fn keep_sessions(
    m: Map<Seq<char>, TokenView>,
    keep: spec_fn(TokenView) -> bool,
) -> Map<Seq<char>, TokenView> {
    Map::new(|id: Seq<char>| m.contains_key(id) && keep(m[id]), |id: Seq<char>| m[id])
}

/// `id` is a well-formed identifier, starting with `prefix`, that no session in `sessions`
/// uses.
pub open spec fn fresh_extension(
    sessions: Map<Seq<char>, TokenView>,
    prefix: Seq<char>,
    id: Seq<char>,
) -> bool {
    &&& well_formed_id(id)
    &&& !sessions.contains_key(id)
    &&& prefix.len() <= id.len()
    &&& id.take(prefix.len() as int) == prefix
}

/// Some well-formed identifier starting with `prefix` is not used by any session.
pub open spec fn has_fresh_extension(sessions: Map<Seq<char>, TokenView>, prefix: Seq<char>) -> bool {
    exists|id: Seq<char>| #[trigger] fresh_extension(sessions, prefix, id)
}

/// Every character of the identifier alphabet has a position in it.
proof fn lemma_charset_index(c: char) -> (j: int)
    requires
        is_token_char(c),
    ensures
        0 <= j < CHARSET_LEN,
        charset_char(j) == c,
{
    if 'A' <= c <= 'Z' {
        (c as int) - 65
    } else if 'a' <= c <= 'z' {
        (c as int) - 97 + 26
    } else {
        (c as int) - 48 + 52
    }
}

/// Some account is registered under `email`.
pub open spec fn email_taken(users: Seq<UserView>, email: Seq<char>) -> bool {
    exists|i: int| 0 <= i < users.len() && (#[trigger] users[i]).email == email
}

/// Some account has exactly this e-mail address and password.
pub open spec fn has_login(users: Seq<UserView>, email: Seq<char>, password: Seq<char>) -> bool {
    exists|i: int|
        0 <= i < users.len() && (#[trigger] users[i]).email == email && users[i].password
            == password
}

/// Some account holds a token with the contents `t`.
pub open spec fn holds_token(users: Seq<UserView>, t: TokenView) -> bool {
    exists|i: int| 0 <= i < users.len() && (#[trigger] users[i]).active_tokens.contains(t)
}

/// Every account with only the tokens that `keep` accepts.
pub open spec fn strip_tokens(users: Seq<UserView>, keep: spec_fn(TokenView) -> bool) -> Seq<
    UserView,
> {
    users.map_values(
        |u: UserView| UserView { active_tokens: u.active_tokens.filter(keep), ..u },
    )
}

/// `t` is the live session token stored under its identifier in `sessions` and expires
/// strictly before `now`.
pub open spec fn expired_session(
    sessions: Map<Seq<char>, TokenView>,
    now: Timestamp,
    t: TokenView,
) -> bool {
    sessions.contains_key(t.token_id) && sessions[t.token_id] == t && t.expire_date.before(now)
}

/// `id` is a well-formed token identifier: `TOKENLENGTH` characters of the identifier
/// alphabet.
pub open spec fn well_formed_id(id: Seq<char>) -> bool {
    id.len() == TOKENLENGTH && forall|i: int| 0 <= i < id.len() ==> is_token_char(#[trigger] id[i])
}

/// `t` was issued to the account `email`: its identifier was not in use, and the session table
/// gained it.
pub open spec fn token_issued(
    before: Map<Seq<char>, TokenView>,
    after: Map<Seq<char>, TokenView>,
    t: TokenView,
    email: Seq<char>,
) -> bool {
    &&& t.user == email
    &&& !before.contains_key(t.token_id)
    &&& after == before.insert(t.token_id, t)
}

/// `t` expires exactly one day (86400 seconds) after the instant `now`.
pub open spec fn expires_a_day_after(t: TokenView, now: Timestamp) -> bool {
    t.expire_date.secs == now.secs + SECONDS_PER_DAY && t.expire_date.nanos == now.nanos
}

/// `t` carries a randomly drawn identifier and expires one day after an instant the clock
/// reported (`Utc::now` never reports a negative second or a second's part of a second or
/// more).
pub open spec fn drawn_token(t: TokenView) -> bool {
    &&& well_formed_id(t.token_id)
    &&& exists|now: Timestamp|
        now.secs >= 0 && now.nanos < 1_000_000_000 && #[trigger] expires_a_day_after(t, now)
}

/// A registration of (`name`, `password`, `email`) succeeded with token `t`: the account was
/// appended holding `t` alone, and `t` was issued to it.
pub open spec fn registered(
    before: AuthView,
    after: AuthView,
    name: Seq<char>,
    password: Seq<char>,
    email: Seq<char>,
    t: TokenView,
) -> bool {
    &&& token_issued(before.sessions, after.sessions, t, email)
    &&& after.users == before.users.push(
        UserView { email, password, name, active_tokens: seq![t] },
    )
    &&& after.total_logins == before.total_logins
    &&& after.server_username == before.server_username
}

/// A login as `email` succeeded with token `t`: only the session table changed.
pub open spec fn logged_in(before: AuthView, after: AuthView, email: Seq<char>, t: TokenView) -> bool {
    &&& token_issued(before.sessions, after.sessions, t, email)
    &&& after.users == before.users
    &&& after.total_logins == before.total_logins
    &&& after.server_username == before.server_username
}

/// Accepts every token other than `t`.
pub open spec fn other_than(t: TokenView) -> spec_fn(TokenView) -> bool {
    |x: TokenView| x != t
}

/// Accepts every token that is not an expired session of `sessions` at `now`.
pub open spec fn not_expired_session(
    sessions: Map<Seq<char>, TokenView>,
    now: Timestamp,
) -> spec_fn(TokenView) -> bool {
    |t: TokenView| !expired_session(sessions, now, t)
}

/// Accepts every token that does not expire strictly before `now`.
pub open spec fn valid_at(now: Timestamp) -> spec_fn(TokenView) -> bool {
    |t: TokenView| !t.expire_date.before(now)
}

/// The state after logging out `t`: no account keeps a copy of `t`, and the session under
/// `t`'s identifier is gone if some account held `t`.
pub open spec fn logged_out(before: AuthView, after: AuthView, t: TokenView) -> bool {
    &&& after.users == strip_tokens(before.users, other_than(t))
    &&& after.sessions == if holds_token(before.users, t) {
        before.sessions.remove(t.token_id)
    } else {
        before.sessions
    }
    &&& after.total_logins == before.total_logins
    &&& after.server_username == before.server_username
}

/// The state after clearing the sessions that expire strictly before `now`: those sessions
/// are gone, and no account keeps a copy of their tokens.
pub open spec fn expired_cleared(before: AuthView, after: AuthView, now: Timestamp) -> bool {
    &&& after.sessions == keep_sessions(before.sessions, valid_at(now))
    &&& after.users == strip_tokens(before.users, not_expired_session(before.sessions, now))
    &&& after.total_logins == before.total_logins
    &&& after.server_username == before.server_username
}

proof fn lemma_session_keys(s: Seq<TokenView>)
    ensures
        forall|id: Seq<char>| #[trigger]
            session_map(s).contains_key(id) ==> session_map(s)[id].token_id == id,
{
    assert forall|id: Seq<char>| #[trigger] session_map(s).contains_key(id) implies session_map(
        s,
    )[id].token_id == id by {
        let i = choose|i: int| 0 <= i < s.len() && (#[trigger] s[i]).token_id == id;
    }
}

proof fn lemma_session_map_at(s: Seq<TokenView>, i: int)
    requires
        unique_token_ids(s),
        0 <= i < s.len(),
    ensures
        session_map(s).contains_key(s[i].token_id),
        session_map(s)[s[i].token_id] == s[i],
{
    let id = s[i].token_id;
    assert(lists_id(s, id));
    let j = choose|j: int| 0 <= j < s.len() && (#[trigger] s[j]).token_id == id;
    if j != i {
        assert(s[i].token_id != s[j].token_id);
    }
}

proof fn lemma_session_map_push(s: Seq<TokenView>, x: TokenView)
    requires
        unique_token_ids(s),
        !lists_id(s, x.token_id),
    ensures
        unique_token_ids(s.push(x)),
        session_map(s.push(x)) == session_map(s).insert(x.token_id, x),
{
    let t = s.push(x);
    assert forall|i: int, j: int|
        0 <= i < t.len() && 0 <= j < t.len() && i != j implies #[trigger] t[i].token_id
        != #[trigger] t[j].token_id by {
        if i == s.len() {
            assert(t[j] == s[j]);
        } else if j == s.len() {
            assert(t[i] == s[i]);
        } else {
            assert(t[i] == s[i] && t[j] == s[j]);
        }
    }
    assert forall|id: Seq<char>| #[trigger] lists_id(t, id) <==> (lists_id(s, id) || id
        == x.token_id) by {
        if lists_id(s, id) {
            let i = choose|i: int| 0 <= i < s.len() && (#[trigger] s[i]).token_id == id;
            assert(t[i] == s[i]);
        }
        if id == x.token_id {
            assert(t[s.len() as int] == x);
        }
        if lists_id(t, id) {
            let i = choose|i: int| 0 <= i < t.len() && (#[trigger] t[i]).token_id == id;
            if i < s.len() {
                assert(t[i] == s[i]);
            }
        }
    }
    assert forall|id: Seq<char>| #[trigger] session_map(t).contains_key(id) implies session_map(
        t,
    )[id] == session_map(s).insert(x.token_id, x)[id] by {
        let i = choose|i: int| 0 <= i < t.len() && (#[trigger] t[i]).token_id == id;
        lemma_session_map_at(t, i);
        if i < s.len() {
            assert(t[i] == s[i]);
            lemma_session_map_at(s, i);
        }
    }
    assert(session_map(t) =~= session_map(s).insert(x.token_id, x));
}

/// `text` holds no line break.
pub open spec fn single_line(text: Seq<char>) -> bool {
    forall|i: int| 0 <= i < text.len() ==> text[i] != '\n'
}

/// `text` with its line breaks removed.
pub open spec fn without_newlines(text: Seq<char>) -> Seq<char> {
    text.filter(|c: char| c != '\n')
}

/// Splits the credentials file: its first line is the mail account's user name, and the
/// remaining lines, joined without line breaks, are its password.
pub fn parse_credentials(text: &str) -> (r: (String, String))
    ensures
        single_line(text@) ==> r.0@ == text@ && r.1@ == Seq::<char>::empty(),
        forall|k: int|
            0 <= k < text@.len() && text@[k] == '\n' && single_line(#[trigger] text@.take(k))
                ==> r.0@ == text@.take(k) && r.1@ == without_newlines(text@.skip(k + 1)),
{
    let chars = crate::text::chars_of(text);
    let mut username = String::new();
    let mut password = String::new();
    let mut first_break: Option<usize> = None;
    let mut i: usize = 0;
    while i < chars.len()
        invariant
            i <= chars.len(),
            chars@ == text@,
            match first_break {
                None => single_line(text@.take(i as int)) && username@ == text@.take(i as int)
                    && password@ == Seq::<char>::empty(),
                Some(k) => k < i && text@[k as int] == '\n' && single_line(text@.take(k as int))
                    && username@ == text@.take(k as int) && password@ == without_newlines(
                    text@.subrange(k + 1, i as int),
                ),
            },
        decreases chars.len() - i,
    {
        let c = chars[i];
        reveal_with_fuel(Seq::filter, 1);
        match first_break {
            None => {
                if c == '\n' {
                    first_break = Some(i);
                    assert(text@.subrange(i + 1, i + 1) =~= Seq::<char>::empty());
                } else {
                    crate::text::string_push(&mut username, c);
                    assert(text@.take(i + 1) =~= text@.take(i as int).push(c));
                }
            },
            Some(k) => {
                let ghost before = text@.subrange(k + 1, i as int);
                assert(text@.subrange(k + 1, i + 1) =~= before.push(c));
                assert(text@.subrange(k + 1, i + 1).drop_last() =~= before);
                if c != '\n' {
                    crate::text::string_push(&mut password, c);
                }
            },
        }
        i = i + 1;
    }
    proof {
        assert(text@.take(i as int) =~= text@);
        match first_break {
            Some(k) => {
                assert(text@.subrange(k + 1, i as int) =~= text@.skip(k + 1));
                assert forall|k2: int|
                    0 <= k2 < text@.len() && text@[k2] == '\n' && single_line(
                        #[trigger] text@.take(k2),
                    ) implies k2 == k by {
                    if k2 < k {
                        assert(text@.take(k as int)[k2] == '\n');
                    } else if k2 > k {
                        assert(text@.take(k2)[k as int] == '\n');
                    }
                }
            },
            None => {
                assert forall|k2: int|
                    0 <= k2 < text@.len() && text@[k2] == '\n' implies false by {
                    assert(text@.take(i as int)[k2] == '\n');
                }
            },
        }
    }
    (username, password)
}

/// Identifies which sessions a pass over the table removes.
pub enum SessionFilter {
    /// Sessions whose token expires strictly before the instant.
    ExpiredBefore(Timestamp),
    /// The session with this identifier.
    WithId(String),
}

impl SessionFilter {
    /// The filter removes the session holding `t`.
    pub open spec fn drops(&self, t: TokenView) -> bool {
        match self {
            SessionFilter::ExpiredBefore(now) => t.expire_date.before(*now),
            SessionFilter::WithId(id) => t.token_id == id@,
        }
    }

    fn drops_exec(&self, t: &Token) -> (r: bool)
        ensures
            r == self.drops(t@),
    {
        match self {
            SessionFilter::ExpiredBefore(now) => t.get_expire().is_before(now),
            SessionFilter::WithId(id) => t.get_id() == *id,
        }
    }
}

/// Why a registration was refused.
pub enum RegisterError {
    /// The password is shorter than ten bytes, or lacks a digit or an ASCII capital.
    WeakPassword,
    /// The e-mail address (carried) is not a valid address.
    InvalidEmail(String),
    /// An account already uses the e-mail address (carried).
    EmailTaken(String),
    /// No token could be issued: the clock lies outside the range of `chrono`, or no fresh
    /// identifier turned up.
    TokenUnavailable,
}

impl RegisterError {
    /// The error text the service reports.
    pub fn message(&self) -> (r: String)
        ensures
            match self {
                RegisterError::WeakPassword => r@ == "password does not satisfy"@,
                RegisterError::InvalidEmail(e) => r@ == e@ + " does not satisfy being an email."@,
                RegisterError::EmailTaken(e) => r@ == e@ + " is already used"@,
                RegisterError::TokenUnavailable => r@ == "no token could be issued"@,
            },
    {
        match self {
            RegisterError::WeakPassword => String::from_str("password does not satisfy"),
            RegisterError::InvalidEmail(e) => {
                let mut r = e.clone();
                r.append(" does not satisfy being an email.");
                r
            },
            RegisterError::EmailTaken(e) => {
                let mut r = e.clone();
                r.append(" is already used");
                r
            },
            RegisterError::TokenUnavailable => String::from_str("no token could be issued"),
        }
    }

    /// What the client is sent about the refusal, if anything: only a taken e-mail address is
    /// reported on the connection.
    pub fn reply(&self) -> (r: Option<String>)
        ensures
            match self {
                RegisterError::EmailTaken(_) => r matches Some(m) && m@
                    == "{\"register\":\"failed, email is already used\"}"@,
                _ => r is None,
            },
    {
        match self {
            RegisterError::EmailTaken(_) => Some(
                String::from_str("{\"register\":\"failed, email is already used\"}"),
            ),
            _ => None,
        }
    }
}

/// Why a login was refused.
pub enum LoginError {
    /// No account has this e-mail address and password.
    AuthenticationFailed,
    /// No token could be issued: the clock lies outside the range of `chrono`, or no fresh
    /// identifier turned up.
    TokenUnavailable,
}

impl LoginError {
    /// The error text the service reports.
    pub fn message(&self) -> (r: String)
        ensures
            match self {
                LoginError::AuthenticationFailed => r@ == "authentication failed"@,
                LoginError::TokenUnavailable => r@ == "no token could be issued"@,
            },
    {
        match self {
            LoginError::AuthenticationFailed => String::from_str("authentication failed"),
            LoginError::TokenUnavailable => String::from_str("no token could be issued"),
        }
    }
}

/// The answer a logout gives.
pub enum LogoutError {
    TokenNotFound,
}

impl LogoutError {
    /// The error text the service reports.
    pub fn message(&self) -> (r: String)
        ensures
            r@ == "token not found"@,
    {
        String::from_str("token not found")
    }
}

/// The authentication service: registered accounts and the live session tokens.
pub struct Authenticate {
    total_logins: i32,
    user_data_base: Vec<User>,
    session_tokens: Vec<Token>,
    server_username: String,
}

/// The contents of an `Authenticate`.
pub struct AuthView {
    pub total_logins: i32,
    pub users: Seq<UserView>,
    pub sessions: Map<Seq<char>, TokenView>,
    pub server_username: Seq<char>,
}

/// The views of a sequence of accounts.
pub open spec fn user_views(users: Seq<User>) -> Seq<UserView> {
    users.map_values(|u: User| u@)
}

impl View for Authenticate {
    type V = AuthView;

    closed spec fn view(&self) -> AuthView {
        AuthView {
            total_logins: self.total_logins,
            users: user_views(self.user_data_base@),
            sessions: session_map(token_views(self.session_tokens@)),
            server_username: self.server_username@,
        }
    }
}

impl Authenticate {
    /// The table of sessions never lists one identifier twice.
    pub closed spec fn wf(&self) -> bool {
        unique_token_ids(token_views(self.session_tokens@))
    }

    /// A service with no accounts and no sessions, signing mail as `server_username`.
    pub fn new(server_username: String) -> (a: Self)
        ensures
            a.wf(),
            a@.total_logins == 0,
            a@.users == Seq::<UserView>::empty(),
            a@.sessions == Map::<Seq<char>, TokenView>::empty(),
            a@.server_username == server_username@,
    {
        let a = Authenticate {
            total_logins: 0,
            user_data_base: Vec::new(),
            session_tokens: Vec::new(),
            server_username,
        };
        assert(user_views(a.user_data_base@) =~= Seq::<UserView>::empty());
        assert(session_map(token_views(a.session_tokens@)) =~= Map::<
            Seq<char>,
            TokenView,
        >::empty());
        a
    }

    /// The registered accounts, in the order they registered.
    pub fn users(&self) -> (r: &Vec<User>)
        ensures
            user_views(r@) == self@.users,
    {
        &self.user_data_base
    }

    /// Whether a live session has the identifier `id`.
    pub fn has_session(&self, id: &String) -> (r: bool)
        requires
            self.wf(),
        ensures
            r == self@.sessions.contains_key(id@),
    {
        let ghost s = token_views(self.session_tokens@);
        let mut i: usize = 0;
        while i < self.session_tokens.len()
            invariant
                i <= self.session_tokens.len(),
                s == token_views(self.session_tokens@),
                forall|k: int| 0 <= k < i ==> s[k].token_id != id@,
            decreases self.session_tokens.len() - i,
        {
            if self.session_tokens[i].get_id() == *id {
                assert(s[i as int].token_id == id@);
                assert(lists_id(s, id@));
                return true;
            }
            i = i + 1;
        }
        assert(!lists_id(s, id@));
        false
    }

    /// Records a token for `user` with the identifier `token_id`, which no live session uses,
    /// expiring at `expire_date`: the token goes to the end of the account's tokens and into
    /// the session table.
    pub fn issue_token(&mut self, user: &mut User, token_id: String, expire_date: Timestamp) -> (t:
        Token)
        requires
            old(self).wf(),
            !old(self)@.sessions.contains_key(token_id@),
        ensures
            final(self).wf(),
            t@ == (TokenView { user: old(user)@.email, token_id: token_id@, expire_date }),
            final(self)@ == (AuthView {
                sessions: old(self)@.sessions.insert(token_id@, t@),
                ..old(self)@
            }),
            final(user)@ == (UserView {
                active_tokens: old(user)@.active_tokens.push(t@),
                ..old(user)@
            }),
    {
        let t = Token::new(user.get_user_id(), token_id, expire_date);
        user.add_token(t.duplicate());
        let ghost before = self.session_tokens@;
        let copy = t.duplicate();
        self.session_tokens.push(copy);
        proof {
            assert(token_views(self.session_tokens@) =~= token_views(before).push(t@));
            lemma_session_map_push(token_views(before), t@);
        }
        t
    }

    /// Removes from the session table every session that `filter` drops and returns the
    /// removed tokens.
    pub fn drop_sessions(&mut self, filter: &SessionFilter) -> (dropped: Vec<Token>)
        requires
            old(self).wf(),
        ensures
            final(self).wf(),
            final(self)@ == (AuthView {
                sessions: keep_sessions(old(self)@.sessions, |t: TokenView| !filter.drops(t)),
                ..old(self)@
            }),
            forall|t: TokenView|
                token_views(dropped@).contains(t) <==> (old(self)@.sessions.contains_key(
                    t.token_id,
                ) && old(self)@.sessions[t.token_id] == t && filter.drops(t)),
    {
        let ghost s = token_views(self.session_tokens@);
        let ghost keep = |t: TokenView| !filter.drops(t);
        let mut kept: Vec<Token> = Vec::new();
        let mut dropped: Vec<Token> = Vec::new();
        let mut i: usize = 0;
        while i < self.session_tokens.len()
            invariant
                i <= self.session_tokens.len(),
                s == token_views(self.session_tokens@),
                unique_token_ids(s),
                keep == (|t: TokenView| !filter.drops(t)),
                unique_token_ids(token_views(kept@)),
                forall|id: Seq<char>|
                    #[trigger] lists_id(token_views(kept@), id) ==> lists_id(s.take(i as int), id),
                session_map(token_views(kept@)) == keep_sessions(
                    session_map(s.take(i as int)),
                    keep,
                ),
                forall|t: TokenView|
                    #[trigger] token_views(dropped@).contains(t) <==> (session_map(
                        s.take(i as int),
                    ).contains_key(t.token_id) && session_map(s.take(i as int))[t.token_id] == t
                        && filter.drops(t)),
            decreases self.session_tokens.len() - i,
        {
            let ghost p = s.take(i as int);
            let ghost x = s[i as int];
            proof {
                assert(s.take(i + 1) =~= p.push(x));
                assert(unique_token_ids(p)) by {
                    assert forall|a: int, b: int|
                        0 <= a < p.len() && 0 <= b < p.len() && a != b implies #[trigger] p[a].token_id
                        != #[trigger] p[b].token_id by {
                        assert(p[a] == s[a] && p[b] == s[b]);
                    }
                }
                assert(!lists_id(p, x.token_id)) by {
                    if lists_id(p, x.token_id) {
                        let a = choose|a: int| 0 <= a < p.len() && (#[trigger] p[a]).token_id == x.token_id;
                        assert(p[a] == s[a]);
                        assert(s[a].token_id != s[i as int].token_id);
                    }
                }
                lemma_session_map_push(p, x);
            }
            let tok = self.session_tokens[i].duplicate();
            assert(tok@ == x);
            let d = filter.drops_exec(&tok);
            let ghost kept_before = token_views(kept@);
            let ghost dropped_before = token_views(dropped@);
            if d {
                dropped.push(tok);
                proof {
                    assert(token_views(dropped@) =~= dropped_before.push(x));
                    assert forall|t: TokenView|
                        #[trigger] token_views(dropped@).contains(t) <==> (session_map(
                            s.take(i + 1),
                        ).contains_key(t.token_id) && session_map(s.take(i + 1))[t.token_id] == t
                            && filter.drops(t)) by {
                        if token_views(dropped@).contains(t) && t != x {
                            let a = choose|a: int|
                                0 <= a < token_views(dropped@).len()
                                    && token_views(dropped@)[a] == t;
                            assert(dropped_before[a] == t);
                            assert(dropped_before.contains(t));
                        }
                        if t == x {
                            assert(token_views(dropped@)[dropped_before.len() as int] == x);
                        }
                        if dropped_before.contains(t) {
                            let a = choose|a: int|
                                0 <= a < dropped_before.len() && dropped_before[a] == t;
                            assert(token_views(dropped@)[a] == t);
                        }
                    }
                    assert(keep_sessions(session_map(s.take(i + 1)), keep) =~= keep_sessions(
                        session_map(p),
                        keep,
                    ));
                }
            } else {
                kept.push(tok);
                proof {
                    assert(token_views(kept@) =~= kept_before.push(x));
                    assert(!lists_id(kept_before, x.token_id));
                    lemma_session_map_push(kept_before, x);
                    assert forall|id: Seq<char>|
                        #[trigger] lists_id(token_views(kept@), id) implies lists_id(
                        s.take(i + 1),
                        id,
                    ) by {
                        let a = choose|a: int|
                            0 <= a < token_views(kept@).len() && (#[trigger] token_views(
                                kept@,
                            )[a]).token_id == id;
                        if a < kept_before.len() {
                            assert(kept_before[a] == token_views(kept@)[a]);
                            assert(lists_id(kept_before, id));
                            let b = choose|b: int| 0 <= b < p.len() && (#[trigger] p[b]).token_id == id;
                            assert(s.take(i + 1)[b] == p[b]);
                        } else {
                            assert(s.take(i + 1)[i as int] == x);
                        }
                    }
                    assert(keep_sessions(session_map(s.take(i + 1)), keep) =~= keep_sessions(
                        session_map(p),
                        keep,
                    ).insert(x.token_id, x));
                    assert forall|t: TokenView|
                        #[trigger] token_views(dropped@).contains(t) <==> (session_map(
                            s.take(i + 1),
                        ).contains_key(t.token_id) && session_map(s.take(i + 1))[t.token_id] == t
                            && filter.drops(t)) by {
                        if t.token_id == x.token_id && token_views(dropped@).contains(t) {
                            assert(session_map(p).contains_key(t.token_id));
                        }
                    }
                }
            }
            i = i + 1;
        }
        proof {
            assert(s.take(i as int) =~= s);
        }
        self.session_tokens = kept;
        dropped
    }

    /// Whether an account is registered under `email`.
    pub fn email_registered(&self, email: &String) -> (r: bool)
        ensures
            r == email_taken(self@.users, email@),
    {
        let ghost us = user_views(self.user_data_base@);
        let mut i: usize = 0;
        while i < self.user_data_base.len()
            invariant
                i <= self.user_data_base.len(),
                us == user_views(self.user_data_base@),
                forall|k: int| 0 <= k < i ==> us[k].email != email@,
            decreases self.user_data_base.len() - i,
        {
            if self.user_data_base[i].get_user_id() == *email {
                assert(us[i as int].email == email@);
                return true;
            }
            i = i + 1;
        }
        false
    }

    /// Draws random identifiers until one is not in use by a live session. Should
    /// `u64::MAX` draws all collide, the identifiers are searched in alphabet order instead, so
    /// `None` comes only when every well-formed identifier is in use.
    fn fresh_token_id(&self) -> (r: Option<String>)
        requires
            self.wf(),
        ensures
            r matches Some(id) ==> !self@.sessions.contains_key(id@) && well_formed_id(id@),
            has_fresh_extension(self@.sessions, Seq::<char>::empty()) ==> r is Some,
    {
        let mut found: Option<String> = None;
        let mut attempts: u64 = 0;
        while found.is_none() && attempts < u64::MAX
            invariant
                self.wf(),
                found matches Some(id) ==> !self@.sessions.contains_key(id@) && well_formed_id(id@),
            decreases u64::MAX - attempts,
        {
            let candidate = generate_rand();
            if !self.has_session(&candidate) {
                found = Some(candidate);
            }
            attempts = attempts + 1;
        }
        if found.is_none() {
            found = self.search_fresh_id(String::new(), 0);
        }
        found
    }

    /// Searches, in alphabet order, the well-formed identifiers that start with `prefix` (of
    /// `depth` characters) for one no live session uses.
    fn search_fresh_id(&self, prefix: String, depth: usize) -> (r: Option<String>)
        requires
            self.wf(),
            depth == prefix@.len() <= TOKENLENGTH,
            forall|i: int| 0 <= i < prefix@.len() ==> is_token_char(#[trigger] prefix@[i]),
        ensures
            r matches Some(id) ==> !self@.sessions.contains_key(id@) && well_formed_id(id@),
            has_fresh_extension(self@.sessions, prefix@) ==> r is Some,
        decreases TOKENLENGTH - depth,
    {
        if depth == TOKENLENGTH {
            proof {
                assert forall|id: Seq<char>| #[trigger]
                    fresh_extension(self@.sessions, prefix@, id) implies id == prefix@ by {
                    assert(id =~= id.take(depth as int));
                }
            }
            if self.has_session(&prefix) {
                None
            } else {
                Some(prefix)
            }
        } else {
            let mut i: usize = 0;
            while i < CHARSET_LEN
                invariant
                    self.wf(),
                    i <= CHARSET_LEN,
                    depth == prefix@.len() < TOKENLENGTH,
                    forall|k: int| 0 <= k < prefix@.len() ==> is_token_char(#[trigger] prefix@[k]),
                    forall|j: int|
                        0 <= j < i ==> !#[trigger] has_fresh_extension(
                            self@.sessions,
                            prefix@.push(charset_char(j)),
                        ),
                decreases CHARSET_LEN - i,
            {
                let c = charset_at(i);
                let mut next = prefix.clone();
                crate::text::string_push(&mut next, c);
                proof {
                    assert forall|k: int| 0 <= k < next@.len() implies is_token_char(
                        #[trigger] next@[k],
                    ) by {
                        if k < prefix@.len() {
                            assert(next@[k] == prefix@[k]);
                        }
                    }
                }
                let r = self.search_fresh_id(next, depth + 1);
                if r.is_some() {
                    return r;
                }
                i = i + 1;
            }
            proof {
                if has_fresh_extension(self@.sessions, prefix@) {
                    let id = choose|id: Seq<char>| #[trigger]
                        fresh_extension(self@.sessions, prefix@, id);
                    let c = id[depth as int];
                    assert(is_token_char(c));
                    let j = lemma_charset_index(c);
                    assert(id.take(depth + 1) =~= prefix@.push(charset_char(j)));
                    assert(fresh_extension(self@.sessions, prefix@.push(charset_char(j)), id));
                    assert(!has_fresh_extension(self@.sessions, prefix@.push(charset_char(j))));
                }
            }
            None
        }
    }

    /// The index of the last account registered with exactly these credentials.
    fn find_login(&self, email: &String, password: &String) -> (r: Option<usize>)
        ensures
            match r {
                Some(k) => k < self@.users.len() && self@.users[k as int].email == email@
                    && self@.users[k as int].password == password@,
                None => !has_login(self@.users, email@, password@),
            },
    {
        let ghost us = user_views(self.user_data_base@);
        let mut found: Option<usize> = None;
        let mut i: usize = 0;
        while i < self.user_data_base.len()
            invariant
                i <= self.user_data_base.len(),
                us == user_views(self.user_data_base@),
                us == self@.users,
                found matches Some(k) ==> k < i && us[k as int].email == email@ && us[k as int].password
                    == password@,
                found is None ==> forall|k: int|
                    0 <= k < i ==> !(us[k].email == email@ && us[k].password == password@),
            decreases self.user_data_base.len() - i,
        {
            if self.user_data_base[i].get_user_id() == *email && self.user_data_base[i].get_pass_id()
                == *password {
                found = Some(i);
            }
            i = i + 1;
        }
        found
    }

    /// Registers an account for `email` with `password` and display name `full_name`, issuing
    /// it the token with identifier `token_id` (unused by any live session) that expires at
    /// `expire_date`.
    ///
    /// The checks run in this order: the password must be acceptable, the e-mail address
    /// valid, and no account may use the address yet; the first failing check is reported and
    /// nothing changes.
    pub fn register_user_with(
        &mut self,
        full_name: String,
        password: String,
        email: String,
        token_id: String,
        expire_date: Timestamp,
    ) -> (r: Result<Token, RegisterError>)
        requires
            old(self).wf(),
            !old(self)@.sessions.contains_key(token_id@),
        ensures
            final(self).wf(),
            !crate::checks::password_acceptable(password@) ==> (r matches Err(
                RegisterError::WeakPassword,
            ) && final(self)@ == old(self)@),
            crate::checks::password_acceptable(password@) && !crate::checks::email_accepted(
                email@,
            ) ==> (r matches Err(RegisterError::InvalidEmail(e)) && e@ == email@ && final(self)@
                == old(self)@),
            crate::checks::password_acceptable(password@) && crate::checks::email_accepted(email@)
                && email_taken(old(self)@.users, email@) ==> (r matches Err(
                RegisterError::EmailTaken(e),
            ) && e@ == email@ && final(self)@ == old(self)@),
            crate::checks::password_acceptable(password@) && crate::checks::email_accepted(email@)
                && !email_taken(old(self)@.users, email@) ==> (r matches Ok(t) && t@ == (TokenView {
                user: email@,
                token_id: token_id@,
                expire_date,
            }) && registered(old(self)@, final(self)@, full_name@, password@, email@, t@)),
    {
        if !crate::checks::password_satisfies(password.as_str()) {
            return Err(RegisterError::WeakPassword);
        }
        if !crate::checks::email_is_valid(email.as_str()) {
            return Err(RegisterError::InvalidEmail(email));
        }
        if self.email_registered(&email) {
            return Err(RegisterError::EmailTaken(email));
        }
        let ghost name_v = full_name@;
        let ghost pass_v = password@;
        let ghost email_v = email@;
        let mut new_user = User::new(email, full_name, password);
        let t = self.issue_token(&mut new_user, token_id, expire_date);
        let ghost before = self.user_data_base@;
        self.user_data_base.push(new_user);
        proof {
            assert(user_views(self.user_data_base@) =~= user_views(before).push(
                UserView { email: email_v, password: pass_v, name: name_v, active_tokens: seq![t@] },
            ));
        }
        Ok(t)
    }

    /// Registers an account for `email` with `password` and display name `full_name` and
    /// issues it a token valid for one day from the instant `now`, with a random identifier
    /// no live session uses.
    ///
    /// The checks and their order are those of `register_user_with`. When they pass, the
    /// registration succeeds whenever `now` lies well inside the range of `chrono` and some
    /// identifier is free; otherwise it may fail with `TokenUnavailable`, and then nothing
    /// changes.
    pub fn register_user_at(
        &mut self,
        full_name: String,
        password: String,
        email: String,
        now: Timestamp,
    ) -> (r: Result<Token, RegisterError>)
        requires
            old(self).wf(),
        ensures
            final(self).wf(),
            !crate::checks::password_acceptable(password@) ==> (r matches Err(
                RegisterError::WeakPassword,
            ) && final(self)@ == old(self)@),
            crate::checks::password_acceptable(password@) && !crate::checks::email_accepted(
                email@,
            ) ==> (r matches Err(RegisterError::InvalidEmail(e)) && e@ == email@ && final(self)@
                == old(self)@),
            crate::checks::password_acceptable(password@) && crate::checks::email_accepted(email@)
                && email_taken(old(self)@.users, email@) ==> (r matches Err(
                RegisterError::EmailTaken(e),
            ) && e@ == email@ && final(self)@ == old(self)@),
            crate::checks::password_acceptable(password@) && crate::checks::email_accepted(email@)
                && !email_taken(old(self)@.users, email@) ==> match r {
                Ok(t) => registered(old(self)@, final(self)@, full_name@, password@, email@, t@)
                    && well_formed_id(t@.token_id) && expires_a_day_after(t@, now),
                Err(e) => e is TokenUnavailable && final(self)@ == old(self)@ && (
                !now.well_inside_range() || !has_fresh_extension(
                    old(self)@.sessions,
                    Seq::<char>::empty(),
                )),
            },
            crate::checks::password_acceptable(password@) && crate::checks::email_accepted(email@)
                && !email_taken(old(self)@.users, email@) && !has_fresh_extension(
                old(self)@.sessions,
                Seq::<char>::empty(),
            ) ==> r matches Err(RegisterError::TokenUnavailable),
    {
        if !crate::checks::password_satisfies(password.as_str()) {
            return Err(RegisterError::WeakPassword);
        }
        if !crate::checks::email_is_valid(email.as_str()) {
            return Err(RegisterError::InvalidEmail(email));
        }
        if self.email_registered(&email) {
            return Err(RegisterError::EmailTaken(email));
        }
        let token_id = match self.fresh_token_id() {
            Some(id) => id,
            None => {
                return Err(RegisterError::TokenUnavailable);
            },
        };
        proof {
            assert(token_id@.take(0) =~= Seq::<char>::empty());
            assert(fresh_extension(self@.sessions, Seq::<char>::empty(), token_id@));
        }
        let expire_date = match add_one_day(now) {
            Some(e) => e,
            None => {
                return Err(RegisterError::TokenUnavailable);
            },
        };
        self.register_user_with(full_name, password, email, token_id, expire_date)
    }

    /// Registers an account for `email` with `password` and display name `full_name` and
    /// issues it a token valid for one day from the clock's current instant (see
    /// `register_user_at`).
    pub fn register_user(&mut self, full_name: String, password: String, email: String) -> (r:
        Result<Token, RegisterError>)
        requires
            old(self).wf(),
        ensures
            final(self).wf(),
            !crate::checks::password_acceptable(password@) ==> (r matches Err(
                RegisterError::WeakPassword,
            ) && final(self)@ == old(self)@),
            crate::checks::password_acceptable(password@) && !crate::checks::email_accepted(
                email@,
            ) ==> (r matches Err(RegisterError::InvalidEmail(e)) && e@ == email@ && final(self)@
                == old(self)@),
            crate::checks::password_acceptable(password@) && crate::checks::email_accepted(email@)
                && email_taken(old(self)@.users, email@) ==> (r matches Err(
                RegisterError::EmailTaken(e),
            ) && e@ == email@ && final(self)@ == old(self)@),
            crate::checks::password_acceptable(password@) && crate::checks::email_accepted(email@)
                && !email_taken(old(self)@.users, email@) ==> match r {
                Ok(t) => registered(old(self)@, final(self)@, full_name@, password@, email@, t@)
                    && drawn_token(t@),
                Err(e) => e is TokenUnavailable && final(self)@ == old(self)@,
            },
            crate::checks::password_acceptable(password@) && crate::checks::email_accepted(email@)
                && !email_taken(old(self)@.users, email@) && !has_fresh_extension(
                old(self)@.sessions,
                Seq::<char>::empty(),
            ) ==> r matches Err(RegisterError::TokenUnavailable),
    {
        let now = utc_now();
        let r = self.register_user_at(full_name, password, email, now);
        proof {
            if r is Ok {
                assert(expires_a_day_after(r->Ok_0@, now));
            }
        }
        r
    }

    /// Logs in with `email` and `password`, issuing the token with identifier `token_id`
    /// (unused by any live session) that expires at `expire_date`.
    ///
    /// The token is recorded in the session table only: it is issued to a copy of the
    /// matching account (the last one registered with these credentials), so the stored
    /// account's own token list does not change.
    pub fn login_user_with(
        &mut self,
        email: String,
        password: String,
        token_id: String,
        expire_date: Timestamp,
    ) -> (r: Result<Token, LoginError>)
        requires
            old(self).wf(),
            !old(self)@.sessions.contains_key(token_id@),
        ensures
            final(self).wf(),
            !has_login(old(self)@.users, email@, password@) ==> (r matches Err(
                LoginError::AuthenticationFailed,
            ) && final(self)@ == old(self)@),
            has_login(old(self)@.users, email@, password@) ==> (r matches Ok(t) && t@ == (
            TokenView { user: email@, token_id: token_id@, expire_date }) && logged_in(
                old(self)@,
                final(self)@,
                email@,
                t@,
            )),
    {
        match self.find_login(&email, &password) {
            None => Err(LoginError::AuthenticationFailed),
            Some(k) => {
                let mut copy = self.user_data_base[k].duplicate();
                let t = self.issue_token(&mut copy, token_id, expire_date);
                Ok(t)
            },
        }
    }

    /// Logs in with `email` and `password` and issues a token valid for one day from the
    /// instant `now`, with a random identifier no live session uses (see `login_user_with`).
    /// When the credentials match, the login succeeds whenever `now` lies well inside the
    /// range of `chrono` and some identifier is free; otherwise it may fail with
    /// `TokenUnavailable`, and then nothing changes.
    pub fn login_user_at(&mut self, email: String, password: String, now: Timestamp) -> (r: Result<
        Token,
        LoginError,
    >)
        requires
            old(self).wf(),
        ensures
            final(self).wf(),
            !has_login(old(self)@.users, email@, password@) ==> (r matches Err(
                LoginError::AuthenticationFailed,
            ) && final(self)@ == old(self)@),
            has_login(old(self)@.users, email@, password@) ==> match r {
                Ok(t) => logged_in(old(self)@, final(self)@, email@, t@) && well_formed_id(
                    t@.token_id,
                ) && expires_a_day_after(t@, now),
                Err(e) => e is TokenUnavailable && final(self)@ == old(self)@ && (
                !now.well_inside_range() || !has_fresh_extension(
                    old(self)@.sessions,
                    Seq::<char>::empty(),
                )),
            },
            has_login(old(self)@.users, email@, password@) && !has_fresh_extension(
                old(self)@.sessions,
                Seq::<char>::empty(),
            ) ==> r matches Err(LoginError::TokenUnavailable),
    {
        if self.find_login(&email, &password).is_none() {
            return Err(LoginError::AuthenticationFailed);
        }
        let token_id = match self.fresh_token_id() {
            Some(id) => id,
            None => {
                return Err(LoginError::TokenUnavailable);
            },
        };
        proof {
            assert(token_id@.take(0) =~= Seq::<char>::empty());
            assert(fresh_extension(self@.sessions, Seq::<char>::empty(), token_id@));
        }
        let expire_date = match add_one_day(now) {
            Some(e) => e,
            None => {
                return Err(LoginError::TokenUnavailable);
            },
        };
        self.login_user_with(email, password, token_id, expire_date)
    }

    /// Logs in with `email` and `password` and issues a token valid for one day from the
    /// clock's current instant (see `login_user_at`).
    pub fn login_user(&mut self, email: String, password: String) -> (r: Result<Token, LoginError>)
        requires
            old(self).wf(),
        ensures
            final(self).wf(),
            !has_login(old(self)@.users, email@, password@) ==> (r matches Err(
                LoginError::AuthenticationFailed,
            ) && final(self)@ == old(self)@),
            has_login(old(self)@.users, email@, password@) ==> match r {
                Ok(t) => logged_in(old(self)@, final(self)@, email@, t@) && drawn_token(t@),
                Err(e) => e is TokenUnavailable && final(self)@ == old(self)@,
            },
            has_login(old(self)@.users, email@, password@) && !has_fresh_extension(
                old(self)@.sessions,
                Seq::<char>::empty(),
            ) ==> r matches Err(LoginError::TokenUnavailable),
    {
        let now = utc_now();
        let r = self.login_user_at(email, password, now);
        proof {
            if r is Ok {
                assert(expires_a_day_after(r->Ok_0@, now));
            }
        }
        r
    }

    /// Removes from every account the tokens that `banned` lists.
    fn strip_user_tokens(&mut self, banned: &Vec<Token>, Ghost(keep): Ghost<spec_fn(TokenView) -> bool>)
        requires
            forall|t: TokenView| #[trigger] keep(t) == !token_views(banned@).contains(t),
        ensures
            final(self)@ == (AuthView {
                users: strip_tokens(old(self)@.users, keep),
                ..old(self)@
            }),
            final(self).session_tokens@ == old(self).session_tokens@,
    {
        let ghost before = user_views(self.user_data_base@);
        let ghost target = strip_tokens(before, keep);
        let mut j: usize = 0;
        while j < self.user_data_base.len()
            invariant
                j <= self.user_data_base.len() == before.len(),
                forall|t: TokenView| #[trigger] keep(t) == !token_views(banned@).contains(t),
                target == strip_tokens(before, keep),
                forall|k: int| 0 <= k < j ==> #[trigger] user_views(self.user_data_base@)[k] == target[k],
                forall|k: int|
                    j <= k < before.len() ==> #[trigger] user_views(self.user_data_base@)[k] == before[k],
                self.session_tokens@ == old(self).session_tokens@,
                self.total_logins == old(self).total_logins,
                self.server_username@ == old(self).server_username@,
            decreases before.len() - j,
        {
            let ghost prev = self.user_data_base@;
            self.user_data_base[j].remove_tokens(banned);
            proof {
                let f = |t: TokenView| !token_views(banned@).contains(t);
                assert(f =~= keep);
                let nu = self.user_data_base@[j as int]@;
                let ou = prev[j as int]@;
                assert(user_views(prev)[j as int] == prev[j as int]@);
                assert(ou == before[j as int]);
                assert(without_tokens(ou.active_tokens, token_views(banned@)) == ou.active_tokens.filter(f));
                assert(nu.active_tokens == ou.active_tokens.filter(keep));
                assert(target[j as int] == UserView { active_tokens: ou.active_tokens.filter(keep), ..ou });
                assert(nu == target[j as int]);
                assert forall|k: int| 0 <= k < before.len() implies #[trigger] user_views(
                    self.user_data_base@,
                )[k] == if k <= j {
                    target[k]
                } else {
                    before[k]
                } by {
                    if k != j {
                        assert(self.user_data_base@[k] == prev[k]);
                        assert(user_views(prev)[k] == prev[k]@);
                    }
                }
            }
            j = j + 1;
        }
        assert(user_views(self.user_data_base@) =~= target);
    }

    /// Logs out `auth_token`: every account drops its copies of the token, and if some account
    /// held it, the session under its identifier ends. The answer is always
    /// `Err(LogoutError::TokenNotFound)`.
    pub fn logout_user(&mut self, auth_token: Token) -> (r: Result<(), LogoutError>)
        requires
            old(self).wf(),
        ensures
            final(self).wf(),
            r matches Err(LogoutError::TokenNotFound),
            logged_out(old(self)@, final(self)@, auth_token@),
    {
        let ghost tv = auth_token@;
        let ghost before = self@;
        let ghost us = user_views(self.user_data_base@);
        let mut held = false;
        let mut i: usize = 0;
        while i < self.user_data_base.len()
            invariant
                i <= self.user_data_base.len(),
                us == user_views(self.user_data_base@),
                tv == auth_token@,
                held == exists|k: int| 0 <= k < i && (#[trigger] us[k]).active_tokens.contains(tv),
            decreases self.user_data_base.len() - i,
        {
            let h = self.user_data_base[i].has_token(&auth_token);
            proof {
                let ui = self.user_data_base@[i as int];
                assert(h == ui@.active_tokens.contains(tv));
                assert(us[i as int] == self.user_data_base@[i as int]@);
                if h {
                    assert(us[i as int].active_tokens.contains(tv));
                }
            }
            held = held || h;
            i = i + 1;
        }
        assert(held == holds_token(us, tv));
        let id = auth_token.get_id();
        let mut banned: Vec<Token> = Vec::new();
        banned.push(auth_token);
        let ghost keep = other_than(tv);
        proof {
            assert(token_views(banned@) =~= seq![tv]);
            assert forall|t: TokenView| #[trigger] keep(t) == !token_views(
                banned@,
            ).contains(t) by {
                if t == tv {
                    assert(token_views(banned@)[0] == tv);
                }
            }
        }
        self.strip_user_tokens(&banned, Ghost(keep));
        if held {
            let filter = SessionFilter::WithId(id);
            let _ = self.drop_sessions(&filter);
            proof {
                lemma_session_keys(token_views(old(self).session_tokens@));
                assert(keep_sessions(before.sessions, |t: TokenView| !filter.drops(t))
                    =~= before.sessions.remove(tv.token_id));
            }
        }
        proof {
            assert(self@.users == strip_tokens(before.users, other_than(tv)));
            assert(self@.total_logins == before.total_logins);
            assert(self@.server_username == before.server_username);
            assert(self@.sessions == if holds_token(before.users, tv) {
                before.sessions.remove(tv.token_id)
            } else {
                before.sessions
            });
            assert(logged_out(before, self@, tv));
        }
        Err(LogoutError::TokenNotFound)
    }

    /// Ends every session whose token expires strictly before `now`, and removes those tokens
    /// from the accounts that hold them.
    pub fn expire_tokens(&mut self, now: Timestamp)
        requires
            old(self).wf(),
        ensures
            final(self).wf(),
            expired_cleared(old(self)@, final(self)@, now),
    {
        let ghost before = self@;
        let filter = SessionFilter::ExpiredBefore(now);
        let dropped = self.drop_sessions(&filter);
        proof {
            assert((|t: TokenView| !filter.drops(t)) =~= valid_at(now));
        }
        let ghost keep = not_expired_session(before.sessions, now);
        assert forall|t: TokenView| #[trigger] keep(t) == !token_views(dropped@).contains(t) by {
            assert(filter.drops(t) == t.expire_date.before(now));
        }
        self.strip_user_tokens(&dropped, Ghost(keep));
    }

    /// Ends the sessions that have expired by the clock's current instant (see
    /// `expire_tokens`).
    pub fn clear_expired_tokens(&mut self)
        requires
            old(self).wf(),
        ensures
            final(self).wf(),
            exists|now: Timestamp| now.secs >= 0 && expired_cleared(old(self)@, final(self)@, now),
    {
        let now = utc_now();
        self.expire_tokens(now);
    }
}


/// In every well-formed service, each live session is stored under its own token's
/// identifier.
pub proof fn lemma_sessions_keyed_by_id(a: &Authenticate)
    requires
        a.wf(),
    ensures
        forall|id: Seq<char>| #[trigger]
            a@.sessions.contains_key(id) ==> a@.sessions[id].token_id == id,
{
    lemma_session_keys(token_views(a.session_tokens@));
}

/// After a successful registration the new account can log in with the same e-mail address
/// and password, its address counts as taken, and its token is a live session that the
/// account holds.
pub proof fn lemma_registered_account_can_log_in(
    before: AuthView,
    after: AuthView,
    name: Seq<char>,
    password: Seq<char>,
    email: Seq<char>,
    t: TokenView,
)
    requires
        registered(before, after, name, password, email, t),
    ensures
        has_login(after.users, email, password),
        email_taken(after.users, email),
        after.sessions.contains_key(t.token_id) && after.sessions[t.token_id] == t,
        holds_token(after.users, t),
{
    let k = before.users.len() as int;
    assert(after.users[k].email == email && after.users[k].password == password);
    assert(after.users[k].active_tokens[0] == t);
    assert(after.users[k].active_tokens.contains(t));
}

/// A successful login leaves the accounts as they were and makes its token a live session.
pub proof fn lemma_login_only_adds_a_session(
    before: AuthView,
    after: AuthView,
    email: Seq<char>,
    t: TokenView,
)
    requires
        logged_in(before, after, email, t),
    ensures
        after.users == before.users,
        after.sessions.contains_key(t.token_id) && after.sessions[t.token_id] == t,
        !before.sessions.contains_key(t.token_id),
        forall|id: Seq<char>|
            #[trigger] before.sessions.contains_key(id) ==> after.sessions.contains_key(id)
                && after.sessions[id] == before.sessions[id],
{
}

proof fn lemma_filter_idempotent(s: Seq<TokenView>, p: spec_fn(TokenView) -> bool)
    ensures
        s.filter(p).filter(p) == s.filter(p),
    decreases s.len(),
{
    reveal_with_fuel(Seq::filter, 1);
    if s.len() > 0 {
        lemma_filter_idempotent(s.drop_last(), p);
        let sub = s.drop_last().filter(p);
        if p(s.last()) {
            assert(sub.push(s.last()).drop_last() =~= sub);
        }
    }
}

proof fn lemma_filter_excludes(s: Seq<TokenView>, p: spec_fn(TokenView) -> bool, t: TokenView)
    requires
        !p(t),
    ensures
        !s.filter(p).contains(t),
{
    broadcast use vstd::seq_lib::group_filter_ensures;

    if s.filter(p).contains(t) {
        let i = choose|i: int| 0 <= i < s.filter(p).len() && s.filter(p)[i] == t;
        assert(p(s.filter(p)[i]));
    }
}

/// After logging out `t` no account holds `t`; if some account held it, its session is gone,
/// and every other session is untouched.
pub proof fn lemma_logout_revokes(before: AuthView, after: AuthView, t: TokenView)
    requires
        logged_out(before, after, t),
    ensures
        !holds_token(after.users, t),
        holds_token(before.users, t) ==> !after.sessions.contains_key(t.token_id),
        forall|id: Seq<char>|
            id != t.token_id ==> (#[trigger] after.sessions.contains_key(id)
                == before.sessions.contains_key(id) && (before.sessions.contains_key(id)
                ==> after.sessions[id] == before.sessions[id])),
{
    if holds_token(after.users, t) {
        let i = choose|i: int| 0 <= i < after.users.len() && (#[trigger] after.users[i]).active_tokens.contains(t);
        lemma_filter_excludes(before.users[i].active_tokens, other_than(t), t);
    }
}

/// Logging out the same token twice changes nothing the second time.
pub proof fn lemma_logout_idempotent(
    before: AuthView,
    middle: AuthView,
    after: AuthView,
    t: TokenView,
)
    requires
        logged_out(before, middle, t),
        logged_out(middle, after, t),
    ensures
        after == middle,
{
    lemma_logout_revokes(before, middle, t);
    assert forall|i: int| 0 <= i < middle.users.len() implies #[trigger] after.users[i]
        == middle.users[i] by {
        lemma_filter_idempotent(before.users[i].active_tokens, other_than(t));
    }
    assert(after.users =~= middle.users);
}

/// After clearing at `now`, every live session is valid at `now`, every session that was
/// valid at `now` is still live, and no account holds a token whose session expired.
pub proof fn lemma_expiry_leaves_valid_sessions(before: AuthView, after: AuthView, now: Timestamp)
    requires
        expired_cleared(before, after, now),
    ensures
        forall|id: Seq<char>| #[trigger]
            after.sessions.contains_key(id) ==> !after.sessions[id].expire_date.before(now),
        forall|id: Seq<char>|
            #[trigger] before.sessions.contains_key(id) && !before.sessions[id].expire_date.before(now)
                ==> after.sessions.contains_key(id) && after.sessions[id] == before.sessions[id],
        forall|t: TokenView| #[trigger]
            expired_session(before.sessions, now, t) ==> !holds_token(after.users, t),
{
    assert forall|t: TokenView| #[trigger]
        expired_session(before.sessions, now, t) implies !holds_token(after.users, t) by {
        if holds_token(after.users, t) {
            let i = choose|i: int| 0 <= i < after.users.len() && (#[trigger] after.users[i]).active_tokens.contains(t);
            lemma_filter_excludes(before.users[i].active_tokens, not_expired_session(before.sessions, now), t);
        }
    }
}


/// Every token an account holds is the live session stored under its identifier.
pub open spec fn held_tokens_live(a: AuthView) -> bool {
    forall|i: int, t: TokenView|
        0 <= i < a.users.len() && #[trigger] a.users[i].active_tokens.contains(t)
            ==> a.sessions.contains_key(t.token_id) && a.sessions[t.token_id] == t
}

/// A new service holds no tokens, so every held token is live.
pub proof fn lemma_new_service_tokens_live(a: AuthView)
    requires
        a.users.len() == 0,
    ensures
        held_tokens_live(a),
{
}

/// Registration keeps every held token live.
pub proof fn lemma_register_keeps_tokens_live(
    before: AuthView,
    after: AuthView,
    name: Seq<char>,
    password: Seq<char>,
    email: Seq<char>,
    t: TokenView,
)
    requires
        held_tokens_live(before),
        registered(before, after, name, password, email, t),
    ensures
        held_tokens_live(after),
{
    assert forall|i: int, u: TokenView|
        0 <= i < after.users.len() && #[trigger] after.users[i].active_tokens.contains(u)
            implies after.sessions.contains_key(u.token_id) && after.sessions[u.token_id] == u by {
        if i < before.users.len() {
            assert(after.users[i] == before.users[i]);
        } else {
            assert(after.users[i].active_tokens == seq![t]);
            let k = choose|k: int| 0 <= k < 1 && seq![t][k] == u;
        }
    }
}

/// A login keeps every held token live.
pub proof fn lemma_login_keeps_tokens_live(before: AuthView, after: AuthView, email: Seq<char>, t: TokenView)
    requires
        held_tokens_live(before),
        logged_in(before, after, email, t),
    ensures
        held_tokens_live(after),
{
    assert forall|i: int, u: TokenView|
        0 <= i < after.users.len() && #[trigger] after.users[i].active_tokens.contains(u)
            implies after.sessions.contains_key(u.token_id) && after.sessions[u.token_id] == u by {
        assert(before.users[i].active_tokens.contains(u));
    }
}

/// A logout keeps every held token live.
pub proof fn lemma_logout_keeps_tokens_live(before: AuthView, after: AuthView, t: TokenView)
    requires
        held_tokens_live(before),
        logged_out(before, after, t),
    ensures
        held_tokens_live(after),
{
    broadcast use vstd::seq_lib::group_filter_ensures;

    assert forall|i: int, u: TokenView|
        0 <= i < after.users.len() && #[trigger] after.users[i].active_tokens.contains(u)
            implies after.sessions.contains_key(u.token_id) && after.sessions[u.token_id] == u by {
        let src = before.users[i].active_tokens;
        assert(after.users[i].active_tokens == src.filter(other_than(t)));
        src.lemma_filter_contains_rev(other_than(t), u);
        assert(src.contains(u));
        let k = choose|k: int| 0 <= k < src.filter(other_than(t)).len() && src.filter(other_than(t))[k] == u;
        assert(other_than(t)(src.filter(other_than(t))[k]));
        assert(u != t);
        if holds_token(before.users, t) {
            let j = choose|j: int| 0 <= j < before.users.len() && (#[trigger] before.users[j]).active_tokens.contains(t);
            assert(before.sessions[t.token_id] == t);
        }
    }
}

/// Clearing expired sessions keeps every held token live.
pub proof fn lemma_expiry_keeps_tokens_live(before: AuthView, after: AuthView, now: Timestamp)
    requires
        held_tokens_live(before),
        expired_cleared(before, after, now),
    ensures
        held_tokens_live(after),
{
    broadcast use vstd::seq_lib::group_filter_ensures;

    assert forall|i: int, u: TokenView|
        0 <= i < after.users.len() && #[trigger] after.users[i].active_tokens.contains(u)
            implies after.sessions.contains_key(u.token_id) && after.sessions[u.token_id] == u by {
        let keep = not_expired_session(before.sessions, now);
        let src = before.users[i].active_tokens;
        assert(after.users[i].active_tokens == src.filter(keep));
        src.lemma_filter_contains_rev(keep, u);
        let k = choose|k: int| 0 <= k < src.filter(keep).len() && src.filter(keep)[k] == u;
        assert(keep(src.filter(keep)[k]));
        assert(valid_at(now)(u));
    }
}

/// A token issued by a login is held by no account, so logging it out leaves its session
/// live.
pub proof fn lemma_login_token_outlives_logout(
    start: AuthView,
    before: AuthView,
    after: AuthView,
    email: Seq<char>,
    t: TokenView,
)
    requires
        held_tokens_live(start),
        logged_in(start, before, email, t),
        logged_out(before, after, t),
    ensures
        !holds_token(before.users, t),
        after.sessions.contains_key(t.token_id) && after.sessions[t.token_id] == t,
{
    if holds_token(before.users, t) {
        let j = choose|j: int| 0 <= j < before.users.len() && (#[trigger] before.users[j]).active_tokens.contains(t);
        assert(start.users[j].active_tokens.contains(t));
    }
}

/// Logging out the token a registration returned ends its session, and no account holds it
/// any more.
pub proof fn lemma_register_then_logout(
    start: AuthView,
    before: AuthView,
    after: AuthView,
    name: Seq<char>,
    password: Seq<char>,
    email: Seq<char>,
    t: TokenView,
)
    requires
        registered(start, before, name, password, email, t),
        logged_out(before, after, t),
    ensures
        !after.sessions.contains_key(t.token_id),
        !holds_token(after.users, t),
{
    lemma_registered_account_can_log_in(start, before, name, password, email, t);
    lemma_logout_revokes(before, after, t);
}

} // verus!
