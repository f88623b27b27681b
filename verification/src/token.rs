//! Session tokens and the random identifiers they carry.
use vstd::prelude::*;

use crate::clock::Timestamp;
use crate::text::string_push;

verus! {

/// Number of characters in a token identifier.
pub const TOKENLENGTH: usize = 10;

/// Number of characters identifiers are drawn from: `A`..`Z`, `a`..`z`, `0`..`9`.
pub const CHARSET_LEN: usize = 62;

/// The character at position `i` of the identifier alphabet
/// `ABCDEFGHIJKLMNOPQRSTUVWXYZabcdefghijklmnopqrstuvwxyz0123456789`.
pub open spec fn charset_char(i: int) -> char {
    if i < 26 {
        (65 + i) as char
    } else if i < 52 {
        (97 + (i - 26)) as char
    } else {
        (48 + (i - 52)) as char
    }
}

/// `c` belongs to the identifier alphabet.
pub open spec fn is_token_char(c: char) -> bool {
    ('A' <= c <= 'Z') || ('a' <= c <= 'z') || ('0' <= c <= '9')
}

pub(crate) fn charset_at(i: usize) -> (c: char)
    requires
        i < CHARSET_LEN,
    ensures
        c == charset_char(i as int),
        is_token_char(c),
{
    let code: u8 = if i < 26 {
        65 + i as u8
    } else if i < 52 {
        97 + (i - 26) as u8
    } else {
        48 + (i - 52) as u8
    };
    code as char
}

/// A uniformly drawn index below `bound`: `rand::thread_rng().gen_range(0..bound)`.
/// Claimed: the index is below `bound` (which index comes out is chance).
#[verifier::external_body]
fn random_index(bound: usize) -> (r: usize)
    requires
        bound > 0,
    ensures
        r < bound,
{
    rand::Rng::gen_range(&mut rand::thread_rng(), 0..bound)
}

/// A random identifier of `TOKENLENGTH` characters drawn from the identifier alphabet.
pub fn generate_rand() -> (s: String)
    ensures
        s@.len() == TOKENLENGTH,
        forall|i: int| 0 <= i < s@.len() ==> is_token_char(#[trigger] s@[i]),
{
    let mut s = String::new();
    let mut n: usize = 0;
    while n < TOKENLENGTH
        invariant
            n <= TOKENLENGTH,
            s@.len() == n,
            forall|i: int| 0 <= i < s@.len() ==> is_token_char(#[trigger] s@[i]),
        decreases TOKENLENGTH - n,
    {
        let idx = random_index(CHARSET_LEN);
        let c = charset_at(idx);
        string_push(&mut s, c);
        n = n + 1;
    }
    s
}

/// A session token: the account (e-mail) it belongs to, its identifier and when it expires.
#[derive(Debug)]
pub struct Token {
    user: String,
    token_id: String,
    expire_date: Timestamp,
}

/// The contents of a `Token`.
pub struct TokenView {
    pub user: Seq<char>,
    pub token_id: Seq<char>,
    pub expire_date: Timestamp,
}

impl View for Token {
    type V = TokenView;

    closed spec fn view(&self) -> TokenView {
        TokenView { user: self.user@, token_id: self.token_id@, expire_date: self.expire_date }
    }
}

impl Token {
    pub fn new(user: String, token_id: String, expire_date: Timestamp) -> (t: Self)
        ensures
            t@ == (TokenView { user: user@, token_id: token_id@, expire_date }),
    {
        Token { user, token_id, expire_date }
    }

    pub fn get_user_id(&self) -> (r: String)
        ensures
            r@ == self@.user,
    {
        self.user.clone()
    }

    pub fn get_expire(&self) -> (r: Timestamp)
        ensures
            r == self@.expire_date,
    {
        self.expire_date
    }

    pub fn get_id(&self) -> (r: String)
        ensures
            r@ == self@.token_id,
    {
        self.token_id.clone()
    }

    /// A token with the same contents.
    pub fn duplicate(&self) -> (r: Token)
        ensures
            r@ == self@,
    {
        Token {
            user: self.user.clone(),
            token_id: self.token_id.clone(),
            expire_date: self.expire_date,
        }
    }

    /// Whether two tokens agree in every field.
    pub fn same_as(&self, other: &Token) -> (r: bool)
        ensures
            r == (self@ == other@),
    {
        self.user == other.user && self.token_id == other.token_id && self.expire_date.secs
            == other.expire_date.secs && self.expire_date.nanos == other.expire_date.nanos
    }
}

} // verus!
