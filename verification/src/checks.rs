//! The rules a new account's password and e-mail address must meet.
use vstd::prelude::*;

verus! {

/// The pattern `\d`: one decimal digit (Unicode class `Nd`, which holds the ASCII digits).
pub open spec fn digit_pattern() -> Seq<char> {
    seq!['\\', 'd']
}

/// The pattern `[A-Z]`: one ASCII capital letter.
pub open spec fn uppercase_pattern() -> Seq<char> {
    seq!['[', 'A', '-', 'Z', ']']
}

pub open spec fn is_ascii_digit(c: char) -> bool {
    '0' <= c <= '9'
}

pub open spec fn is_ascii_uppercase(c: char) -> bool {
    'A' <= c <= 'Z'
}

pub open spec fn has_ascii_uppercase(s: Seq<char>) -> bool {
    exists|i: int| 0 <= i < s.len() && is_ascii_uppercase(#[trigger] s[i])
}

pub open spec fn has_ascii_digit(s: Seq<char>) -> bool {
    exists|i: int| 0 <= i < s.len() && is_ascii_digit(#[trigger] s[i])
}

/// What `Regex::new(pattern)` followed by `is_match(haystack)` answers: `None` where the
/// pattern does not compile, else whether the pattern matches somewhere in the haystack.
pub uninterp spec fn regex_search(pattern: Seq<char>, haystack: Seq<char>) -> Option<bool>;

/// Compiles `pattern` with `regex::Regex::new` and asks `Regex::is_match` about `haystack`.
/// Claimed: the answer is `regex_search(pattern, haystack)`. For the two patterns of the
/// password rule the `regex` documentation gives more: `[A-Z]` compiles and matches exactly
/// when some character is an ASCII capital; `\d` compiles, matches whenever an ASCII digit
/// occurs, and matches only where some character is an ASCII digit or lies outside ASCII.
#[verifier::external_body]
fn regex_is_match(pattern: &str, haystack: &str) -> (r: Option<bool>)
    ensures
        r == regex_search(pattern@, haystack@),
        pattern@ == uppercase_pattern() ==> r == Some(has_ascii_uppercase(haystack@)),
        pattern@ == digit_pattern() ==> r is Some,
        pattern@ == digit_pattern() && has_ascii_digit(haystack@) ==> r == Some(true),
        pattern@ == digit_pattern() && r == Some(true) ==> exists|i: int|
            0 <= i < haystack@.len() && (is_ascii_digit(#[trigger] haystack@[i])
                || haystack@[i] as u32 >= 128),
{
    match regex::Regex::new(pattern) {
        Ok(re) => Some(re.is_match(haystack)),
        Err(_) => None,
    }
}

/// The number of bytes UTF-8 spends on `c`.
pub open spec fn utf8_width(c: char) -> nat {
    if (c as u32) < 0x80 {
        1
    } else if (c as u32) < 0x800 {
        2
    } else if (c as u32) < 0x10000 {
        3
    } else {
        4
    }
}

/// The number of bytes `text` takes in UTF-8 (what `str::len` counts).
pub open spec fn utf8_len(text: Seq<char>) -> nat
    decreases text.len(),
{
    if text.len() == 0 {
        0
    } else {
        utf8_len(text.drop_last()) + utf8_width(text.last())
    }
}

proof fn lemma_utf8_len_prefix(text: Seq<char>, i: int)
    requires
        0 <= i <= text.len(),
    ensures
        utf8_len(text.take(i)) <= utf8_len(text),
    decreases text.len() - i,
{
    if i < text.len() {
        lemma_utf8_len_prefix(text, i + 1);
        assert(text.take(i + 1).drop_last() =~= text.take(i));
    } else {
        assert(text.take(i) =~= text);
    }
}

fn utf8_width_of(c: char) -> (w: u64)
    ensures
        w == utf8_width(c),
{
    let u = c as u32;
    if u < 0x80 {
        1
    } else if u < 0x800 {
        2
    } else if u < 0x10000 {
        3
    } else {
        4
    }
}

/// Whether `text` takes at least `bound` bytes in UTF-8.
pub fn utf8_len_at_least(text: &str, bound: u32) -> (r: bool)
    ensures
        r == (utf8_len(text@) >= bound),
{
    if bound == 0 {
        return true;
    }
    let chars = crate::text::chars_of(text);
    let mut total: u64 = 0;
    let mut i: usize = 0;
    while i < chars.len()
        invariant
            i <= chars.len(),
            chars@ == text@,
            total == utf8_len(text@.take(i as int)),
            total < bound,
        decreases chars.len() - i,
    {
        let w = utf8_width_of(chars[i]);
        assert(text@.take(i + 1).drop_last() =~= text@.take(i as int));
        total = total + w;
        i = i + 1;
        if total >= bound as u64 {
            proof {
                lemma_utf8_len_prefix(text@, i as int);
            }
            return true;
        }
    }
    assert(text@.take(i as int) =~= text@);
    false
}

/// A password is accepted when it is at least ten bytes long, holds a digit (`\d`) and holds
/// an ASCII capital letter (`[A-Z]`).
pub open spec fn password_acceptable(password: Seq<char>) -> bool {
    &&& utf8_len(password) >= 10
    &&& regex_search(digit_pattern(), password) == Some(true)
    &&& has_ascii_uppercase(password)
}

/// Whether `password` satisfies the password rule.
pub fn password_satisfies(password: &str) -> (r: bool)
    ensures
        r == password_acceptable(password@),
{
    if !utf8_len_at_least(password, 10) {
        return false;
    }
    let digit = regex_is_match("\\d", password);
    let upper = regex_is_match("[A-Z]", password);
    proof {
        reveal_strlit("\\d");
        reveal_strlit("[A-Z]");
        assert("\\d"@ =~= digit_pattern());
        assert("[A-Z]"@ =~= uppercase_pattern());
    }
    match (digit, upper) {
        (Some(d), Some(u)) => d && u,
        _ => false,
    }
}

/// What `validator::ValidateEmail::validate_email` answers for `email` (the HTML5 rule for
/// e-mail addresses).
pub uninterp spec fn email_accepted(email: Seq<char>) -> bool;

/// `validator::ValidateEmail::validate_email` on a string.
/// Claimed: the answer is `email_accepted(email)`, and an address without `@` is refused (the
/// crate's source returns `false` for an empty string or one without `@` before any other
/// test).
#[verifier::external_body]
pub(crate) fn email_is_valid(email: &str) -> (r: bool)
    ensures
        r == email_accepted(email@),
        !email@.contains('@') ==> !r,
{
    validator::ValidateEmail::validate_email(&email)
}

} // verus!
