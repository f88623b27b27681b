//! Character-level string helpers shared by the protocol and authentication code.
use vstd::prelude::*;

verus! {

/// Appends one character to a string (`String::push`).
/// Claimed: the new contents are the old contents followed by `c`.
#[verifier::external_body]
pub(crate) fn string_push(s: &mut String, c: char)
    ensures
        final(s)@ == old(s)@.push(c),
{
    s.push(c);
}

/// The characters of `s`, in order.
pub fn chars_of(s: &str) -> (v: Vec<char>)
    ensures
        v@ == s@,
{
    let mut v: Vec<char> = Vec::new();
    for c in iter: s.chars()
        invariant
            iter.seq() == s@,
            v@ == iter.seq().take(iter.index() as int),
    {
        v.push(c);
    }
    v
}

/// Builds a string holding `chars[lo..hi]`.
pub fn string_from_range(chars: &Vec<char>, lo: usize, hi: usize) -> (s: String)
    requires
        lo <= hi <= chars.len(),
    ensures
        s@ == chars@.subrange(lo as int, hi as int),
{
    let mut s = String::new();
    let mut i = lo;
    while i < hi
        invariant
            lo <= i <= hi <= chars.len(),
            s@ == chars@.subrange(lo as int, i as int),
        decreases hi - i,
    {
        string_push(&mut s, chars[i]);
        assert(chars@.subrange(lo as int, i + 1) == chars@.subrange(lo as int, i as int).push(
            chars@[i as int],
        ));
        i = i + 1;
    }
    s
}

/// `pattern` occurs in `text` starting at position `i`.
pub open spec fn occurs_at(text: Seq<char>, pattern: Seq<char>, i: int) -> bool {
    0 <= i && i + pattern.len() <= text.len() && text.subrange(i, i + pattern.len()) == pattern
}

/// `pattern` occurs somewhere in `text` (`str::contains` with a string pattern).
pub open spec fn contains_seq(text: Seq<char>, pattern: Seq<char>) -> bool {
    exists|i: int| occurs_at(text, pattern, i)
}

fn occurs_at_exec(text: &Vec<char>, pattern: &Vec<char>, i: usize) -> (r: bool)
    requires
        i + pattern.len() <= text.len(),
    ensures
        r == occurs_at(text@, pattern@, i as int),
{
    let mut j: usize = 0;
    while j < pattern.len()
        invariant
            j <= pattern.len(),
            i + pattern.len() <= text.len(),
            forall|k: int| 0 <= k < j ==> text@[i + k] == pattern@[k],
        decreases pattern.len() - j,
    {
        if text[i + j] != pattern[j] {
            assert(text@.subrange(i as int, i + pattern.len())[j as int] != pattern@[j as int]);
            return false;
        }
        j = j + 1;
    }
    assert(text@.subrange(i as int, i + pattern.len()) =~= pattern@);
    true
}

/// Whether `pattern` occurs in `text`.
pub fn contains_str(text: &str, pattern: &str) -> (r: bool)
    ensures
        r == contains_seq(text@, pattern@),
{
    let t = chars_of(text);
    let p = chars_of(pattern);
    if p.len() > t.len() {
        assert forall|i: int| !occurs_at(t@, p@, i) by {}
        return false;
    }
    let last = t.len() - p.len();
    let mut i: usize = 0;
    while i < last
        invariant
            i <= last == t.len() - p.len(),
            t@ == text@,
            p@ == pattern@,
            p.len() <= t.len(),
            forall|k: int| 0 <= k < i ==> !occurs_at(t@, p@, k),
        decreases last - i,
    {
        if occurs_at_exec(&t, &p, i) {
            return true;
        }
        i = i + 1;
    }
    if occurs_at_exec(&t, &p, last) {
        return true;
    }
    assert forall|k: int| !occurs_at(t@, p@, k) by {
        if 0 <= k < i {
        }
    }
    false
}

/// What `str::trim_matches(c)` leaves: every leading and trailing `c` removed.
pub open spec fn trim_char(s: Seq<char>, c: char) -> Seq<char>
    decreases s.len(),
{
    if s.len() > 0 && s[0] == c {
        trim_char(s.drop_first(), c)
    } else if s.len() > 0 && s.last() == c {
        trim_char(s.drop_last(), c)
    } else {
        s
    }
}

/// Removes the double quotes that surround a JSON value's text (`trim_matches('"')`).
pub fn trim_quotes(s: &str) -> (r: String)
    ensures
        r@ == trim_char(s@, '"'),
{
    let v = chars_of(s);
    let mut lo: usize = 0;
    let mut hi: usize = v.len();
    assert(v@.subrange(0, v.len() as int) =~= v@);
    while lo < hi && v[lo] == '"'
        invariant
            lo <= hi == v.len(),
            v@ == s@,
            trim_char(s@, '"') == trim_char(v@.subrange(lo as int, hi as int), '"'),
        decreases hi - lo,
    {
        assert(v@.subrange(lo as int, hi as int).drop_first() =~= v@.subrange(
            lo + 1,
            hi as int,
        ));
        lo = lo + 1;
    }
    while lo < hi && v[hi - 1] == '"'
        invariant
            lo <= hi <= v.len(),
            v@ == s@,
            lo < hi ==> v@[lo as int] != '"',
            trim_char(s@, '"') == trim_char(v@.subrange(lo as int, hi as int), '"'),
        decreases hi - lo,
    {
        assert(v@.subrange(lo as int, hi as int).drop_last() =~= v@.subrange(
            lo as int,
            hi - 1,
        ));
        hi = hi - 1;
    }
    string_from_range(&v, lo, hi)
}

/// The decimal digits of `n`, most significant first.
pub open spec fn decimal_digits(n: nat) -> Seq<char>
    decreases n,
{
    if n < 10 {
        seq![digit_char(n)]
    } else {
        decimal_digits(n / 10).push(digit_char(n % 10))
    }
}

/// The ASCII digit for `d` (`d < 10`).
pub open spec fn digit_char(d: nat) -> char {
    (48 + d) as char
}

/// How `{}` renders an `i32`: an optional minus sign, then the decimal digits.
pub open spec fn i32_text(n: i32) -> Seq<char> {
    if n < 0 {
        seq!['-'] + decimal_digits((-(n as int)) as nat)
    } else {
        decimal_digits(n as nat)
    }
}

fn digit_of(d: u32) -> (c: char)
    requires
        d < 10,
    ensures
        c == digit_char(d as nat),
{
    if d == 0 {
        '0'
    } else if d == 1 {
        '1'
    } else if d == 2 {
        '2'
    } else if d == 3 {
        '3'
    } else if d == 4 {
        '4'
    } else if d == 5 {
        '5'
    } else if d == 6 {
        '6'
    } else if d == 7 {
        '7'
    } else if d == 8 {
        '8'
    } else {
        '9'
    }
}

fn push_decimal(s: &mut String, n: u32)
    ensures
        final(s)@ == old(s)@ + decimal_digits(n as nat),
    decreases n,
{
    if n < 10 {
        let c = digit_of(n);
        string_push(s, c);
        assert(decimal_digits(n as nat) == seq![c]);
    } else {
        push_decimal(s, n / 10);
        let c = digit_of(n % 10);
        string_push(s, c);
        assert(decimal_digits(n as nat) == decimal_digits((n / 10) as nat).push(c));
    }
}

/// Appends the decimal text of `n` to `s`.
pub fn push_i32(s: &mut String, n: i32)
    ensures
        final(s)@ == old(s)@ + i32_text(n),
{
    let ghost s0 = s@;
    if n < 0 {
        string_push(s, '-');
        let m: u32 = if n == i32::MIN {
            2147483648u32
        } else {
            (-n) as u32
        };
        assert(m == -(n as int));
        push_decimal(s, m);
        assert(s@ =~= s0 + i32_text(n));
    } else {
        push_decimal(s, n as u32);
    }
}

} // verus!
