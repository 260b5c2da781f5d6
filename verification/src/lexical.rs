//! Lexical rules shared by the front ends: white space, digits, and fixed tokens.
use vstd::prelude::*;
use crate::text::{chars_of, push_char};

verus! {

pub open spec fn is_ws(c: char) -> bool {
    c == ' ' || c == '\t' || c == '\r' || c == '\n'
}

pub open spec fn is_digit(c: char) -> bool {
    '0' <= c && c <= '9'
}

/// The first position at or after `i` that is not whitespace.
pub open spec fn skip_ws(s: Seq<char>, i: nat) -> nat
    decreases s.len() - i,
{
    if i < s.len() && is_ws(s[i as int]) {
        skip_ws(s, i + 1)
    } else {
        i
    }
}

/// The end of the run of digits from `i`.
pub open spec fn digits_end(s: Seq<char>, i: nat) -> nat
    decreases s.len() - i,
{
    if i < s.len() && is_digit(s[i as int]) {
        digits_end(s, i + 1)
    } else {
        i
    }
}

/// The number that a string of decimal digits denotes.
pub open spec fn digits_value(d: Seq<char>) -> nat
    decreases d.len(),
{
    if d.len() == 0 {
        0
    } else {
        digits_value(d.drop_last()) * 10 + (d.last() as nat - 48) as nat
    }
}

/// The characters `t` after whitespace.
pub open spec fn symbol(s: Seq<char>, i: nat, t: Seq<char>) -> Option<nat> {
    let a = skip_ws(s, i);
    if a + t.len() <= s.len() && s.subrange(a as int, (a + t.len()) as int) == t {
        Some(a + t.len())
    } else {
        None
    }
}

/// Unicode white space, as `char::is_whitespace` documents it (the `White_Space` property).
pub open spec fn is_white(c: char) -> bool {
    ('\u{9}' <= c && c <= '\u{d}') || c == ' ' || c == '\u{85}' || c == '\u{a0}' || c == '\u{1680}'
        || ('\u{2000}' <= c && c <= '\u{200a}') || c == '\u{2028}' || c == '\u{2029}' || c == '\u{202f}'
        || c == '\u{205f}' || c == '\u{3000}'
}

/// Whether `c` is white space in the Unicode sense.
pub fn is_white_exec(c: char) -> (r: bool)
    ensures
        r == is_white(c),
{
    ('\u{9}' <= c && c <= '\u{d}') || c == ' ' || c == '\u{85}' || c == '\u{a0}' || c == '\u{1680}'
        || ('\u{2000}' <= c && c <= '\u{200a}') || c == '\u{2028}' || c == '\u{2029}' || c == '\u{202f}'
        || c == '\u{205f}' || c == '\u{3000}'
}


/// The first position at or after `i` that is not white space in the Unicode sense.
pub open spec fn trim_start_at(s: Seq<char>, i: nat) -> nat
    decreases s.len() - i,
{
    if i < s.len() && is_white(s[i as int]) {
        trim_start_at(s, i + 1)
    } else {
        i
    }
}

/// The end of `s[..j]` without its trailing white space.
pub open spec fn trim_end_at(s: Seq<char>, j: nat) -> nat
    decreases j,
{
    if j > 0 && j <= s.len() && is_white(s[j - 1]) {
        trim_end_at(s, (j - 1) as nat)
    } else {
        j
    }
}

/// `s` without leading and trailing white space, as `str::trim` gives it.
pub open spec fn trimmed(s: Seq<char>) -> Seq<char> {
    let a = trim_start_at(s, 0);
    let b = trim_end_at(s, s.len());
    if a < b {
        s.subrange(a as int, b as int)
    } else {
        Seq::empty()
    }
}

/// `s` without leading and trailing white space.
pub fn trim(s: &str) -> (r: String)
    ensures
        r@ == trimmed(s@),
{
    let cs = chars_of(s);
    let n = cs.len();
    let mut a: usize = 0;
    while a < n && is_white_exec(cs[a])
        invariant
            n == cs@.len(),
            a <= n,
            trim_start_at(cs@, a as nat) == trim_start_at(cs@, 0),
        decreases n - a,
    {
        a = a + 1;
    }
    let mut b: usize = n;
    while b > 0 && is_white_exec(cs[b - 1])
        invariant
            n == cs@.len(),
            b <= n,
            trim_end_at(cs@, b as nat) == trim_end_at(cs@, n as nat),
        decreases b,
    {
        b = b - 1;
    }
    let mut r = String::new();
    if a < b {
        let mut k = a;
        while k < b
            invariant
                n == cs@.len(),
                a <= k <= b <= n,
                r@ == cs@.subrange(a as int, k as int),
            decreases b - k,
        {
            push_char(&mut r, cs[k]);
            assert(r@ =~= cs@.subrange(a as int, k + 1));
            k = k + 1;
        }
    }
    assert(cs@ == s@);
    r
}

/// Whether the characters of `v` are those of `t`.
pub fn chars_are(v: &Vec<char>, t: &str) -> (r: bool)
    ensures
        r == (v@ == t@),
{
    let tc = chars_of(t);
    if v.len() != tc.len() {
        return false;
    }
    for k in 0..v.len()
        invariant
            tc@ == t@,
            v@.len() == tc@.len(),
            forall|j: int| 0 <= j < k ==> v@[j] == tc@[j],
    {
        if v[k] != tc[k] {
            return false;
        }
    }
    assert(v@ =~= tc@);
    true
}

/// The first position at or after `i` that is not white space.
pub fn skip_ws_at(cs: &Vec<char>, i: usize) -> (r: usize)
    requires
        i <= cs@.len(),
    ensures
        r as nat == skip_ws(cs@, i as nat),
        i <= r <= cs@.len(),
{
    let n = cs.len();
    let mut k = i;
    while k < n && (cs[k] == ' ' || cs[k] == '\t' || cs[k] == '\r' || cs[k] == '\n')
        invariant
            n == cs@.len(),
            i <= k <= n,
            skip_ws(cs@, k as nat) == skip_ws(cs@, i as nat),
        decreases n - k,
    {
        k = k + 1;
    }
    k
}

/// The end of the run of digits from `i`.
pub fn digits_end_at(cs: &Vec<char>, i: usize) -> (r: usize)
    requires
        i <= cs@.len(),
    ensures
        r as nat == digits_end(cs@, i as nat),
        i <= r <= cs@.len(),
{
    let n = cs.len();
    let mut k = i;
    while k < n && '0' <= cs[k] && cs[k] <= '9'
        invariant
            n == cs@.len(),
            i <= k <= n,
            digits_end(cs@, k as nat) == digits_end(cs@, i as nat),
        decreases n - k,
    {
        k = k + 1;
    }
    k
}

/// Whether the characters of `cs` from `a` to `b` are `t`.
pub fn text_is_at(cs: &Vec<char>, a: usize, b: usize, t: &str) -> (r: bool)
    requires
        a <= b <= cs@.len(),
    ensures
        r == (cs@.subrange(a as int, b as int) == t@),
{
    let tc = chars_of(t);
    if b - a != tc.len() {
        assert(cs@.subrange(a as int, b as int).len() != t@.len());
        return false;
    }
    let mut k: usize = 0;
    while k < tc.len()
        invariant
            tc@ == t@,
            b - a == tc@.len(),
            a <= b <= cs@.len(),
            k <= tc@.len(),
            forall|j: int| 0 <= j < k ==> cs@[a + j] == tc@[j],
        decreases tc@.len() - k,
    {
        if cs[a + k] != tc[k] {
            assert(cs@.subrange(a as int, b as int)[k as int] != t@[k as int]);
            return false;
        }
        k = k + 1;
    }
    assert(cs@.subrange(a as int, b as int) =~= t@);
    true
}

/// The position after the characters `t` standing after white space from `i`.
pub fn symbol_at(cs: &Vec<char>, i: usize, t: &str) -> (r: Option<usize>)
    requires
        i <= cs@.len(),
    ensures
        r matches Some(j) ==> j <= cs@.len(),
        match r {
            Some(j) => symbol(cs@, i as nat, t@) == Some(j as nat),
            None => symbol(cs@, i as nat, t@) is None,
        },
{
    let a = skip_ws_at(cs, i);
    let tl = t.unicode_len();
    if tl <= cs.len() - a && text_is_at(cs, a, a + tl, t) {
        Some(a + tl)
    } else {
        None
    }
}

} // verus!
