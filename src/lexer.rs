//! Character classes and the small token scanners that the grammar is built
//! from. Input is a sequence of characters; positions are indices into it.

use crate::number::{decimal_value, is_digit, Int};
use vstd::prelude::*;

verus! {

pub open spec fn is_ws(c: char) -> bool {
    c == ' ' || c == '\t' || c == '\r' || c == '\n'
}

pub open spec fn is_alpha(c: char) -> bool {
    ('a' <= c && c <= 'z') || ('A' <= c && c <= 'Z')
}

pub open spec fn is_ident_char(c: char) -> bool {
    is_alpha(c) || is_digit(c) || c == '_'
}

/// `s` holds `c` at `p`.
pub open spec fn at(s: Seq<char>, p: int, c: char) -> bool {
    0 <= p < s.len() && s[p] == c
}

/// The end of the run of whitespace that starts at `p`.
pub open spec fn ws_end(s: Seq<char>, p: int) -> int
    decreases s.len() - p,
{
    if 0 <= p < s.len() && is_ws(s[p]) {
        ws_end(s, p + 1)
    } else {
        p
    }
}

/// The end of the run of decimal digits that starts at `p`.
pub open spec fn digits_end(s: Seq<char>, p: int) -> int
    decreases s.len() - p,
{
    if 0 <= p < s.len() && is_digit(s[p]) {
        digits_end(s, p + 1)
    } else {
        p
    }
}

/// The end of the run of identifier characters that starts at `p`.
pub open spec fn ident_end(s: Seq<char>, p: int) -> int
    decreases s.len() - p,
{
    if 0 <= p < s.len() && is_ident_char(s[p]) {
        ident_end(s, p + 1)
    } else {
        p
    }
}

/// An integer literal at `p`: an optional `-` and one or more decimal
/// digits. Its value and the position after it.
pub open spec fn int_literal(s: Seq<char>, p: int) -> Option<(int, int)> {
    let neg = at(s, p, '-');
    let d = if neg { p + 1 } else { p };
    let e = digits_end(s, d);
    if e == d {
        None
    } else {
        let v = decimal_value(s.subrange(d, e)) as int;
        Some((if neg { -v } else { v }, e))
    }
}

/// A variable reference at `p`: `$`, a letter or `_`, then letters, digits
/// and `_`. Its name without the `$`, and the position after it.
pub open spec fn variable(s: Seq<char>, p: int) -> Option<(Seq<char>, int)> {
    if at(s, p, '$') && 0 <= p + 1 < s.len() && (is_alpha(s[p + 1]) || s[p + 1] == '_') {
        let e = ident_end(s, p + 2);
        Some((s.subrange(p + 1, e), e))
    } else {
        None
    }
}

/// Relies on `String::push`, which appends one character.
#[verifier::external_body]
pub fn push_char(s: &mut String, c: char)
    ensures
        final(s)@ == old(s)@.push(c),
{
    s.push(c)
}

/// A parse result with its end position moved on by `p`.
pub open spec fn shift_end<T>(r: Option<(T, int)>, p: int) -> Option<(T, int)> {
    match r {
        Some((v, q)) => Some((v, q + p)),
        None => None,
    }
}

pub proof fn lemma_at_shift(s: Seq<char>, p: int, x: int, c: char)
    requires
        0 <= p <= x,
        p <= s.len(),
    ensures
        at(s, x, c) == at(s.subrange(p, s.len() as int), x - p, c),
{
    if x < s.len() {
        assert(s.subrange(p, s.len() as int)[x - p] == s[x]);
    }
}

pub proof fn lemma_ws_end_shift(s: Seq<char>, p: int, x: int)
    requires
        0 <= p <= x <= s.len(),
    ensures
        ws_end(s, x) == ws_end(s.subrange(p, s.len() as int), x - p) + p,
        x <= ws_end(s, x) <= s.len(),
    decreases s.len() - x,
{
    if x < s.len() {
        assert(s.subrange(p, s.len() as int)[x - p] == s[x]);
        if is_ws(s[x]) {
            lemma_ws_end_shift(s, p, x + 1);
        }
    }
}

pub proof fn lemma_digits_end_shift(s: Seq<char>, p: int, x: int)
    requires
        0 <= p <= x <= s.len(),
    ensures
        digits_end(s, x) == digits_end(s.subrange(p, s.len() as int), x - p) + p,
        x <= digits_end(s, x) <= s.len(),
    decreases s.len() - x,
{
    if x < s.len() {
        assert(s.subrange(p, s.len() as int)[x - p] == s[x]);
        if is_digit(s[x]) {
            lemma_digits_end_shift(s, p, x + 1);
        }
    }
}

pub proof fn lemma_ident_end_shift(s: Seq<char>, p: int, x: int)
    requires
        0 <= p <= x <= s.len(),
    ensures
        ident_end(s, x) == ident_end(s.subrange(p, s.len() as int), x - p) + p,
        x <= ident_end(s, x) <= s.len(),
    decreases s.len() - x,
{
    if x < s.len() {
        assert(s.subrange(p, s.len() as int)[x - p] == s[x]);
        if is_ident_char(s[x]) {
            lemma_ident_end_shift(s, p, x + 1);
        }
    }
}

/// Literals and variables read the same from a text and from any suffix of
/// it that holds them.
pub proof fn lemma_literals_shift(s: Seq<char>, p: int, x: int)
    requires
        0 <= p <= x <= s.len(),
    ensures
        int_literal(s, x) == shift_end(int_literal(s.subrange(p, s.len() as int), x - p), p),
        variable(s, x) == shift_end(variable(s.subrange(p, s.len() as int), x - p), p),
        int_literal(s, x) matches Some((_, q)) ==> x < q <= s.len(),
        variable(s, x) matches Some((_, q)) ==> x < q <= s.len(),
{
    let t = s.subrange(p, s.len() as int);
    lemma_at_shift(s, p, x, '-');
    lemma_at_shift(s, p, x, '$');
    let d = if at(s, x, '-') { x + 1 } else { x };
    lemma_digits_end_shift(s, p, d);
    let e = digits_end(s, d);
    assert(s.subrange(d, e) =~= t.subrange(d - p, e - p));
    if at(s, x, '$') && 0 <= x + 1 < s.len() {
        assert(t[x + 1 - p] == s[x + 1]);
        lemma_ident_end_shift(s, p, x + 2);
        let f = ident_end(s, x + 2);
        assert(s.subrange(x + 1, f) =~= t.subrange(x + 1 - p, f - p));
    }
}

/// The smaller of `a` and `b`.
pub open spec fn min(a: int, b: int) -> int {
    if a <= b {
        a
    } else {
        b
    }
}

pub proof fn lemma_at_trunc(s: Seq<char>, n: int, x: int, c: char)
    requires
        0 <= n <= s.len(),
        0 <= x,
    ensures
        at(s.subrange(0, n), x, c) == (x < n && at(s, x, c)),
{
    if x < n {
        assert(s.subrange(0, n)[x] == s[x]);
    }
}

pub proof fn lemma_ws_end_trunc(s: Seq<char>, n: int, x: int)
    requires
        0 <= x <= n <= s.len(),
    ensures
        ws_end(s.subrange(0, n), x) == min(ws_end(s, x), n),
    decreases n - x,
{
    lemma_ws_end_shift(s, x, x);
    if x < n {
        assert(s.subrange(0, n)[x] == s[x]);
        if is_ws(s[x]) {
            lemma_ws_end_trunc(s, n, x + 1);
        }
    }
}

pub proof fn lemma_digits_end_trunc(s: Seq<char>, n: int, x: int)
    requires
        0 <= x <= n <= s.len(),
    ensures
        digits_end(s.subrange(0, n), x) == min(digits_end(s, x), n),
    decreases n - x,
{
    lemma_digits_end_shift(s, x, x);
    if x < n {
        assert(s.subrange(0, n)[x] == s[x]);
        if is_digit(s[x]) {
            lemma_digits_end_trunc(s, n, x + 1);
        }
    }
}

pub proof fn lemma_ident_end_trunc(s: Seq<char>, n: int, x: int)
    requires
        0 <= x <= n <= s.len(),
    ensures
        ident_end(s.subrange(0, n), x) == min(ident_end(s, x), n),
    decreases n - x,
{
    lemma_ident_end_shift(s, x, x);
    if x < n {
        assert(s.subrange(0, n)[x] == s[x]);
        if is_ident_char(s[x]) {
            lemma_ident_end_trunc(s, n, x + 1);
        }
    }
}

/// How literals and variables read from a prefix `s[0..n]` of a text
/// relate to how they read from the text.
pub proof fn lemma_literals_trunc(s: Seq<char>, n: int, x: int)
    requires
        0 <= x <= n <= s.len(),
    ensures
        int_literal(s, x) matches Some((_, y)) && y <= n ==> int_literal(s.subrange(0, n), x)
            == int_literal(s, x),
        int_literal(s.subrange(0, n), x) matches Some((_, y)) && y < n ==> int_literal(s, x)
            == int_literal(s.subrange(0, n), x),
        int_literal(s.subrange(0, n), x) is Some ==> int_literal(s, x) is Some,
        variable(s, x) matches Some((_, y)) && y <= n ==> variable(s.subrange(0, n), x)
            == variable(s, x),
        variable(s.subrange(0, n), x) matches Some((_, y)) && y < n ==> variable(s, x)
            == variable(s.subrange(0, n), x),
        variable(s.subrange(0, n), x) is Some ==> variable(s, x) is Some,
{
    let t = s.subrange(0, n);
    lemma_at_trunc(s, n, x, '-');
    lemma_at_trunc(s, n, x, '$');
    lemma_literals_shift(s, x, x);
    let d = if at(s, x, '-') { x + 1 } else { x };
    if d <= n {
        lemma_digits_end_trunc(s, n, d);
        lemma_digits_end_shift(s, d, d);
        let e = min(digits_end(s, d), n);
        assert(t.subrange(d, e) =~= s.subrange(d, e));
    }
    if at(s, x, '$') && 0 <= x + 1 < n {
        assert(t[x + 1] == s[x + 1]);
        lemma_ident_end_shift(s, x + 2, x + 2);
        lemma_ident_end_trunc(s, n, x + 2);
        let f = min(ident_end(s, x + 2), n);
        assert(t.subrange(x + 1, f) =~= s.subrange(x + 1, f));
    }
    if at(s, x, '$') && 0 <= x + 1 < s.len() {
        lemma_ident_end_shift(s, x + 2, x + 2);
    }
}

pub fn char_at(s: &[char], p: usize, c: char) -> (r: bool)
    ensures
        r == at(s@, p as int, c),
{
    p < s.len() && s[p] == c
}

pub fn skip_ws(s: &[char], p: usize) -> (r: usize)
    requires
        p <= s@.len(),
    ensures
        r as int == ws_end(s@, p as int),
        p <= r <= s@.len(),
{
    let mut i = p;
    while i < s.len() && (s[i] == ' ' || s[i] == '\t' || s[i] == '\r' || s[i] == '\n')
        invariant
            p <= i <= s@.len(),
            ws_end(s@, p as int) == ws_end(s@, i as int),
        decreases s@.len() - i,
    {
        i = i + 1;
    }
    i
}

fn skip_digits(s: &[char], p: usize) -> (r: usize)
    requires
        p <= s@.len(),
    ensures
        r as int == digits_end(s@, p as int),
        p <= r <= s@.len(),
        forall|i: int| p <= i < r ==> is_digit(#[trigger] s@[i]),
{
    let mut i = p;
    while i < s.len() && '0' <= s[i] && s[i] <= '9'
        invariant
            p <= i <= s@.len(),
            digits_end(s@, p as int) == digits_end(s@, i as int),
            forall|j: int| p <= j < i ==> is_digit(#[trigger] s@[j]),
        decreases s@.len() - i,
    {
        i = i + 1;
    }
    i
}

fn skip_ident(s: &[char], p: usize) -> (r: usize)
    requires
        p <= s@.len(),
    ensures
        r as int == ident_end(s@, p as int),
        p <= r <= s@.len(),
{
    let mut i = p;
    while i < s.len() && (('a' <= s[i] && s[i] <= 'z') || ('A' <= s[i] && s[i] <= 'Z') || ('0'
        <= s[i] && s[i] <= '9') || s[i] == '_')
        invariant
            p <= i <= s@.len(),
            ident_end(s@, p as int) == ident_end(s@, i as int),
        decreases s@.len() - i,
    {
        i = i + 1;
    }
    i
}

/// Scans an integer literal at `p`.
pub fn scan_int(s: &[char], p: usize) -> (r: Option<(Int, usize)>)
    requires
        p <= s@.len(),
    ensures
        match r {
            Some((v, q)) => int_literal(s@, p as int) == Some((v.value(), q as int)) && p < q
                <= s@.len(),
            None => int_literal(s@, p as int) is None,
        },
{
    let neg = p < s.len() && s[p] == '-';
    let d = if neg { p + 1 } else { p };
    let e = skip_digits(s, d);
    if e == d {
        return None;
    }
    let mut digits: Vec<char> = Vec::new();
    let mut i = d;
    while i < e
        invariant
            d <= i <= e <= s@.len(),
            digits@ == s@.subrange(d as int, i as int),
        decreases e - i,
    {
        digits.push(s[i]);
        i = i + 1;
        proof {
            assert(digits@ =~= s@.subrange(d as int, i as int));
        }
    }
    let v = Int::from_digits(digits.as_slice());
    if neg {
        Some((v.neg(), e))
    } else {
        Some((v, e))
    }
}

/// Scans a variable reference at `p`; the name comes without its `$`.
pub fn scan_variable(s: &[char], p: usize) -> (r: Option<(String, usize)>)
    requires
        p <= s@.len(),
    ensures
        match r {
            Some((n, q)) => variable(s@, p as int) == Some((n@, q as int)) && p < q <= s@.len(),
            None => variable(s@, p as int) is None,
        },
{
    if !(p < s.len() && s[p] == '$' && p + 1 < s.len()) {
        return None;
    }
    let c = s[p + 1];
    if !(('a' <= c && c <= 'z') || ('A' <= c && c <= 'Z') || c == '_') {
        return None;
    }
    let e = skip_ident(s, p + 2);
    let mut name = String::new();
    let mut i = p + 1;
    while i < e
        invariant
            p + 1 <= i <= e <= s@.len(),
            name@ == s@.subrange(p + 1, i as int),
        decreases e - i,
    {
        push_char(&mut name, s[i]);
        i = i + 1;
        proof {
            assert(name@ =~= s@.subrange(p + 1, i as int));
        }
    }
    Some((name, e))
}

} // verus!
