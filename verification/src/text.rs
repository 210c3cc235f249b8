//! Character-level text primitives with their std meaning: conversion
//! between strings and character vectors, Unicode whitespace, trimming,
//! whitespace tokenization, substring search and decimal integers.

use vstd::prelude::*;
use vstd::std_specs::iter::IteratorSpec;

verus! {

/// The characters of `s`, in order.
pub fn chars_of(s: &str) -> (r: Vec<char>)
    ensures
        r@ == s@,
{
    broadcast use vstd::string::group_string_axioms;
    let mut r: Vec<char> = Vec::new();
    for c in iter: s.chars()
        invariant
            r@ == iter.seq().take(iter.index() as int),
    {
        r.push(c);
    }
    assert(r@ =~= s@);
    r
}

/// Appends `c` to `s` (std `String::push`).
#[verifier::external_body]
fn push_char(s: &mut String, c: char)
    ensures
        final(s)@ == old(s)@.push(c),
{
    s.push(c);
}

/// The string made of the characters of `v`.
pub fn string_of(v: &Vec<char>) -> (s: String)
    ensures
        s@ == v@,
{
    let mut s = String::new();
    let mut k: usize = 0;
    while k < v.len()
        invariant
            k <= v@.len(),
            s@ == v@.take(k as int),
        decreases v@.len() - k,
    {
        push_char(&mut s, v[k]);
        k = k + 1;
        assert(s@ =~= v@.take(k as int));
    }
    assert(v@.take(k as int) =~= v@);
    s
}

/// Unicode White_Space, the class that `char::is_whitespace` tests.
pub open spec fn is_ws(c: char) -> bool {
    ||| ('\u{9}' <= c && c <= '\u{d}')
    ||| c == ' '
    ||| c == '\u{85}'
    ||| c == '\u{a0}'
    ||| c == '\u{1680}'
    ||| ('\u{2000}' <= c && c <= '\u{200a}')
    ||| c == '\u{2028}'
    ||| c == '\u{2029}'
    ||| c == '\u{202f}'
    ||| c == '\u{205f}'
    ||| c == '\u{3000}'
}

/// Whether `c` is Unicode whitespace.
pub fn is_whitespace(c: char) -> (r: bool)
    ensures
        r == is_ws(c),
{
    ('\u{9}' <= c && c <= '\u{d}') || c == ' ' || c == '\u{85}' || c == '\u{a0}' || c == '\u{1680}'
        || ('\u{2000}' <= c && c <= '\u{200a}') || c == '\u{2028}' || c == '\u{2029}' || c
        == '\u{202f}' || c == '\u{205f}' || c == '\u{3000}'
}

/// The tokens completed within the first k characters, and the token still
/// being read after them.
pub open spec fn tok_state(s: Seq<char>, k: int) -> (Seq<Seq<char>>, Seq<char>)
    decreases k,
{
    if k <= 0 {
        (Seq::empty(), Seq::empty())
    } else {
        let prev = tok_state(s, k - 1);
        if is_ws(s[k - 1]) {
            if prev.1.len() > 0 {
                (prev.0.push(prev.1), Seq::empty())
            } else {
                prev
            }
        } else {
            (prev.0, prev.1.push(s[k - 1]))
        }
    }
}

/// The whitespace-separated tokens of `s` (what `str::split_whitespace`
/// yields): the maximal runs of non-whitespace characters, in order.
pub open spec fn ws_tokens(s: Seq<char>) -> Seq<Seq<char>> {
    let st = tok_state(s, s.len() as int);
    if st.1.len() > 0 {
        st.0.push(st.1)
    } else {
        st.0
    }
}

/// The whitespace-separated tokens of `s`.
pub fn split_ws(s: &Vec<char>) -> (r: Vec<Vec<char>>)
    ensures
        r.deep_view() == ws_tokens(s@),
{
    let mut done: Vec<Vec<char>> = Vec::new();
    let mut cur: Vec<char> = Vec::new();
    let mut k: usize = 0;
    while k < s.len()
        invariant
            k <= s@.len(),
            done.deep_view() == tok_state(s@, k as int).0,
            cur@ == tok_state(s@, k as int).1,
        decreases s@.len() - k,
    {
        let c = s[k];
        if is_whitespace(c) {
            if cur.len() > 0 {
                let ghost d0 = done.deep_view();
                let ghost c0 = cur@;
                assert(cur.deep_view() =~= c0);
                done.push(cur);
                cur = Vec::new();
                assert(done.deep_view() =~= d0.push(c0));
            }
        } else {
            cur.push(c);
        }
        k = k + 1;
    }
    if cur.len() > 0 {
        let ghost d0 = done.deep_view();
        let ghost c0 = cur@;
        assert(cur.deep_view() =~= c0);
        done.push(cur);
        assert(done.deep_view() =~= d0.push(c0));
    }
    done
}

/// `s` without its leading whitespace.
pub open spec fn trim_start(s: Seq<char>) -> Seq<char>
    decreases s.len(),
{
    if s.len() > 0 && is_ws(s[0]) {
        trim_start(s.drop_first())
    } else {
        s
    }
}

/// `s` without its trailing whitespace.
pub open spec fn trim_end(s: Seq<char>) -> Seq<char>
    decreases s.len(),
{
    if s.len() > 0 && is_ws(s.last()) {
        trim_end(s.drop_last())
    } else {
        s
    }
}

/// `s` without leading and trailing whitespace (`str::trim`).
pub open spec fn trim(s: Seq<char>) -> Seq<char> {
    trim_end(trim_start(s))
}

pub proof fn lemma_trim_start_at(s: Seq<char>, i: int)
    requires
        0 <= i <= s.len(),
        forall|p: int| 0 <= p < i ==> is_ws(#[trigger] s[p]),
        i == s.len() || !is_ws(s[i]),
    ensures
        trim_start(s) == s.skip(i),
    decreases i,
{
    if i > 0 {
        lemma_trim_start_at(s.drop_first(), i - 1);
        assert(s.drop_first().skip(i - 1) =~= s.skip(i));
    } else {
        assert(s.skip(0) =~= s);
    }
}

pub proof fn lemma_trim_end_at(s: Seq<char>, j: int)
    requires
        0 <= j <= s.len(),
        forall|p: int| j <= p < s.len() ==> is_ws(#[trigger] s[p]),
        j == 0 || !is_ws(s[j - 1]),
    ensures
        trim_end(s) == s.take(j),
    decreases s.len() - j,
{
    if j < s.len() {
        lemma_trim_end_at(s.drop_last(), j);
        assert(s.drop_last().take(j) =~= s.take(j));
    } else {
        assert(s.take(j) =~= s);
    }
}

/// `s` without leading and trailing whitespace.
pub fn trim_chars(s: &Vec<char>) -> (r: Vec<char>)
    ensures
        r@ == trim(s@),
{
    let mut i: usize = 0;
    while i < s.len() && is_whitespace(s[i])
        invariant
            i <= s@.len(),
            forall|p: int| 0 <= p < i ==> is_ws(#[trigger] s@[p]),
        decreases s@.len() - i,
    {
        i = i + 1;
    }
    proof {
        lemma_trim_start_at(s@, i as int);
    }
    let ghost t = s@.skip(i as int);
    let mut j: usize = s.len();
    while j > i && is_whitespace(s[j - 1])
        invariant
            i <= j <= s@.len(),
            t == s@.skip(i as int),
            forall|p: int| j <= p < s@.len() ==> is_ws(#[trigger] s@[p]),
        decreases j,
    {
        j = j - 1;
    }
    proof {
        assert forall|p: int| j - i <= p < t.len() implies is_ws(#[trigger] t[p]) by {
            assert(t[p] == s@[p + i]);
        }
        lemma_trim_end_at(t, j - i);
    }
    let mut r: Vec<char> = Vec::new();
    let mut k: usize = i;
    while k < j
        invariant
            i <= k <= j <= s@.len(),
            r@ == s@.subrange(i as int, k as int),
        decreases j - k,
    {
        r.push(s[k]);
        k = k + 1;
        assert(r@ =~= s@.subrange(i as int, k as int));
    }
    assert(r@ =~= t.take(j - i));
    r
}

/// `p` occurs in `s` starting at position i.
pub open spec fn occurs_at(s: Seq<char>, p: Seq<char>, i: int) -> bool {
    0 <= i && i + p.len() <= s.len() && s.subrange(i, i + p.len()) == p
}

/// `p` occurs somewhere in `s` (`str::contains`).
pub open spec fn contains_seq(s: Seq<char>, p: Seq<char>) -> bool {
    exists|i: int| occurs_at(s, p, i)
}

fn matches_at(s: &Vec<char>, p: &Vec<char>, i: usize) -> (r: bool)
    requires
        i + p@.len() <= s@.len(),
    ensures
        r == occurs_at(s@, p@, i as int),
{
    let _n = s.len();
    let mut k: usize = 0;
    while k < p.len()
        invariant
            k <= p@.len(),
            _n == s@.len(),
            i + p@.len() <= s@.len(),
            forall|t: int| 0 <= t < k ==> s@[i + t] == p@[t],
        decreases p@.len() - k,
    {
        if s[i + k] != p[k] {
            assert(s@.subrange(i as int, i + p@.len())[k as int] != p@[k as int]);
            return false;
        }
        k = k + 1;
    }
    assert(s@.subrange(i as int, i + p@.len()) =~= p@);
    true
}

/// Whether `p` occurs in `s`.
pub fn contains_chars(s: &Vec<char>, p: &Vec<char>) -> (r: bool)
    ensures
        r == contains_seq(s@, p@),
{
    proof {
        assert forall|q: int| q > s@.len() - p@.len() implies !occurs_at(s@, p@, q) by {}
    }
    if p.len() > s.len() {
        return false;
    }
    let last = s.len() - p.len();
    let mut i: usize = 0;
    while i <= last
        invariant
            last + p@.len() == s@.len(),
            forall|q: int| 0 <= q < i ==> !occurs_at(s@, p@, q),
        decreases last + 1 - i,
    {
        if matches_at(s, p, i) {
            return true;
        }
        if i == last {
            assert(forall|q: int| 0 <= q <= last ==> !occurs_at(s@, p@, q));
            return false;
        }
        i = i + 1;
    }
    false
}

/// Whether `s` begins with `p` (`str::starts_with`).
pub fn starts_with_chars(s: &Vec<char>, p: &Vec<char>) -> (r: bool)
    ensures
        r == occurs_at(s@, p@, 0),
{
    if p.len() > s.len() {
        return false;
    }
    matches_at(s, p, 0)
}

/// The characters of `t` up to its first '=' (or all of them).
pub open spec fn until_eq(t: Seq<char>) -> Seq<char>
    decreases t.len(),
{
    if t.len() == 0 || t[0] == '=' {
        Seq::empty()
    } else {
        seq![t[0]] + until_eq(t.drop_first())
    }
}

/// The second piece of `s` split at '=' (`s.split('=').nth(1)`): present
/// when `s` holds an '=', it runs from after the first '=' to the next '='
/// or the end.
pub open spec fn second_eq_field(s: Seq<char>) -> Option<Seq<char>>
    decreases s.len(),
{
    if s.len() == 0 {
        None
    } else if s[0] == '=' {
        Some(until_eq(s.drop_first()))
    } else {
        second_eq_field(s.drop_first())
    }
}

pub proof fn lemma_second_eq_field_skip(s: Seq<char>, k: int)
    requires
        0 <= k <= s.len(),
        forall|p: int| 0 <= p < k ==> #[trigger] s[p] != '=',
    ensures
        second_eq_field(s) == second_eq_field(s.skip(k)),
    decreases k,
{
    if k > 0 {
        lemma_second_eq_field_skip(s.drop_first(), k - 1);
        assert(s.drop_first().skip(k - 1) =~= s.skip(k));
    } else {
        assert(s.skip(0) =~= s);
    }
}

pub proof fn lemma_until_eq_take(t: Seq<char>, j: int)
    requires
        0 <= j <= t.len(),
        forall|p: int| 0 <= p < j ==> #[trigger] t[p] != '=',
        j == t.len() || t[j] == '=',
    ensures
        until_eq(t) == t.take(j),
    decreases j,
{
    if j > 0 {
        lemma_until_eq_take(t.drop_first(), j - 1);
        assert(seq![t[0]] + t.drop_first().take(j - 1) =~= t.take(j));
    } else {
        assert(t.take(0) =~= Seq::<char>::empty());
    }
}

/// The text between the first '=' of `s` and the next one (or the end), if
/// `s` holds an '='.
pub fn second_eq_piece(s: &Vec<char>) -> (r: Option<Vec<char>>)
    ensures
        match r {
            Some(v) => second_eq_field(s@) == Some(v@),
            None => second_eq_field(s@) is None,
        },
{
    let mut i: usize = 0;
    while i < s.len() && s[i] != '='
        invariant
            i <= s@.len(),
            forall|p: int| 0 <= p < i ==> #[trigger] s@[p] != '=',
        decreases s@.len() - i,
    {
        i = i + 1;
    }
    proof {
        lemma_second_eq_field_skip(s@, i as int);
    }
    if i == s.len() {
        assert(s@.skip(i as int).len() == 0);
        return None;
    }
    let mut j: usize = i + 1;
    while j < s.len() && s[j] != '='
        invariant
            i < j <= s@.len(),
            forall|p: int| i < p < j ==> #[trigger] s@[p] != '=',
        decreases s@.len() - j,
    {
        j = j + 1;
    }
    let ghost t = s@.skip(i + 1);
    proof {
        assert(s@.skip(i as int).drop_first() =~= t);
        assert forall|p: int| 0 <= p < j - i - 1 implies #[trigger] t[p] != '=' by {
            assert(t[p] == s@[p + i + 1]);
        }
        lemma_until_eq_take(t, j - i - 1);
    }
    let mut r: Vec<char> = Vec::new();
    let mut k: usize = i + 1;
    while k < j
        invariant
            i < k <= j <= s@.len(),
            r@ == s@.subrange(i + 1, k as int),
        decreases j - k,
    {
        r.push(s[k]);
        k = k + 1;
        assert(r@ =~= s@.subrange(i + 1, k as int));
    }
    assert(r@ =~= t.take(j - i - 1));
    Some(r)
}

/// An ASCII decimal digit.
pub open spec fn is_digit(c: char) -> bool {
    '0' <= c && c <= '9'
}

/// The value of a decimal digit.
pub open spec fn digit_value(c: char) -> nat {
    (c as u32 - '0' as u32) as nat
}

/// Every character of `d` is a decimal digit.
pub open spec fn all_digits(d: Seq<char>) -> bool {
    forall|i: int| 0 <= i < d.len() ==> is_digit(#[trigger] d[i])
}

/// The number that the digits `d` spell in base ten.
pub open spec fn decimal(d: Seq<char>) -> nat
    decreases d.len(),
{
    if d.len() == 0 {
        0
    } else {
        decimal(d.drop_last()) * 10 + digit_value(d.last())
    }
}

/// The digits after an optional leading '+' (for unsigned types).
pub open spec fn unsigned_digits(s: Seq<char>) -> Seq<char> {
    if s.len() > 0 && s[0] == '+' {
        s.drop_first()
    } else {
        s
    }
}

/// What `str::parse::<usize>` gives: `Some` exactly when `s` is an optional
/// '+' followed by at least one decimal digit and nothing else, and the
/// number fits in a usize.
pub open spec fn usize_of(s: Seq<char>) -> Option<usize> {
    let d = unsigned_digits(s);
    if d.len() > 0 && all_digits(d) && decimal(d) <= usize::MAX {
        Some(decimal(d) as usize)
    } else {
        None
    }
}

/// The digits after an optional leading '+' or '-' (for signed types).
pub open spec fn signed_digits(s: Seq<char>) -> Seq<char> {
    if s.len() > 0 && (s[0] == '+' || s[0] == '-') {
        s.drop_first()
    } else {
        s
    }
}

/// What `str::parse::<i32>` gives: an optional sign, at least one decimal
/// digit and nothing else, and a value in the i32 range.
pub open spec fn i32_of(s: Seq<char>) -> Option<i32> {
    let d = signed_digits(s);
    let v: int = if s.len() > 0 && s[0] == '-' {
        -decimal(d)
    } else {
        decimal(d) as int
    };
    if d.len() > 0 && all_digits(d) && i32::MIN <= v <= i32::MAX {
        Some(v as i32)
    } else {
        None
    }
}

proof fn lemma_decimal_step(d: Seq<char>, k: int)
    requires
        0 <= k < d.len(),
    ensures
        decimal(d.take(k + 1)) == decimal(d.take(k)) * 10 + digit_value(d[k]),
{
    assert(d.take(k + 1).drop_last() =~= d.take(k));
}

proof fn lemma_decimal_prefix_le(d: Seq<char>, k: int)
    requires
        0 <= k <= d.len(),
    ensures
        decimal(d.take(k)) <= decimal(d),
    decreases d.len(),
{
    if k < d.len() {
        lemma_decimal_prefix_le(d.drop_last(), k);
        assert(d.drop_last().take(k) =~= d.take(k));
    } else {
        assert(d.take(k) =~= d);
    }
}

/// The value of the digits d[start..], each a decimal digit, when it does
/// not exceed `limit`; `None` when it does or when some character is not a
/// digit or there is none.
fn digits_value(d: &Vec<char>, start: usize, limit: u64) -> (r: Option<u64>)
    requires
        start <= d@.len(),
    ensures
        match r {
            Some(v) => {
                &&& d@.skip(start as int).len() > 0
                &&& all_digits(d@.skip(start as int))
                &&& v == decimal(d@.skip(start as int))
                &&& v <= limit
            },
            None => !(d@.skip(start as int).len() > 0 && all_digits(d@.skip(start as int))
                && decimal(d@.skip(start as int)) <= limit),
        },
{
    let ghost t = d@.skip(start as int);
    if start == d.len() {
        return None;
    }
    let mut acc: u64 = 0;
    let mut k: usize = start;
    while k < d.len()
        invariant
            start <= k <= d@.len(),
            t == d@.skip(start as int),
            all_digits(t.take(k - start)),
            acc == decimal(t.take(k - start)),
            acc <= limit,
        decreases d@.len() - k,
    {
        let c = d[k];
        if !('0' <= c && c <= '9') {
            assert(!is_digit(t[k - start]));
            return None;
        }
        let dv = (c as u32 - '0' as u32) as u64;
        proof {
            lemma_decimal_step(t, k - start);
        }
        if dv > limit || acc > (limit - dv) / 10 {
            proof {
                assert(acc * 10 + dv > limit) by (nonlinear_arith)
                    requires
                        dv > limit || acc > (limit - dv) / 10,
                        acc >= 0,
                ;
                lemma_decimal_prefix_le(t, k - start + 1);
            }
            return None;
        }
        proof {
            assert(acc * 10 + dv <= limit) by (nonlinear_arith)
                requires
                    acc <= (limit - dv) / 10,
                    dv <= limit,
            ;
        }
        acc = acc * 10 + dv;
        k = k + 1;
        proof {
            assert forall|i: int| 0 <= i < k - start implies is_digit(#[trigger] t.take(k - start)[i]) by {
                if i < k - start - 1 {
                    assert(t.take(k - start)[i] == t.take(k - start - 1)[i]);
                }
            }
        }
    }
    assert(t.take(k - start) =~= t);
    Some(acc)
}

/// Parses a decimal usize as `str::parse::<usize>` does.
pub fn parse_usize(s: &Vec<char>) -> (r: Option<usize>)
    ensures
        r == usize_of(s@),
{
    let start: usize = if s.len() > 0 && s[0] == '+' {
        1
    } else {
        0
    };
    assert(s@.skip(start as int) =~= unsigned_digits(s@));
    match digits_value(s, start, usize::MAX as u64) {
        Some(v) => Some(v as usize),
        None => None,
    }
}

/// Parses a decimal i32 as `str::parse::<i32>` does.
pub fn parse_i32(s: &Vec<char>) -> (r: Option<i32>)
    ensures
        r == i32_of(s@),
{
    let neg = s.len() > 0 && s[0] == '-';
    let start: usize = if s.len() > 0 && (s[0] == '+' || s[0] == '-') {
        1
    } else {
        0
    };
    assert(s@.skip(start as int) =~= signed_digits(s@));
    let limit: u64 = if neg {
        2147483648
    } else {
        2147483647
    };
    match digits_value(s, start, limit) {
        Some(v) => {
            if neg {
                if v == 2147483648 {
                    Some(-2147483648i32)
                } else {
                    Some(-(v as i32))
                }
            } else {
                Some(v as i32)
            }
        },
        None => None,
    }
}

/// ASCII lower case.
pub open spec fn ascii_lower(c: char) -> char {
    if 'A' <= c && c <= 'Z' {
        ((c as u32) + 32) as char
    } else {
        c
    }
}

/// `t` equals the lower-case word `w` once its ASCII letters are lowered.
pub open spec fn equals_ignoring_case(t: Seq<char>, w: Seq<char>) -> bool {
    t.len() == w.len() && forall|i: int| 0 <= i < t.len() ==> ascii_lower(#[trigger] t[i]) == w[i]
}

/// The words for infinity and not-a-number.
pub open spec fn is_special_float(t: Seq<char>) -> bool {
    ||| equals_ignoring_case(t, seq!['i', 'n', 'f'])
    ||| equals_ignoring_case(t, seq!['i', 'n', 'f', 'i', 'n', 'i', 't', 'y'])
    ||| equals_ignoring_case(t, seq!['n', 'a', 'n'])
}

/// Digits with at most one '.', and at least one digit.
pub open spec fn is_mantissa(u: Seq<char>) -> bool {
    &&& forall|i: int| 0 <= i < u.len() ==> is_digit(#[trigger] u[i]) || u[i] == '.'
    &&& forall|i: int, j: int| 0 <= i < u.len() && 0 <= j < u.len() && #[trigger] u[i] == '.' && #[trigger] u[j] == '.' ==> i == j
    &&& exists|i: int| 0 <= i < u.len() && is_digit(#[trigger] u[i])
}

/// An optional sign followed by at least one digit.
pub open spec fn is_exponent(v: Seq<char>) -> bool {
    let w = signed_digits(v);
    w.len() > 0 && all_digits(w)
}

/// An exponent marker.
pub open spec fn is_exp_char(c: char) -> bool {
    c == 'e' || c == 'E'
}

/// A mantissa, optionally followed by an exponent marker and an exponent.
pub open spec fn is_decimal_number(t: Seq<char>) -> bool {
    exists|k: int|
        0 <= k <= t.len() && is_mantissa(#[trigger] t.take(k)) && (k == t.len() || (is_exp_char(t[k])
            && is_exponent(t.skip(k + 1))))
}

/// The syntax that `str::parse::<f64>` accepts: an optional sign followed
/// by `inf`, `infinity` or `nan` (in any case) or by a decimal number
/// (digits with at most one point and at least one digit, then optionally
/// `e`/`E`, an optional sign and at least one digit).
pub open spec fn float_syntax(s: Seq<char>) -> bool {
    let t = signed_digits(s);
    is_special_float(t) || is_decimal_number(t)
}

fn lower_char(c: char) -> (r: char)
    ensures
        r == ascii_lower(c),
{
    if 'A' <= c && c <= 'Z' {
        ((c as u8) + 32u8) as char
    } else {
        c
    }
}

fn equals_word_ci(s: &Vec<char>, start: usize, w: &Vec<char>) -> (r: bool)
    requires
        start <= s@.len(),
    ensures
        r == equals_ignoring_case(s@.skip(start as int), w@),
{
    let ghost t = s@.skip(start as int);
    let n = s.len();
    if n - start != w.len() {
        return false;
    }
    let mut k: usize = 0;
    while k < w.len()
        invariant
            k <= w@.len(),
            n == s@.len(),
            start + w@.len() == n,
            t == s@.skip(start as int),
            t.len() == w@.len(),
            forall|i: int| 0 <= i < k ==> ascii_lower(#[trigger] t[i]) == w@[i],
        decreases w@.len() - k,
    {
        assert(t[k as int] == s@[start + k]);
        if lower_char(s[start + k]) != w[k] {
            return false;
        }
        k = k + 1;
    }
    true
}

/// Whether d[start..end] is a mantissa.
fn mantissa_ok(d: &Vec<char>, start: usize, end: usize) -> (r: bool)
    requires
        start <= end <= d@.len(),
    ensures
        r == is_mantissa(d@.subrange(start as int, end as int)),
{
    let ghost u = d@.subrange(start as int, end as int);
    let mut dots: usize = 0;
    let mut digits: usize = 0;
    let mut k: usize = start;
    let ghost mut dot_at: int = 0;
    while k < end
        invariant
            start <= k <= end <= d@.len(),
            u == d@.subrange(start as int, end as int),
            forall|i: int| 0 <= i < k - start ==> is_digit(#[trigger] u[i]) || u[i] == '.',
            dots <= 1,
            dots == 0 ==> forall|i: int| 0 <= i < k - start ==> #[trigger] u[i] != '.',
            dots == 1 ==> 0 <= dot_at < k - start && u[dot_at] == '.' && forall|i: int|
                0 <= i < k - start && #[trigger] u[i] == '.' ==> i == dot_at,
            digits <= k - start,
            digits > 0 <==> exists|i: int| 0 <= i < k - start && is_digit(#[trigger] u[i]),
        decreases end - k,
    {
        let c = d[k];
        assert(u[k - start] == c);
        if '0' <= c && c <= '9' {
            digits = digits + 1;
            assert(is_digit(u[k - start]));
        } else if c == '.' {
            if dots == 1 {
                proof {
                    let i = dot_at;
                    let j = k - start;
                    assert(u[i] == '.' && u[j] == '.' && i != j);
                }
                return false;
            }
            dots = 1;
            proof {
                dot_at = k - start;
                if digits == 0 {
                    assert forall|i: int| 0 <= i < k + 1 - start implies !is_digit(#[trigger] u[i]) by {
                        if i < k - start {
                            assert(!(0 <= i < k - start && is_digit(u[i])));
                        }
                    }
                }
            }
        } else {
            assert(!(is_digit(u[k - start]) || u[k - start] == '.'));
            return false;
        }
        k = k + 1;
    }
    digits > 0
}

/// Whether d[start..] is an exponent.
fn exponent_ok(d: &Vec<char>, start: usize) -> (r: bool)
    requires
        start <= d@.len(),
    ensures
        r == is_exponent(d@.skip(start as int)),
{
    let ghost v = d@.skip(start as int);
    let s2: usize = if start < d.len() && (d[start] == '+' || d[start] == '-') {
        start + 1
    } else {
        start
    };
    assert(d@.skip(s2 as int) =~= signed_digits(v));
    let ghost w = d@.skip(s2 as int);
    if s2 == d.len() {
        assert(w.len() == 0);
        return false;
    }
    let mut k: usize = s2;
    while k < d.len()
        invariant
            s2 <= k <= d@.len(),
            w == d@.skip(s2 as int),
            v == d@.skip(start as int),
            signed_digits(v) == w,
            forall|i: int| 0 <= i < k - s2 ==> is_digit(#[trigger] w[i]),
        decreases d@.len() - k,
    {
        assert(w[k - s2] == d@[k as int]);
        if !('0' <= d[k] && d[k] <= '9') {
            assert(!is_digit(w[k - s2]));
            assert(!all_digits(w));
            assert(signed_digits(v) == w);
            return false;
        }
        k = k + 1;
    }
    true
}

proof fn lemma_decimal_number_at(t: Seq<char>, k: int)
    requires
        0 <= k <= t.len(),
        forall|i: int| 0 <= i < k ==> !is_exp_char(#[trigger] t[i]),
        k == t.len() || is_exp_char(t[k]),
    ensures
        is_decimal_number(t) == (is_mantissa(t.take(k)) && (k == t.len() || is_exponent(t.skip(k + 1)))),
{
    if !(is_mantissa(t.take(k)) && (k == t.len() || is_exponent(t.skip(k + 1)))) {
        assert forall|k2: int|
            0 <= k2 <= t.len() && is_mantissa(#[trigger] t.take(k2)) implies !(k2 == t.len() || (
        is_exp_char(t[k2]) && is_exponent(t.skip(k2 + 1)))) by {
            if k2 < k {
                assert(!is_exp_char(t[k2]));
            } else if k2 > k {
                assert(t.take(k2)[k] == t[k]);
                assert(!(is_digit(t.take(k2)[k]) || t.take(k2)[k] == '.'));
            }
        }
    }
}

/// Whether `s` is a number in the syntax `str::parse::<f64>` accepts.
pub fn is_float_literal(s: &Vec<char>) -> (r: bool)
    ensures
        r == float_syntax(s@),
{
    let start: usize = if s.len() > 0 && (s[0] == '+' || s[0] == '-') {
        1
    } else {
        0
    };
    let ghost t = s@.skip(start as int);
    assert(t =~= signed_digits(s@));
    let inf = vec!['i', 'n', 'f'];
    let infinity = vec!['i', 'n', 'f', 'i', 'n', 'i', 't', 'y'];
    let nan = vec!['n', 'a', 'n'];
    assert(inf@ =~= seq!['i', 'n', 'f']);
    assert(infinity@ =~= seq!['i', 'n', 'f', 'i', 'n', 'i', 't', 'y']);
    assert(nan@ =~= seq!['n', 'a', 'n']);
    if equals_word_ci(s, start, &inf) || equals_word_ci(s, start, &infinity) || equals_word_ci(
        s,
        start,
        &nan,
    ) {
        return true;
    }
    let mut e: usize = start;
    while e < s.len() && !(s[e] == 'e' || s[e] == 'E')
        invariant
            start <= e <= s@.len(),
            t == s@.skip(start as int),
            forall|i: int| 0 <= i < e - start ==> !is_exp_char(#[trigger] t[i]),
        decreases s@.len() - e,
    {
        e = e + 1;
    }
    let k = e - start;
    assert(s@.subrange(start as int, e as int) =~= t.take(k as int));
    let m = mantissa_ok(s, start, e);
    let x = if e == s.len() {
        true
    } else {
        assert(s@.skip(e + 1) =~= t.skip(k + 1));
        exponent_ok(s, e + 1)
    };
    proof {
        lemma_decimal_number_at(t, k as int);
    }
    m && x
}

/// The digit character of d < 10.
pub open spec fn digit_char(d: nat) -> char {
    if d == 0 { '0' } else if d == 1 { '1' } else if d == 2 { '2' } else if d == 3 { '3' }
    else if d == 4 { '4' } else if d == 5 { '5' } else if d == 6 { '6' } else if d == 7 { '7' }
    else if d == 8 { '8' } else { '9' }
}

/// The decimal representation of n, without sign or leading zeros.
pub open spec fn dec_string(n: nat) -> Seq<char>
    decreases n,
{
    if n < 10 {
        seq![digit_char(n)]
    } else {
        dec_string(n / 10).push(digit_char(n % 10))
    }
}

/// The decimal representation is a nonempty digit string that spells n.
pub proof fn lemma_dec_string(n: nat)
    ensures
        dec_string(n).len() > 0,
        all_digits(dec_string(n)),
        decimal(dec_string(n)) == n,
        dec_string(n)[0] != '+' && dec_string(n)[0] != '-',
    decreases n,
{
    let d = n % 10;
    assert(digit_value(digit_char(d)) == d);
    if n < 10 {
        assert(dec_string(n).drop_last() =~= Seq::<char>::empty());
        assert(decimal(dec_string(n)) == decimal(Seq::<char>::empty()) * 10 + digit_value(digit_char(n)));
    }
    if n >= 10 {
        lemma_dec_string(n / 10);
        let p = dec_string(n / 10);
        assert(dec_string(n).drop_last() =~= p);
        assert(decimal(dec_string(n)) == decimal(p) * 10 + digit_value(digit_char(d)));
        assert forall|i: int| 0 <= i < dec_string(n).len() implies is_digit(#[trigger] dec_string(n)[i]) by {
            if i < p.len() {
                assert(dec_string(n)[i] == p[i]);
            }
        }
    }
}

fn digit_of(d: usize) -> (c: char)
    requires
        d < 10,
    ensures
        c == digit_char(d as nat),
{
    if d == 0 { '0' } else if d == 1 { '1' } else if d == 2 { '2' } else if d == 3 { '3' }
    else if d == 4 { '4' } else if d == 5 { '5' } else if d == 6 { '6' } else if d == 7 { '7' }
    else if d == 8 { '8' } else { '9' }
}

/// The decimal digits of n.
pub fn decimal_chars(n: usize) -> (r: Vec<char>)
    ensures
        r@ == dec_string(n as nat),
{
    let mut digits: Vec<char> = Vec::new();
    let mut v: usize = n;
    let ghost mut rest: Seq<char> = Seq::empty();
    // digits holds the low digits of n in reverse order
    while v >= 10
        invariant
            dec_string(n as nat) == dec_string(v as nat) + digits@.reverse(),
        decreases v,
    {
        let d = v % 10;
        let c = digit_of(d);
        let ghost d0 = digits@;
        digits.push(c);
        assert(digits@.reverse() =~= seq![c] + d0.reverse());
        assert(dec_string(v as nat) == dec_string((v / 10) as nat).push(c));
        assert(dec_string((v / 10) as nat).push(c) + d0.reverse() =~= dec_string((v / 10) as nat) + (seq![c] + d0.reverse()));
        v = v / 10;
    }
    let c0 = digit_of(v);
    let mut r: Vec<char> = Vec::new();
    r.push(c0);
    let mut k: usize = digits.len();
    while k > 0
        invariant
            k <= digits@.len(),
            r@ == seq![c0] + digits@.reverse().take((digits@.len() - k) as int),
        decreases k,
    {
        k = k - 1;
        r.push(digits[k]);
        assert(r@ =~= seq![c0] + digits@.reverse().take((digits@.len() - k) as int));
    }
    assert(digits@.reverse().take(digits@.len() as int) =~= digits@.reverse());
    r
}

/// No character of `t` is whitespace.
pub open spec fn no_ws(t: Seq<char>) -> bool {
    forall|i: int| 0 <= i < t.len() ==> !is_ws(#[trigger] t[i])
}

/// Every character of `t` is whitespace.
pub open spec fn all_ws(t: Seq<char>) -> bool {
    forall|i: int| 0 <= i < t.len() ==> is_ws(#[trigger] t[i])
}

/// The tokens `toks`, each preceded by `sep`.
pub open spec fn spaced(toks: Seq<Seq<char>>, sep: Seq<char>) -> Seq<char>
    decreases toks.len(),
{
    if toks.len() == 0 {
        Seq::empty()
    } else {
        spaced(toks.drop_last(), sep) + sep + toks.last()
    }
}

proof fn lemma_tok_state_prefix(s: Seq<char>, r: Seq<char>, k: int)
    requires
        0 <= k <= s.len(),
    ensures
        tok_state(s + r, k) == tok_state(s, k),
    decreases k,
{
    if k > 0 {
        lemma_tok_state_prefix(s, r, k - 1);
        assert((s + r)[k - 1] == s[k - 1]);
    }
}

proof fn lemma_tok_state_ws_run(u: Seq<char>, k: int, n: int)
    requires
        0 <= k,
        0 <= n,
        k + n <= u.len(),
        tok_state(u, k).1.len() == 0,
        forall|i: int| k <= i < k + n ==> is_ws(#[trigger] u[i]),
    ensures
        tok_state(u, k + n) == tok_state(u, k),
    decreases n,
{
    if n > 0 {
        lemma_tok_state_ws_run(u, k, n - 1);
        assert(is_ws(u[k + n - 1]));
    }
}

proof fn lemma_tok_state_word_run(u: Seq<char>, k: int, n: int)
    requires
        0 <= k,
        0 <= n,
        k + n <= u.len(),
        tok_state(u, k).1.len() == 0,
        forall|i: int| k <= i < k + n ==> !is_ws(#[trigger] u[i]),
    ensures
        tok_state(u, k + n) == (tok_state(u, k).0, u.subrange(k, k + n)),
    decreases n,
{
    if n > 0 {
        lemma_tok_state_word_run(u, k, n - 1);
        assert(!is_ws(u[k + n - 1]));
        assert(u.subrange(k, k + n - 1).push(u[k + n - 1]) =~= u.subrange(k, k + n));
    } else {
        assert(u.subrange(k, k) =~= Seq::<char>::empty());
    }
}

/// Whitespace followed by a word adds that word as one more token.
pub proof fn lemma_ws_tokens_append(s: Seq<char>, sep: Seq<char>, t: Seq<char>)
    requires
        sep.len() > 0,
        all_ws(sep),
        t.len() > 0,
        no_ws(t),
    ensures
        ws_tokens(s + sep + t) == ws_tokens(s).push(t),
{
    let u = s + sep + t;
    let l = s.len() as int;
    assert(u == s + (sep + t));
    lemma_tok_state_prefix(s, sep + t, l);
    assert(is_ws(u[l]));
    assert(tok_state(u, l + 1).1.len() == 0);
    assert(tok_state(u, l + 1).0 == ws_tokens(s));
    assert forall|i: int| l + 1 <= i < l + 1 + (sep.len() - 1) implies is_ws(#[trigger] u[i]) by {
        assert(u[i] == sep[i - l]);
    }
    lemma_tok_state_ws_run(u, l + 1, sep.len() - 1);
    let k = l + sep.len();
    assert forall|i: int| k <= i < k + t.len() implies !is_ws(#[trigger] u[i]) by {
        assert(u[i] == t[i - k]);
    }
    lemma_tok_state_word_run(u, k, t.len() as int);
    assert(u.subrange(k, k + t.len()) =~= t);
    assert(u.len() == k + t.len());
}

/// Trailing whitespace adds no token.
pub proof fn lemma_ws_tokens_trailing_ws(s: Seq<char>, w: Seq<char>)
    requires
        all_ws(w),
    ensures
        ws_tokens(s + w) == ws_tokens(s),
{
    let u = s + w;
    let l = s.len() as int;
    lemma_tok_state_prefix(s, w, l);
    let st = tok_state(s, l);
    if w.len() > 0 {
        assert(is_ws(u[l]));
        assert(tok_state(u, l + 1).1.len() == 0);
        assert forall|i: int| l + 1 <= i < l + 1 + (w.len() - 1) implies is_ws(#[trigger] u[i]) by {
            assert(u[i] == w[i - l]);
        }
        lemma_tok_state_ws_run(u, l + 1, w.len() - 1);
        assert(u.len() == l + 1 + (w.len() - 1));
        if st.1.len() > 0 {
            assert(tok_state(u, l + 1).0 == st.0.push(st.1));
        } else {
            assert(tok_state(u, l + 1) == st);
        }
    } else {
        assert(u =~= s);
    }
}

/// A string whose trim is empty is all whitespace.
pub proof fn lemma_trim_empty(s: Seq<char>)
    requires
        trim(s).len() == 0,
    ensures
        all_ws(s),
{
    lemma_trim_start_suffix(s);
    let t = trim_start(s);
    lemma_trim_end_prefix(t);
    assert(all_ws(t));
}

/// `trim_start(s)` is a suffix of `s` after whitespace only.
proof fn lemma_trim_start_suffix(s: Seq<char>)
    ensures
        exists|k: int|
            0 <= k <= s.len() && trim_start(s) == s.skip(k) && forall|p: int| 0 <= p < k ==> is_ws(#[trigger] s[p]),
        all_ws(trim_start(s)) ==> all_ws(s),
    decreases s.len(),
{
    if s.len() > 0 && is_ws(s[0]) {
        lemma_trim_start_suffix(s.drop_first());
        let k = choose|k: int|
            0 <= k <= s.drop_first().len() && trim_start(s.drop_first()) == s.drop_first().skip(k) && forall|p: int|
                0 <= p < k ==> is_ws(#[trigger] s.drop_first()[p]);
        assert(s.drop_first().skip(k) =~= s.skip(k + 1));
        assert forall|p: int| 0 <= p < k + 1 implies is_ws(#[trigger] s[p]) by {
            if p > 0 {
                assert(s[p] == s.drop_first()[p - 1]);
            }
        }
        if all_ws(trim_start(s)) {
            assert forall|p: int| 0 <= p < s.len() implies is_ws(#[trigger] s[p]) by {
                if p >= k + 1 {
                    assert(s[p] == s.skip(k + 1)[p - (k + 1)]);
                }
            }
        }
    } else {
        assert(s.skip(0) =~= s);
    }
}

/// A string whose `trim_end` is empty is all whitespace.
proof fn lemma_trim_end_prefix(t: Seq<char>)
    ensures
        trim_end(t).len() == 0 ==> all_ws(t),
    decreases t.len(),
{
    if t.len() > 0 && is_ws(t.last()) {
        lemma_trim_end_prefix(t.drop_last());
        if trim_end(t).len() == 0 {
            assert forall|p: int| 0 <= p < t.len() implies is_ws(#[trigger] t[p]) by {
                if p < t.len() - 1 {
                    assert(t[p] == t.drop_last()[p]);
                }
            }
        }
    }
}

/// Tokens each preceded by whitespace are read back as those tokens.
pub proof fn lemma_ws_tokens_spaced(toks: Seq<Seq<char>>, sep: Seq<char>)
    requires
        sep.len() > 0,
        all_ws(sep),
        forall|i: int| 0 <= i < toks.len() ==> (#[trigger] toks[i]).len() > 0 && no_ws(toks[i]),
    ensures
        ws_tokens(spaced(toks, sep)) == toks,
    decreases toks.len(),
{
    if toks.len() == 0 {
        assert(ws_tokens(Seq::<char>::empty()) =~= Seq::<Seq<char>>::empty());
    } else {
        lemma_ws_tokens_spaced(toks.drop_last(), sep);
        assert(toks.last() == toks[toks.len() - 1]);
        lemma_ws_tokens_append(spaced(toks.drop_last(), sep), sep, toks.last());
        assert(toks.drop_last().push(toks.last()) =~= toks);
    }
}

/// A real-number token is nonempty and holds no whitespace.
pub proof fn lemma_float_syntax_word(s: Seq<char>)
    requires
        float_syntax(s),
    ensures
        s.len() > 0,
        no_ws(s),
{
    let t = signed_digits(s);
    let off: int = if s.len() > 0 && (s[0] == '+' || s[0] == '-') {
        1
    } else {
        0
    };
    assert(t =~= s.skip(off));
    if is_special_float(t) {
        assert(t.len() > 0);
        assert forall|i: int| 0 <= i < s.len() implies !is_ws(#[trigger] s[i]) by {
            if i >= off {
                assert(s[i] == t[i - off]);
                let c = t[i - off];
                assert(ascii_lower(c) == 'i' || ascii_lower(c) == 'n' || ascii_lower(c) == 'f' || ascii_lower(c) == 't'
                    || ascii_lower(c) == 'y' || ascii_lower(c) == 'a');
            }
        }
    } else {
        let k = choose|k: int|
            0 <= k <= t.len() && is_mantissa(#[trigger] t.take(k)) && (k == t.len() || (is_exp_char(t[k])
                && is_exponent(t.skip(k + 1))));
        let i0 = choose|i: int| 0 <= i < t.take(k).len() && is_digit(#[trigger] t.take(k)[i]);
        assert(t.len() > 0);
        assert forall|i: int| 0 <= i < s.len() implies !is_ws(#[trigger] s[i]) by {
            if i >= off {
                assert(s[i] == t[i - off]);
                let j = i - off;
                if j < k {
                    assert(t.take(k)[j] == t[j]);
                } else if j > k {
                    let v = t.skip(k + 1);
                    let w = signed_digits(v);
                    assert(t[j] == v[j - k - 1]);
                    if v.len() > 0 && (v[0] == '+' || v[0] == '-') {
                        if j - k - 1 > 0 {
                            assert(v[j - k - 1] == w[j - k - 2]);
                        }
                    } else {
                        assert(v[j - k - 1] == w[j - k - 1]);
                    }
                }
            }
        }
    }
}

/// The decimal representation of an i32 (`{}`): a '-' before negative numbers.
pub open spec fn i32_string(v: i32) -> Seq<char> {
    if v < 0 {
        seq!['-'] + dec_string((-(v as int)) as nat)
    } else {
        dec_string(v as nat)
    }
}

/// `s` right-aligned in a field of `width` characters (`{:width}` on numbers).
pub open spec fn right_aligned(s: Seq<char>, width: nat) -> Seq<char> {
    if s.len() >= width {
        s
    } else {
        Seq::new((width - s.len()) as nat, |i: int| ' ') + s
    }
}

/// The decimal representation of an i32.
pub fn i32_chars(v: i32) -> (r: Vec<char>)
    ensures
        r@ == i32_string(v),
{
    if v < 0 {
        let mag: i64 = -(v as i64);
        let mut r: Vec<char> = vec!['-'];
        let mut d = decimal_chars(mag as usize);
        r.append(&mut d);
        assert(r@ =~= seq!['-'] + dec_string((-(v as int)) as nat));
        r
    } else {
        decimal_chars(v as usize)
    }
}

/// `s` right-aligned in a field of `width` characters.
pub fn right_align(s: &Vec<char>, width: usize) -> (r: Vec<char>)
    ensures
        r@ == right_aligned(s@, width as nat),
{
    let mut r: Vec<char> = Vec::new();
    if s.len() < width {
        let pad = width - s.len();
        let mut k: usize = 0;
        while k < pad
            invariant
                k <= pad,
                r@ == Seq::new(k as nat, |i: int| ' '),
            decreases pad - k,
        {
            r.push(' ');
            k = k + 1;
            assert(r@ =~= Seq::new(k as nat, |i: int| ' '));
        }
    }
    let mut c = s.clone();
    r.append(&mut c);
    assert(s@.len() >= width ==> r@ =~= s@);
    r
}

} // verus!
