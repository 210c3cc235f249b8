//! The SLICOT example-file formats of AB01ND and AB01MD (`.dat` inputs and
//! `.res` results), read and written line by line.
//!
//! Numbers that are real values are kept as their decimal text; a token is
//! accepted as a real number exactly when it has the syntax that
//! `str::parse::<f64>` accepts (`float_syntax`). Lines are taken as
//! `BufRead::lines` yields them; `failure` is the error that the source gave
//! when the line after the last one was asked for (`None` at a clean end).

use vstd::prelude::*;
use crate::text::{
    all_ws, chars_of, contains_chars, contains_seq, dec_string, decimal_chars, float_syntax, i32_of,
    is_float_literal, is_ws, lemma_dec_string, lemma_float_syntax_word, lemma_ws_tokens_append,
    lemma_ws_tokens_spaced, no_ws, occurs_at, parse_i32, parse_usize, second_eq_field,
    second_eq_piece, spaced, split_ws, starts_with_chars, string_of, trim, trim_chars, trim_end,
    trim_start, unsigned_digits, usize_of, ws_tokens, i32_string, i32_chars, right_aligned,
    right_align,
};

verus! {

broadcast use vstd::string::group_string_axioms;

/// The error text `s` as a `String`.
fn message(s: &str) -> (r: String)
    ensures
        r@ == s@,
{
    s.to_string()
}

/// Line k of the input, or what reading it gives when there is none: the
/// source's failure if it had one, else the message `missing`.
pub open spec fn read_line(ls: Seq<Seq<char>>, fail: Option<Seq<char>>, k: int, missing: Seq<char>) -> Result<Seq<char>, Seq<char>> {
    if 0 <= k < ls.len() {
        Ok(ls[k])
    } else {
        match fail {
            Some(e) => Err(e),
            None => Err(missing),
        }
    }
}

/// Every token is a real number.
pub open spec fn all_float(t: Seq<Seq<char>>) -> bool {
    forall|i: int| 0 <= i < t.len() ==> float_syntax(#[trigger] t[i])
}

/// Reads `count` lines from line k on and collects their tokens, each of
/// which must be a real number: the first line that is missing gives the
/// read error, the first line holding another token gives `bad`.
pub open spec fn float_lines(
    ls: Seq<Seq<char>>,
    fail: Option<Seq<char>>,
    k: int,
    count: nat,
    missing: Seq<char>,
    bad: Seq<char>,
) -> Result<Seq<Seq<char>>, Seq<char>>
    decreases count,
{
    if count == 0 {
        Ok(Seq::empty())
    } else {
        match read_line(ls, fail, k, missing) {
            Err(e) => Err(e),
            Ok(l) => {
                let t = ws_tokens(l);
                if !all_float(t) {
                    Err(bad)
                } else {
                    match float_lines(ls, fail, k + 1, (count - 1) as nat, missing, bad) {
                        Err(e) => Err(e),
                        Ok(rest) => Ok(t + rest),
                    }
                }
            },
        }
    }
}

/// `acc` followed by the tokens of `r`, errors passed through.
pub open spec fn after_tokens(acc: Seq<Seq<char>>, r: Result<Seq<Seq<char>>, Seq<char>>) -> Result<Seq<Seq<char>>, Seq<char>> {
    match r {
        Ok(t) => Ok(acc + t),
        Err(e) => Err(e),
    }
}

/// The lines as character vectors.
pub open spec fn lines_view(lines: Seq<String>) -> Seq<Seq<char>> {
    Seq::new(lines.len(), |i: int| lines[i]@)
}

/// The failure as characters.
pub open spec fn failure_view(f: Option<String>) -> Option<Seq<char>> {
    match f {
        Some(e) => Some(e@),
        None => None,
    }
}

/// Line k, or the error reading it gives.
fn get_line(lines: &Vec<String>, failure: &Option<String>, k: usize, missing: &str) -> (r: Result<Vec<char>, String>)
    ensures
        match r {
            Ok(l) => read_line(lines_view(lines@), failure_view(*failure), k as int, missing@) == Ok::<Seq<char>, Seq<char>>(l@),
            Err(e) => read_line(lines_view(lines@), failure_view(*failure), k as int, missing@) == Err::<Seq<char>, Seq<char>>(e@),
        },
{
    if k < lines.len() {
        Ok(chars_of(lines[k].as_str()))
    } else {
        match failure {
            Some(e) => Err(e.clone()),
            None => Err(message(missing)),
        }
    }
}

/// Whether every token is a real number.
fn tokens_all_float(t: &Vec<Vec<char>>) -> (r: bool)
    ensures
        r == all_float(t.deep_view()),
{
    let mut i: usize = 0;
    while i < t.len()
        invariant
            i <= t@.len(),
            forall|j: int| 0 <= j < i ==> float_syntax(#[trigger] t.deep_view()[j]),
        decreases t@.len() - i,
    {
        assert(t.deep_view()[i as int] == t@[i as int]@);
        if !is_float_literal(&t[i]) {
            return false;
        }
        i = i + 1;
    }
    true
}

/// The tokens as strings.
fn token_strings(t: Vec<Vec<char>>) -> (r: Vec<String>)
    ensures
        r.deep_view() == t.deep_view(),
{
    let mut r: Vec<String> = Vec::new();
    let mut i: usize = 0;
    while i < t.len()
        invariant
            i <= t@.len(),
            r.deep_view() == t.deep_view().take(i as int),
        decreases t@.len() - i,
    {
        let s = string_of(&t[i]);
        assert(t@[i as int].deep_view() =~= t@[i as int]@);
        let ghost r0 = r.deep_view();
        let ghost sv = s@;
        r.push(s);
        assert(r.deep_view() =~= r0.push(sv));
        i = i + 1;
        assert(r.deep_view() =~= t.deep_view().take(i as int));
    }
    assert(t.deep_view().take(i as int) =~= t.deep_view());
    r
}

/// Reads `count` lines from line k on and collects their tokens (see
/// `float_lines`); on success also returns the index of the next line.
fn read_float_lines(
    lines: &Vec<String>,
    failure: &Option<String>,
    k0: usize,
    count: usize,
    missing: &str,
    bad: &str,
) -> (r: Result<(Vec<String>, usize), String>)
    requires
        k0 <= lines@.len(),
    ensures
        match r {
            Ok((t, next)) => {
                &&& float_lines(lines_view(lines@), failure_view(*failure), k0 as int, count as nat, missing@, bad@)
                    == Ok::<Seq<Seq<char>>, Seq<char>>(t.deep_view())
                &&& next == k0 + count
                &&& next <= lines@.len()
            },
            Err(e) => float_lines(lines_view(lines@), failure_view(*failure), k0 as int, count as nat, missing@, bad@)
                == Err::<Seq<Seq<char>>, Seq<char>>(e@),
        },
{
    let ghost ls = lines_view(lines@);
    let ghost fv = failure_view(*failure);
    let nlines = lines.len();
    let mut acc: Vec<String> = Vec::new();
    let mut k: usize = k0;
    let mut done: usize = 0;
    while done < count
        invariant
            nlines == lines@.len(),
            k0 <= k <= lines@.len(),
            k == k0 + done,
            done <= count,
            ls == lines_view(lines@),
            fv == failure_view(*failure),
            float_lines(ls, fv, k0 as int, count as nat, missing@, bad@) == after_tokens(
                acc.deep_view(),
                float_lines(ls, fv, k as int, (count - done) as nat, missing@, bad@),
            ),
        decreases count - done,
    {
        let line = get_line(lines, failure, k, missing);
        match line {
            Err(e) => {
                return Err(e);
            },
            Ok(l) => {
                let toks = split_ws(&l);
                if !tokens_all_float(&toks) {
                    return Err(message(bad));
                }
                let strs = token_strings(toks);
                let ghost a0 = acc.deep_view();
                let ghost s0 = strs.deep_view();
                let mut strs = strs;
                acc.append(&mut strs);
                assert(acc.deep_view() =~= a0 + s0);
                proof {
                    let rest = float_lines(ls, fv, k + 1, (count - done - 1) as nat, missing@, bad@);
                    match rest {
                        Ok(rt) => {
                            assert(a0 + (s0 + rt) =~= (a0 + s0) + rt);
                        },
                        Err(_) => {},
                    }
                }
                k = k + 1;
                done = done + 1;
            },
        }
    }
    assert(acc.deep_view() + Seq::<Seq<char>>::empty() =~= acc.deep_view());
    Ok((acc, k))
}

/// The first line is a title line: after trimming it begins with the
/// routine's name (or with a blank, which trimming rules out).
pub open spec fn is_title(first: Seq<char>, name: Seq<char>) -> bool {
    occurs_at(first, name, 0) || (first.len() > 0 && first[0] == ' ')
}

fn title_test(first: &Vec<char>, name: &str) -> (r: bool)
    ensures
        r == is_title(first@, name@),
{
    let nm = chars_of(name);
    starts_with_chars(first, &nm) || (first.len() > 0 && first[0] == ' ')
}

/// The header line "N M TOL JOBZ" of an AB01ND file: its first four tokens
/// give N and M (decimal usize), TOL (a real number, kept as text) and the
/// first character of JOBZ.
pub open spec fn nd_header(line: Seq<char>) -> Result<(usize, usize, Seq<char>, char), Seq<char>> {
    let p = ws_tokens(line);
    if p.len() < 4 {
        Err("need N M TOL JOBZ"@)
    } else if usize_of(p[0]) is None {
        Err("bad N"@)
    } else if usize_of(p[1]) is None {
        Err("bad M"@)
    } else if !float_syntax(p[2]) {
        Err("bad TOL"@)
    } else if p[3].len() == 0 {
        Err("missing JOBZ"@)
    } else {
        Ok((usize_of(p[0]).unwrap(), usize_of(p[1]).unwrap(), p[2], p[3][0]))
    }
}

/// Reads the header line "N M TOL JOBZ" of an AB01ND file.
pub fn parse_n_m_tol_jobz(line: &Vec<char>) -> (r: Result<(usize, usize, String, char), String>)
    ensures
        match r {
            Ok((n, m, tol, jobz)) => nd_header(line@) == Ok::<(usize, usize, Seq<char>, char), Seq<char>>(
                (n, m, tol@, jobz),
            ),
            Err(e) => nd_header(line@) == Err::<(usize, usize, Seq<char>, char), Seq<char>>(e@),
        },
{
    let parts = split_ws(line);
    if parts.len() < 4 {
        return Err(message("need N M TOL JOBZ"));
    }
    assert(parts.deep_view()[0] == parts@[0]@);
    assert(parts.deep_view()[1] == parts@[1]@);
    assert(parts.deep_view()[2] == parts@[2]@);
    assert(parts.deep_view()[3] == parts@[3]@);
    let n = match parse_usize(&parts[0]) {
        Some(v) => v,
        None => {
            return Err(message("bad N"));
        },
    };
    let m = match parse_usize(&parts[1]) {
        Some(v) => v,
        None => {
            return Err(message("bad M"));
        },
    };
    if !is_float_literal(&parts[2]) {
        return Err(message("bad TOL"));
    }
    let tol = string_of(&parts[2]);
    if parts[3].len() == 0 {
        return Err(message("missing JOBZ"));
    }
    Ok((n, m, tol, parts[3][0]))
}

/// An AB01ND input file with its real numbers kept as text: N, M, TOL, JOBZ,
/// the N x N tokens of A row by row, and the N x M tokens of B column by
/// column (the order in which the file lists them).
pub struct Ab01ndDatText {
    pub n: usize,
    pub m: usize,
    pub tol: String,
    pub jobz: char,
    pub a: Vec<String>,
    pub b: Vec<String>,
}

impl View for Ab01ndDatText {
    type V = (usize, usize, Seq<char>, char, Seq<Seq<char>>, Seq<Seq<char>>);

    open spec fn view(&self) -> Self::V {
        (self.n, self.m, self.tol@, self.jobz, self.a.deep_view(), self.b.deep_view())
    }
}

/// What reading an AB01ND input file gives: an optional title line (see
/// `is_title`), the header line, N lines holding A and M lines holding B
/// (tokens collected line after line); the first problem met gives its
/// error.
pub open spec fn ab01nd_dat_of(ls: Seq<Seq<char>>, fail: Option<Seq<char>>) -> Result<
    (usize, usize, Seq<char>, char, Seq<Seq<char>>, Seq<Seq<char>>),
    Seq<char>,
> {
    match read_line(ls, fail, 0, "missing first line"@) {
        Err(e) => Err(e),
        Ok(l0) => {
            let first = trim(l0);
            let titled = is_title(first, "AB01ND"@);
            let hdr = if titled {
                match read_line(ls, fail, 1, "missing N M TOL JOBZ line"@) {
                    Err(e) => Err(e),
                    Ok(l1) => nd_header(l1),
                }
            } else {
                nd_header(first)
            };
            let next: int = if titled {
                2
            } else {
                1
            };
            match hdr {
                Err(e) => Err(e),
                Ok((n, m, tol, jobz)) => match float_lines(
                    ls,
                    fail,
                    next,
                    n as nat,
                    "missing A row"@,
                    "bad A value"@,
                ) {
                    Err(e) => Err(e),
                    Ok(a) => match float_lines(
                        ls,
                        fail,
                        next + n,
                        m as nat,
                        "missing B row"@,
                        "bad B value"@,
                    ) {
                        Err(e) => Err(e),
                        Ok(b) => Ok((n, m, tol, jobz, a, b)),
                    },
                },
            }
        },
    }
}

/// Reads an AB01ND input file (see `ab01nd_dat_of`).
pub fn parse_ab01nd_dat(lines: &Vec<String>, failure: &Option<String>) -> (r: Result<Ab01ndDatText, String>)
    ensures
        match r {
            Ok(d) => ab01nd_dat_of(lines_view(lines@), failure_view(*failure)) == Ok::<
                (usize, usize, Seq<char>, char, Seq<Seq<char>>, Seq<Seq<char>>),
                Seq<char>,
            >(d@),
            Err(e) => ab01nd_dat_of(lines_view(lines@), failure_view(*failure)) == Err::<
                (usize, usize, Seq<char>, char, Seq<Seq<char>>, Seq<Seq<char>>),
                Seq<char>,
            >(e@),
        },
{
    let l0 = match get_line(lines, failure, 0, "missing first line") {
        Ok(l) => l,
        Err(e) => {
            return Err(e);
        },
    };
    let first = trim_chars(&l0);
    let titled = title_test(&first, "AB01ND");
    let hdr = if titled {
        match get_line(lines, failure, 1, "missing N M TOL JOBZ line") {
            Ok(l1) => parse_n_m_tol_jobz(&l1),
            Err(e) => {
                return Err(e);
            },
        }
    } else {
        parse_n_m_tol_jobz(&first)
    };
    let (n, m, tol, jobz) = match hdr {
        Ok(h) => h,
        Err(e) => {
            return Err(e);
        },
    };
    let next: usize = if titled {
        2
    } else {
        1
    };
    let (a, k) = match read_float_lines(lines, failure, next, n, "missing A row", "bad A value") {
        Ok(r) => r,
        Err(e) => {
            return Err(e);
        },
    };
    let (b, _k2) = match read_float_lines(lines, failure, k, m, "missing B row", "bad B value") {
        Ok(r) => r,
        Err(e) => {
            return Err(e);
        },
    };
    Ok(Ab01ndDatText { n, m, tol, jobz, a, b })
}

/// The header line "N TOL JOBZ" of an AB01MD file.
pub open spec fn md_header(line: Seq<char>) -> Result<(usize, Seq<char>, char), Seq<char>> {
    let p = ws_tokens(line);
    if p.len() < 3 {
        Err("need N TOL JOBZ"@)
    } else if usize_of(p[0]) is None {
        Err("bad N"@)
    } else if !float_syntax(p[1]) {
        Err("bad TOL"@)
    } else if p[2].len() == 0 {
        Err("missing JOBZ"@)
    } else {
        Ok((usize_of(p[0]).unwrap(), p[1], p[2][0]))
    }
}

/// Reads the header line "N TOL JOBZ" of an AB01MD file.
fn parse_n_tol_jobz(line: &Vec<char>) -> (r: Result<(usize, String, char), String>)
    ensures
        match r {
            Ok((n, tol, jobz)) => md_header(line@) == Ok::<(usize, Seq<char>, char), Seq<char>>(
                (n, tol@, jobz),
            ),
            Err(e) => md_header(line@) == Err::<(usize, Seq<char>, char), Seq<char>>(e@),
        },
{
    let parts = split_ws(line);
    if parts.len() < 3 {
        return Err(message("need N TOL JOBZ"));
    }
    assert(parts.deep_view()[0] == parts@[0]@);
    assert(parts.deep_view()[1] == parts@[1]@);
    assert(parts.deep_view()[2] == parts@[2]@);
    let n = match parse_usize(&parts[0]) {
        Some(v) => v,
        None => {
            return Err(message("bad N"));
        },
    };
    if !is_float_literal(&parts[1]) {
        return Err(message("bad TOL"));
    }
    let tol = string_of(&parts[1]);
    if parts[2].len() == 0 {
        return Err(message("missing JOBZ"));
    }
    Ok((n, tol, parts[2][0]))
}

/// The first `need` tokens of `t` (all of them when there are fewer), when
/// each of them is a real number.
pub open spec fn leading_floats(t: Seq<Seq<char>>, need: nat) -> Option<Seq<Seq<char>>> {
    let k = if need < t.len() {
        need as int
    } else {
        t.len() as int
    };
    if all_float(t.take(k)) {
        Some(t.take(k))
    } else {
        None
    }
}

/// Collects `need` real numbers from the lines from line k on, line after
/// line, ignoring what follows the last one needed on its line.
pub open spec fn floats_upto(
    ls: Seq<Seq<char>>,
    fail: Option<Seq<char>>,
    k: int,
    need: nat,
    missing: Seq<char>,
    bad: Seq<char>,
) -> Result<Seq<Seq<char>>, Seq<char>>
    decreases ls.len() - k,
{
    if need == 0 {
        Ok(Seq::empty())
    } else {
        match read_line(ls, fail, k, missing) {
            Err(e) => Err(e),
            Ok(l) => match leading_floats(ws_tokens(l), need) {
                None => Err(bad),
                Some(g) => if 0 <= k < ls.len() {
                    match floats_upto(ls, fail, k + 1, (need - g.len()) as nat, missing, bad) {
                        Err(e) => Err(e),
                        Ok(rest) => Ok(g + rest),
                    }
                } else {
                    Err(bad)
                },
            },
        }
    }
}

/// An AB01MD input file with its real numbers kept as text: N, TOL, JOBZ,
/// the N x N tokens of A row by row and the N tokens of B.
pub struct Ab01mdDatText {
    pub n: usize,
    pub tol: String,
    pub jobz: char,
    pub a: Vec<String>,
    pub b: Vec<String>,
}

impl View for Ab01mdDatText {
    type V = (usize, Seq<char>, char, Seq<Seq<char>>, Seq<Seq<char>>);

    open spec fn view(&self) -> Self::V {
        (self.n, self.tol@, self.jobz, self.a.deep_view(), self.b.deep_view())
    }
}

/// What reading an AB01MD input file gives: an optional title line, the
/// header line "N TOL JOBZ", N lines holding A, then as many lines as it
/// takes to collect the N entries of B.
pub open spec fn ab01md_dat_of(ls: Seq<Seq<char>>, fail: Option<Seq<char>>) -> Result<
    (usize, Seq<char>, char, Seq<Seq<char>>, Seq<Seq<char>>),
    Seq<char>,
> {
    match read_line(ls, fail, 0, "missing first line"@) {
        Err(e) => Err(e),
        Ok(l0) => {
            let first = trim(l0);
            let titled = is_title(first, "AB01MD"@);
            let hdr = if titled {
                match read_line(ls, fail, 1, "missing N TOL JOBZ line"@) {
                    Err(e) => Err(e),
                    Ok(l1) => md_header(l1),
                }
            } else {
                md_header(first)
            };
            let next: int = if titled {
                2
            } else {
                1
            };
            match hdr {
                Err(e) => Err(e),
                Ok((n, tol, jobz)) => match float_lines(
                    ls,
                    fail,
                    next,
                    n as nat,
                    "missing A row"@,
                    "bad A value"@,
                ) {
                    Err(e) => Err(e),
                    Ok(a) => match floats_upto(
                        ls,
                        fail,
                        next + n,
                        n as nat,
                        "missing B row"@,
                        "bad B value"@,
                    ) {
                        Err(e) => Err(e),
                        Ok(b) => Ok((n, tol, jobz, a, b)),
                    },
                },
            }
        },
    }
}

/// Collecting `need` real numbers line after line, when it succeeds, gives
/// exactly `need` of them, every one a real number.
pub proof fn lemma_floats_upto_count(
    ls: Seq<Seq<char>>,
    fail: Option<Seq<char>>,
    k: int,
    need: nat,
    missing: Seq<char>,
    bad: Seq<char>,
)
    ensures
        floats_upto(ls, fail, k, need, missing, bad) is Ok ==> ({
            let v = floats_upto(ls, fail, k, need, missing, bad)->Ok_0;
            &&& v.len() == need
            &&& all_float(v)
        }),
    decreases ls.len() - k,
{
    if need > 0 && 0 <= k < ls.len() {
        let l = ls[k];
        match leading_floats(ws_tokens(l), need) {
            None => {},
            Some(g) => {
                lemma_floats_upto_count(ls, fail, k + 1, (need - g.len()) as nat, missing, bad);
                match floats_upto(ls, fail, k + 1, (need - g.len()) as nat, missing, bad) {
                    Err(e) => {},
                    Ok(rest) => {
                        let v = g + rest;
                        assert forall|i: int| 0 <= i < v.len() implies float_syntax(#[trigger] v[i]) by {
                            if i < g.len() {
                                assert(v[i] == g[i]);
                            } else {
                                assert(v[i] == rest[i - g.len()]);
                            }
                        }
                    },
                }
            },
        }
    }
}

/// The tokens of the `j` lines from line k on, in order.
pub open spec fn tokens_of_lines(ls: Seq<Seq<char>>, k: int, j: nat) -> Seq<Seq<char>>
    decreases j,
{
    if j == 0 {
        Seq::empty()
    } else {
        ws_tokens(ls[k]) + tokens_of_lines(ls, k + 1, (j - 1) as nat)
    }
}

/// When lines k, ..., k + j - 1 exist, hold only real numbers, and the first
/// `need` numbers end on the last of them, collecting `need` numbers from
/// line k on gives the first `need` tokens of those lines, in order.
pub proof fn lemma_floats_upto_takes_in_order(
    ls: Seq<Seq<char>>,
    fail: Option<Seq<char>>,
    k: int,
    j: nat,
    need: nat,
    missing: Seq<char>,
    bad: Seq<char>,
)
    requires
        0 <= k,
        k + j <= ls.len(),
        forall|i: int| k <= i < k + j ==> all_float(ws_tokens(#[trigger] ls[i])),
        j >= 1,
        tokens_of_lines(ls, k, (j - 1) as nat).len() < need,
        need <= tokens_of_lines(ls, k, j).len(),
    ensures
        floats_upto(ls, fail, k, need, missing, bad) == Ok::<Seq<Seq<char>>, Seq<char>>(
            tokens_of_lines(ls, k, j).take(need as int),
        ),
    decreases j,
{
    let t = ws_tokens(ls[k]);
    assert(all_float(t));
    if j == 1 {
        assert(tokens_of_lines(ls, k + 1, 0) =~= Seq::<Seq<char>>::empty());
        assert(tokens_of_lines(ls, k, 1) =~= t);
        assert(all_float(t.take(need as int)));
        assert(read_line(ls, fail, k, missing) == Ok::<Seq<char>, Seq<char>>(ls[k]));
        assert(leading_floats(t, need) == Some(t.take(need as int)));
        assert(t.take(need as int).len() == need);
        assert(floats_upto(ls, fail, k + 1, 0, missing, bad) == Ok::<Seq<Seq<char>>, Seq<char>>(Seq::empty()));
        assert(t.take(need as int) + Seq::<Seq<char>>::empty() =~= t.take(need as int));
    } else {
        let rest1 = tokens_of_lines(ls, k + 1, (j - 2) as nat);
        let rest2 = tokens_of_lines(ls, k + 1, (j - 1) as nat);
        assert(tokens_of_lines(ls, k, (j - 1) as nat) == t + rest1);
        assert(tokens_of_lines(ls, k, j) == t + rest2);
        assert(t.take(t.len() as int) =~= t);
        assert(leading_floats(t, need) == Some(t));
        let need2 = (need - t.len()) as nat;
        assert(read_line(ls, fail, k, missing) == Ok::<Seq<char>, Seq<char>>(ls[k]));
        lemma_floats_upto_takes_in_order(ls, fail, k + 1, (j - 1) as nat, need2, missing, bad);
        assert(t + rest2.take(need2 as int) =~= (t + rest2).take(need as int));
        assert(floats_upto(ls, fail, k, need, missing, bad) == Ok::<Seq<Seq<char>>, Seq<char>>(
            t + rest2.take(need2 as int),
        ));
    }
}

/// An AB01MD input file that reads successfully gives B with exactly N
/// entries, every one a real number.
pub proof fn lemma_ab01md_dat_b_has_n_entries(ls: Seq<Seq<char>>, fail: Option<Seq<char>>)
    ensures
        ab01md_dat_of(ls, fail) is Ok ==> ({
            let d = ab01md_dat_of(ls, fail)->Ok_0;
            &&& d.4.len() == d.0
            &&& all_float(d.4)
        }),
{
    match read_line(ls, fail, 0, "missing first line"@) {
        Err(e) => {},
        Ok(l0) => {
            let first = trim(l0);
            let titled = is_title(first, "AB01MD"@);
            let hdr = if titled {
                match read_line(ls, fail, 1, "missing N TOL JOBZ line"@) {
                    Err(e) => Err(e),
                    Ok(l1) => md_header(l1),
                }
            } else {
                md_header(first)
            };
            let next: int = if titled { 2 } else { 1 };
            match hdr {
                Err(e) => {},
                Ok((n, tol, jobz)) => {
                    lemma_floats_upto_count(ls, fail, next + n, n as nat, "missing B row"@, "bad B value"@);
                },
            }
        },
    }
}

/// Collects `need` real numbers from line k on (see `floats_upto`).
fn read_floats_upto(
    lines: &Vec<String>,
    failure: &Option<String>,
    k0: usize,
    need: usize,
    missing: &str,
    bad: &str,
) -> (r: Result<Vec<String>, String>)
    requires
        k0 <= lines@.len(),
    ensures
        match r {
            Ok(t) => floats_upto(lines_view(lines@), failure_view(*failure), k0 as int, need as nat, missing@, bad@)
                == Ok::<Seq<Seq<char>>, Seq<char>>(t.deep_view()),
            Err(e) => floats_upto(lines_view(lines@), failure_view(*failure), k0 as int, need as nat, missing@, bad@)
                == Err::<Seq<Seq<char>>, Seq<char>>(e@),
        },
{
    let ghost ls = lines_view(lines@);
    let ghost fv = failure_view(*failure);
    let nlines = lines.len();
    let mut acc: Vec<String> = Vec::new();
    let mut k: usize = k0;
    while acc.len() < need
        invariant
            nlines == lines@.len(),
            k0 <= k <= lines@.len(),
            acc@.len() <= need,
            ls == lines_view(lines@),
            fv == failure_view(*failure),
            floats_upto(ls, fv, k0 as int, need as nat, missing@, bad@) == after_tokens(
                acc.deep_view(),
                floats_upto(ls, fv, k as int, (need - acc@.len()) as nat, missing@, bad@),
            ),
        decreases lines@.len() - k,
    {
        let l = match get_line(lines, failure, k, missing) {
            Ok(l) => l,
            Err(e) => {
                return Err(e);
            },
        };
        let toks = split_ws(&l);
        let ghost tv = toks.deep_view();
        let ghost want = (need - acc@.len()) as nat;
        let ghost a0 = acc.deep_view();
        let mut i: usize = 0;
        while i < toks.len() && acc.len() < need
            invariant
                i <= toks@.len(),
                tv == toks.deep_view(),
                tv.len() == toks@.len(),
                i <= want,
                ls == lines_view(lines@),
                fv == failure_view(*failure),
                k < ls.len(),
                read_line(ls, fv, k as int, missing@) == Ok::<Seq<char>, Seq<char>>(l@),
                ws_tokens(l@) == tv,
                floats_upto(ls, fv, k0 as int, need as nat, missing@, bad@) == after_tokens(
                    a0,
                    floats_upto(ls, fv, k as int, want, missing@, bad@),
                ),
                acc@.len() == a0.len() + i,
                acc.deep_view() == a0 + tv.take(i as int),
                a0.len() + want == need,
                all_float(tv.take(i as int)),
            decreases toks@.len() - i,
        {
            assert(tv[i as int] == toks@[i as int]@);
            if !is_float_literal(&toks[i]) {
                proof {
                    let kk = if want < tv.len() {
                        want as int
                    } else {
                        tv.len() as int
                    };
                    assert(i < kk);
                    assert(tv.take(kk)[i as int] == tv[i as int]);
                    assert(!all_float(tv.take(kk)));
                    assert(leading_floats(tv, want) is None);
                }
                return Err(message(bad));
            }
            let ghost b0 = acc.deep_view();
            let st = string_of(&toks[i]);
            let ghost sv = st@;
            acc.push(st);
            assert(acc.deep_view() =~= b0.push(sv));
            i = i + 1;
            assert(acc.deep_view() =~= a0 + tv.take(i as int));
            assert forall|j: int| 0 <= j < i implies float_syntax(#[trigger] tv.take(i as int)[j]) by {
                if j < i - 1 {
                    assert(tv.take(i as int)[j] == tv.take(i - 1)[j]);
                }
            }
        }
        proof {
            let kk = if want < tv.len() {
                want as int
            } else {
                tv.len() as int
            };
            assert(kk == i);
            assert(leading_floats(tv, want) == Some(tv.take(i as int)));
            let rest = floats_upto(ls, fv, k + 1, (want - i) as nat, missing@, bad@);
            match rest {
                Ok(rt) => {
                    assert(a0 + (tv.take(i as int) + rt) =~= (a0 + tv.take(i as int)) + rt);
                },
                Err(_) => {},
            }
        }
        k = k + 1;
    }
    assert(acc.deep_view() + Seq::<Seq<char>>::empty() =~= acc.deep_view());
    Ok(acc)
}

/// Reads an AB01MD input file (see `ab01md_dat_of`).
pub fn parse_ab01md_dat(lines: &Vec<String>, failure: &Option<String>) -> (r: Result<Ab01mdDatText, String>)
    ensures
        r is Ok ==> r->Ok_0.b@.len() == r->Ok_0.n,
        match r {
            Ok(d) => ab01md_dat_of(lines_view(lines@), failure_view(*failure)) == Ok::<
                (usize, Seq<char>, char, Seq<Seq<char>>, Seq<Seq<char>>),
                Seq<char>,
            >(d@),
            Err(e) => ab01md_dat_of(lines_view(lines@), failure_view(*failure)) == Err::<
                (usize, Seq<char>, char, Seq<Seq<char>>, Seq<Seq<char>>),
                Seq<char>,
            >(e@),
        },
{
    let l0 = match get_line(lines, failure, 0, "missing first line") {
        Ok(l) => l,
        Err(e) => {
            return Err(e);
        },
    };
    let first = trim_chars(&l0);
    let titled = title_test(&first, "AB01MD");
    let hdr = if titled {
        match get_line(lines, failure, 1, "missing N TOL JOBZ line") {
            Ok(l1) => parse_n_tol_jobz(&l1),
            Err(e) => {
                return Err(e);
            },
        }
    } else {
        parse_n_tol_jobz(&first)
    };
    let (n, tol, jobz) = match hdr {
        Ok(h) => h,
        Err(e) => {
            return Err(e);
        },
    };
    let next: usize = if titled {
        2
    } else {
        1
    };
    let (a, k) = match read_float_lines(lines, failure, next, n, "missing A row", "bad A value") {
        Ok(r) => r,
        Err(e) => {
            return Err(e);
        },
    };
    let b = match read_floats_upto(lines, failure, k, n, "missing B row", "bad B value") {
        Ok(r) => r,
        Err(e) => {
            return Err(e);
        },
    };
    proof {
        lemma_ab01md_dat_b_has_n_entries(lines_view(lines@), failure_view(*failure));
        assert(b.deep_view().len() == b@.len());
    }
    Ok(Ab01mdDatText { n, tol, jobz, a, b })
}

/// The tokens among the first k of `t` that are real numbers, in order.
pub open spec fn floats_among(t: Seq<Seq<char>>, k: int) -> Seq<Seq<char>>
    decreases k,
{
    if k <= 0 {
        Seq::empty()
    } else if float_syntax(t[k - 1]) {
        floats_among(t, k - 1).push(t[k - 1])
    } else {
        floats_among(t, k - 1)
    }
}

/// The real numbers on a line (`split_whitespace().filter_map(parse)`).
pub open spec fn line_floats(l: Seq<char>) -> Seq<Seq<char>> {
    floats_among(ws_tokens(l), ws_tokens(l).len() as int)
}

/// The values of the tokens among the first k of `t` that are i32 numbers.
pub open spec fn i32s_among(t: Seq<Seq<char>>, k: int) -> Seq<i32>
    decreases k,
{
    if k <= 0 {
        Seq::empty()
    } else if i32_of(t[k - 1]) is Some {
        i32s_among(t, k - 1).push(i32_of(t[k - 1]).unwrap())
    } else {
        i32s_among(t, k - 1)
    }
}

/// The i32 numbers on a line.
pub open spec fn line_i32s(l: Seq<char>) -> Seq<i32> {
    i32s_among(ws_tokens(l), ws_tokens(l).len() as int)
}

/// The i32 after the first '=' of a line, if the text up to the next '='
/// is one once trimmed.
pub open spec fn eq_i32(s: Seq<char>) -> Option<i32> {
    match second_eq_field(s) {
        Some(f) => i32_of(trim(f)),
        None => None,
    }
}

/// The usize after the first '=' of a line, likewise.
pub open spec fn eq_usize(s: Seq<char>) -> Option<usize> {
    match second_eq_field(s) {
        Some(f) => usize_of(trim(f)),
        None => None,
    }
}

fn line_float_tokens(l: &Vec<char>) -> (r: Vec<String>)
    ensures
        r.deep_view() == line_floats(l@),
{
    let toks = split_ws(l);
    let ghost tv = toks.deep_view();
    let mut r: Vec<String> = Vec::new();
    let mut i: usize = 0;
    while i < toks.len()
        invariant
            i <= toks@.len(),
            tv == toks.deep_view(),
            tv == ws_tokens(l@),
            r.deep_view() == floats_among(tv, i as int),
        decreases toks@.len() - i,
    {
        assert(tv[i as int] == toks@[i as int]@);
        if is_float_literal(&toks[i]) {
            let ghost r0 = r.deep_view();
            let st = string_of(&toks[i]);
            let ghost sv = st@;
            r.push(st);
            assert(r.deep_view() =~= r0.push(sv));
        }
        i = i + 1;
    }
    r
}

fn line_i32_values(l: &Vec<char>) -> (r: Vec<i32>)
    ensures
        r@ == line_i32s(l@),
{
    let toks = split_ws(l);
    let ghost tv = toks.deep_view();
    let mut r: Vec<i32> = Vec::new();
    let mut i: usize = 0;
    while i < toks.len()
        invariant
            i <= toks@.len(),
            tv == toks.deep_view(),
            tv == ws_tokens(l@),
            r@ == i32s_among(tv, i as int),
        decreases toks@.len() - i,
    {
        assert(tv[i as int] == toks@[i as int]@);
        match parse_i32(&toks[i]) {
            Some(v) => {
                r.push(v);
            },
            None => {},
        }
        i = i + 1;
    }
    r
}

fn eq_i32_value(s: &Vec<char>) -> (r: Option<i32>)
    ensures
        r == eq_i32(s@),
{
    match second_eq_piece(s) {
        Some(f) => parse_i32(&trim_chars(&f)),
        None => None,
    }
}

fn eq_usize_value(s: &Vec<char>) -> (r: Option<usize>)
    ensures
        r == eq_usize(s@),
{
    match second_eq_piece(s) {
        Some(f) => parse_usize(&trim_chars(&f)),
        None => None,
    }
}

/// The rows of real numbers on the lines from line i on, up to (not
/// including) the first line that is blank once trimmed or that holds
/// `stop`; lines without a number give no row. Also gives the index of the
/// line where the rows end.
pub open spec fn rows_until(ls: Seq<Seq<char>>, i: int, stop: Seq<char>) -> (Seq<Seq<Seq<char>>>, int)
    decreases ls.len() - i,
{
    if 0 <= i < ls.len() && trim(ls[i]).len() != 0 && !contains_seq(ls[i], stop) {
        let row = line_floats(ls[i]);
        let rest = rows_until(ls, i + 1, stop);
        (if row.len() > 0 {
            seq![row] + rest.0
        } else {
            rest.0
        }, rest.1)
    } else {
        (Seq::empty(), i)
    }
}

pub proof fn lemma_rows_until_end(ls: Seq<Seq<char>>, i: int, stop: Seq<char>)
    requires
        0 <= i,
    ensures
        i <= rows_until(ls, i, stop).1,
        i < ls.len() ==> rows_until(ls, i, stop).1 <= ls.len(),
        i >= ls.len() ==> rows_until(ls, i, stop).1 == i,
    decreases ls.len() - i,
{
    if 0 <= i < ls.len() && trim(ls[i]).len() != 0 && !contains_seq(ls[i], stop) {
        lemma_rows_until_end(ls, i + 1, stop);
    }
}

/// The row sequence `rows` (each a sequence of token strings) as a view.
pub open spec fn rows_view(rows: Vec<Vec<String>>) -> Seq<Seq<Seq<char>>> {
    rows.deep_view()
}

fn read_rows_until(lines: &Vec<String>, i0: usize, stop: &str) -> (r: (Vec<Vec<String>>, usize))
    requires
        i0 <= lines@.len(),
    ensures
        (r.0.deep_view(), r.1 as int) == rows_until(lines_view(lines@), i0 as int, stop@),
{
    let ghost ls = lines_view(lines@);
    let st = chars_of(stop);
    let mut rows: Vec<Vec<String>> = Vec::new();
    let mut i: usize = i0;
    loop
        invariant
            i0 <= i <= lines@.len(),
            ls == lines_view(lines@),
            st@ == stop@,
            rows_until(ls, i0 as int, stop@) == (rows.deep_view() + rows_until(ls, i as int, stop@).0,
                rows_until(ls, i as int, stop@).1),
        ensures
            rows_until(ls, i0 as int, stop@).0 == rows.deep_view(),
            rows_until(ls, i0 as int, stop@).1 == i as int,
        decreases lines@.len() - i,
    {
        if i >= lines.len() {
            assert(rows_until(ls, i as int, stop@) == (Seq::<Seq<Seq<char>>>::empty(), i as int));
            assert(rows.deep_view() + Seq::<Seq<Seq<char>>>::empty() =~= rows.deep_view());
            break;
        }
        let l = chars_of(lines[i].as_str());
        assert(l@ == ls[i as int]);
        let t = trim_chars(&l);
        if t.len() == 0 || contains_chars(&l, &st) {
            assert(rows_until(ls, i as int, stop@) == (Seq::<Seq<Seq<char>>>::empty(), i as int));
            assert(rows.deep_view() + Seq::<Seq<Seq<char>>>::empty() =~= rows.deep_view());
            break;
        }
        let row = line_float_tokens(&l);
        proof {
            let rest = rows_until(ls, i + 1, stop@);
            assert(rows.deep_view() + (seq![row.deep_view()] + rest.0) =~= (rows.deep_view().push(
                row.deep_view(),
            )) + rest.0);
        }
        if row.len() > 0 {
            let ghost r0 = rows.deep_view();
            let ghost rv = row.deep_view();
            rows.push(row);
            assert(rows.deep_view() =~= r0.push(rv));
        }
        i = i + 1;
    }
    (rows, i)
}

/// Rows of real numbers: one per line, each the numbers on it.
pub type TextRows = Seq<Seq<Seq<char>>>;

/// The rows of real numbers on `count` consecutive lines from line `from`
/// on, skipping lines that do not exist or hold no number.
pub open spec fn rows_of_lines(ls: Seq<Seq<char>>, from: int, count: nat) -> TextRows
    decreases count,
{
    if count == 0 {
        Seq::empty()
    } else {
        let row = if 0 <= from < ls.len() {
            line_floats(ls[from])
        } else {
            Seq::empty()
        };
        let rest = rows_of_lines(ls, from + 1, (count - 1) as nat);
        if row.len() > 0 {
            seq![row] + rest
        } else {
            rest
        }
    }
}

proof fn lemma_rows_of_lines_past_end(ls: Seq<Seq<char>>, from: int, count: nat)
    requires
        from >= ls.len(),
    ensures
        rows_of_lines(ls, from, count) == Seq::<Seq<Seq<char>>>::empty(),
    decreases count,
{
    if count > 0 {
        lemma_rows_of_lines_past_end(ls, from + 1, (count - 1) as nat);
    }
}

fn read_rows_of_lines(lines: &Vec<String>, from: usize, count: usize) -> (r: Vec<Vec<String>>)
    ensures
        r.deep_view() == rows_of_lines(lines_view(lines@), from as int, count as nat),
{
    let ghost ls = lines_view(lines@);
    let mut rows: Vec<Vec<String>> = Vec::new();
    let mut k: usize = from;
    let mut done: usize = 0;
    while done < count && k < lines.len()
        invariant
            k == from + done,
            done <= count,
            ls == lines_view(lines@),
            rows_of_lines(ls, from as int, count as nat) == rows.deep_view() + rows_of_lines(
                ls,
                k as int,
                (count - done) as nat,
            ),
        decreases count - done,
    {
        let l = chars_of(lines[k].as_str());
        assert(l@ == ls[k as int]);
        let row = line_float_tokens(&l);
        proof {
            let rest = rows_of_lines(ls, k + 1, (count - done - 1) as nat);
            assert(rows.deep_view() + (seq![row.deep_view()] + rest) =~= (rows.deep_view().push(
                row.deep_view(),
            )) + rest);
        }
        if row.len() > 0 {
            let ghost r0 = rows.deep_view();
            let ghost rv = row.deep_view();
            rows.push(row);
            assert(rows.deep_view() =~= r0.push(rv));
        }
        k = k + 1;
        done = done + 1;
    }
    proof {
        if done < count {
            lemma_rows_of_lines_past_end(ls, k as int, (count - done) as nat);
        }
        assert(rows.deep_view() + Seq::<Seq<Seq<char>>>::empty() =~= rows.deep_view());
    }
    rows
}

/// The contents of an AB01ND result file as its scan leaves them: INFO,
/// NCONT, INDCON, the block sizes, every setting of the controllable A and
/// B (the row count, NCONT at that moment, and the rows), and Z.
pub type NdRes = (i32, usize, usize, Seq<i32>, Seq<(usize, TextRows)>, Seq<(usize, TextRows)>, Option<TextRows>);

/// The scan of an AB01ND result file from line i on, starting from `st`:
/// a line holding "INFO on exit" sets INFO from the text after '=' (0 when
/// it is no number); "order of the controllable" sets NCONT likewise and
/// reads the rows of A from two lines further on; "dimensions of its
/// diagonal" takes the block sizes from the next line and reads the rows of
/// B from three lines further on; "controllability index of the
/// transformed" sets INDCON (kept when no number follows), reads Z (as many
/// rows as the last setting of A had, from the line after its announcement)
/// when two lines further on a line announces it, and ends the scan.
pub open spec fn nd_scan(ls: Seq<Seq<char>>, i: int, st: NdRes) -> NdRes
    decreases ls.len() - i,
{
    if i < 0 || i >= ls.len() {
        st
    } else {
        let s = trim(ls[i]);
        if contains_seq(s, "INFO on exit"@) {
            let info = match eq_i32(s) {
                Some(v) => v,
                None => 0,
            };
            nd_scan(ls, i + 1, (info, st.1, st.2, st.3, st.4, st.5, st.6))
        } else if contains_seq(s, "order of the controllable"@) {
            let nc = match eq_usize(s) {
                Some(v) => v,
                None => 0,
            };
            if i + 2 >= ls.len() {
                (st.0, nc, st.2, st.3, st.4, st.5, st.6)
            } else {
                let rr = rows_until(ls, i + 2, "dimensions of its diagonal"@);
                proof {
                    lemma_rows_until_end(ls, i + 2, "dimensions of its diagonal"@);
                }
                let alog = if rr.0.len() > 0 {
                    st.4.push((nc, rr.0))
                } else {
                    st.4
                };
                nd_scan(ls, rr.1, (st.0, nc, st.2, st.3, alog, st.5, st.6))
            }
        } else if contains_seq(s, "dimensions of its diagonal"@) {
            let nb = if i + 1 < ls.len() {
                line_i32s(ls[i + 1])
            } else {
                st.3
            };
            let ic = if i + 1 < ls.len() {
                line_i32s(ls[i + 1]).len() as usize
            } else {
                st.2
            };
            if i + 3 >= ls.len() {
                (st.0, st.1, ic, nb, st.4, st.5, st.6)
            } else {
                let rr = rows_until(ls, i + 3, "controllability index"@);
                proof {
                    lemma_rows_until_end(ls, i + 3, "controllability index"@);
                }
                let blog = if rr.0.len() > 0 {
                    st.5.push((st.1, rr.0))
                } else {
                    st.5
                };
                nd_scan(ls, rr.1, (st.0, st.1, ic, nb, st.4, blog, st.6))
            }
        } else if contains_seq(s, "controllability index of the transformed"@) {
            let ic = match eq_usize(s) {
                Some(v) => v,
                None => st.2,
            };
            if i + 2 < ls.len() && contains_seq(ls[i + 2], "similarity transformation matrix Z"@) {
                let n = if st.4.len() > 0 {
                    st.4.last().0
                } else {
                    0
                };
                let zr = rows_of_lines(ls, i + 3, n as nat);
                (st.0, st.1, ic, st.3, st.4, st.5, if zr.len() > 0 {
                    Some(zr)
                } else {
                    st.6
                })
            } else {
                (st.0, st.1, ic, st.3, st.4, st.5, st.6)
            }
        } else {
            nd_scan(ls, i + 1, st)
        }
    }
}

/// An AB01ND result file with its real numbers kept as text (see `NdRes`).
pub struct Ab01ndResText {
    pub info: i32,
    pub ncont: usize,
    pub indcon: usize,
    pub nblk: Vec<i32>,
    pub a_cont: Vec<(usize, Vec<Vec<String>>)>,
    pub b_cont: Vec<(usize, Vec<Vec<String>>)>,
    pub z: Option<Vec<Vec<String>>>,
}

impl View for Ab01ndResText {
    type V = NdRes;

    open spec fn view(&self) -> NdRes {
        (self.info, self.ncont, self.indcon, self.nblk@, self.a_cont.deep_view(), self.b_cont.deep_view(), self.z.deep_view())
    }
}

/// What reading an AB01ND result file gives: the error of the source if it
/// had one, else the scan of all its lines from an empty result.
pub open spec fn ab01nd_res_of(ls: Seq<Seq<char>>, fail: Option<Seq<char>>) -> Result<NdRes, Seq<char>> {
    match fail {
        Some(e) => Err(e),
        None => Ok(nd_scan(ls, 0, (0, 0, 0, Seq::empty(), Seq::empty(), Seq::empty(), None))),
    }
}

/// Reads an AB01ND result file (see `ab01nd_res_of`).
pub fn parse_ab01nd_res(lines: &Vec<String>, failure: &Option<String>) -> (r: Result<Ab01ndResText, String>)
    ensures
        match r {
            Ok(d) => ab01nd_res_of(lines_view(lines@), failure_view(*failure)) == Ok::<NdRes, Seq<char>>(d@),
            Err(e) => ab01nd_res_of(lines_view(lines@), failure_view(*failure)) == Err::<NdRes, Seq<char>>(e@),
        },
{
    if let Some(e) = failure {
        return Err(e.clone());
    }
    let ghost ls = lines_view(lines@);
    let p_info = chars_of("INFO on exit");
    let p_order = chars_of("order of the controllable");
    let p_dims = chars_of("dimensions of its diagonal");
    let p_index = chars_of("controllability index of the transformed");
    let p_z = chars_of("similarity transformation matrix Z");
    let mut res = Ab01ndResText {
        info: 0,
        ncont: 0,
        indcon: 0,
        nblk: Vec::new(),
        a_cont: Vec::new(),
        b_cont: Vec::new(),
        z: None,
    };
    let ghost init: NdRes = (0, 0, 0, Seq::empty(), Seq::empty(), Seq::empty(), None);
    assert(res@ =~~= init);
    let nlines = lines.len();
    let mut i: usize = 0;
    loop
        invariant
            i <= lines@.len(),
            nlines == lines@.len(),
            ls == lines_view(lines@),
            p_info@ == "INFO on exit"@,
            p_order@ == "order of the controllable"@,
            p_dims@ == "dimensions of its diagonal"@,
            p_index@ == "controllability index of the transformed"@,
            p_z@ == "similarity transformation matrix Z"@,
            nd_scan(ls, 0, init) == nd_scan(ls, i as int, res@),
        ensures
            nd_scan(ls, 0, init) == res@,
        decreases lines@.len() - i,
    {
        if i >= lines.len() {
            break;
        }
        let l = chars_of(lines[i].as_str());
        assert(l@ == ls[i as int]);
        let s = trim_chars(&l);
        if contains_chars(&s, &p_info) {
            res.info = match eq_i32_value(&s) {
                Some(v) => v,
                None => 0,
            };
            i = i + 1;
            continue;
        }
        if contains_chars(&s, &p_order) {
            res.ncont = match eq_usize_value(&s) {
                Some(v) => v,
                None => 0,
            };
            if lines.len() - i <= 2 {
                break;
            }
            let (rows, next) = read_rows_until(lines, i + 2, "dimensions of its diagonal");
            if rows.len() > 0 {
                let ghost a0 = res.a_cont.deep_view();
                let ghost e = (res.ncont, rows.deep_view());
                res.a_cont.push((res.ncont, rows));
                assert(res.a_cont.deep_view() =~= a0.push(e));
            }
            proof {
                lemma_rows_until_end(ls, i + 2, "dimensions of its diagonal"@);
            }
            i = next;
            continue;
        }
        if contains_chars(&s, &p_dims) {
            if lines.len() - i > 1 {
                let l1 = chars_of(lines[i + 1].as_str());
                assert(l1@ == ls[i + 1]);
                res.nblk = line_i32_values(&l1);
                res.indcon = res.nblk.len();
            }
            if lines.len() - i <= 3 {
                break;
            }
            let (rows, next) = read_rows_until(lines, i + 3, "controllability index");
            if rows.len() > 0 {
                let ghost b0 = res.b_cont.deep_view();
                let ghost e = (res.ncont, rows.deep_view());
                res.b_cont.push((res.ncont, rows));
                assert(res.b_cont.deep_view() =~= b0.push(e));
            }
            proof {
                lemma_rows_until_end(ls, i + 3, "controllability index"@);
            }
            i = next;
            continue;
        }
        if contains_chars(&s, &p_index) {
            res.indcon = match eq_usize_value(&s) {
                Some(v) => v,
                None => res.indcon,
            };
            if lines.len() - i > 2 {
                let l2 = chars_of(lines[i + 2].as_str());
                assert(l2@ == ls[i + 2]);
                if contains_chars(&l2, &p_z) {
                    let n: usize = if res.a_cont.len() > 0 {
                        res.a_cont[res.a_cont.len() - 1].0
                    } else {
                        0
                    };
                    let zr = if lines.len() - i > 3 {
                        read_rows_of_lines(lines, i + 3, n)
                    } else {
                        proof {
                            lemma_rows_of_lines_past_end(ls, i + 3, n as nat);
                        }
                        Vec::new()
                    };
                    if zr.len() > 0 {
                        res.z = Some(zr);
                    }
                }
            }
            break;
        }
        i = i + 1;
    }
    Ok(res)
}

/// The contents of an AB01MD result file as its scan leaves them: NCONT,
/// every setting of the controllable A and B (row count and rows), and Z.
pub type MdRes = (usize, Seq<(usize, TextRows)>, Seq<(usize, TextRows)>, Option<TextRows>);

/// The scan of an AB01MD result file from line i on: "order of the
/// controllable" sets NCONT from the text after '=' (0 when it is no number)
/// and reads the rows of A from two lines further on; "input/state vector"
/// or "input/state matrix" reads the rows of B from the next line on;
/// "similarity transformation matrix Z" reads as many rows of Z as A has
/// rows from the next lines, and ends the scan.
pub open spec fn md_scan(ls: Seq<Seq<char>>, i: int, st: MdRes) -> MdRes
    decreases ls.len() - i,
{
    if i < 0 || i >= ls.len() {
        st
    } else {
        let s = trim(ls[i]);
        if contains_seq(s, "order of the controllable"@) {
            let nc = match eq_usize(s) {
                Some(v) => v,
                None => 0,
            };
            if i + 2 >= ls.len() {
                (nc, st.1, st.2, st.3)
            } else {
                let rr = rows_until(ls, i + 2, "input/state vector"@);
                proof {
                    lemma_rows_until_end(ls, i + 2, "input/state vector"@);
                }
                let alog = if rr.0.len() > 0 {
                    st.1.push((nc, rr.0))
                } else {
                    st.1
                };
                md_scan(ls, rr.1, (nc, alog, st.2, st.3))
            }
        } else if contains_seq(s, "input/state vector"@) || contains_seq(s, "input/state matrix"@) {
            let rr = rows_until(ls, i + 1, "similarity transformation"@);
            proof {
                lemma_rows_until_end(ls, i + 1, "similarity transformation"@);
            }
            let blog = if rr.0.len() > 0 {
                st.2.push((st.0, rr.0))
            } else {
                st.2
            };
            md_scan(ls, rr.1, (st.0, st.1, blog, st.3))
        } else if contains_seq(s, "similarity transformation matrix Z"@) {
            let n = if st.1.len() > 0 {
                st.1.last().0
            } else {
                0
            };
            let zr = rows_of_lines(ls, i + 1, n as nat);
            (st.0, st.1, st.2, if zr.len() > 0 {
                Some(zr)
            } else {
                st.3
            })
        } else {
            md_scan(ls, i + 1, st)
        }
    }
}

/// An AB01MD result file with its real numbers kept as text (see `MdRes`).
pub struct Ab01mdResText {
    pub ncont: usize,
    pub a_cont: Vec<(usize, Vec<Vec<String>>)>,
    pub b_cont: Vec<(usize, Vec<Vec<String>>)>,
    pub z: Option<Vec<Vec<String>>>,
}

impl View for Ab01mdResText {
    type V = MdRes;

    open spec fn view(&self) -> MdRes {
        (self.ncont, self.a_cont.deep_view(), self.b_cont.deep_view(), self.z.deep_view())
    }
}

/// What reading an AB01MD result file gives: the error of the source if it
/// had one, else the scan of all its lines from an empty result.
pub open spec fn ab01md_res_of(ls: Seq<Seq<char>>, fail: Option<Seq<char>>) -> Result<MdRes, Seq<char>> {
    match fail {
        Some(e) => Err(e),
        None => Ok(md_scan(ls, 0, (0, Seq::empty(), Seq::empty(), None))),
    }
}

/// Reads an AB01MD result file (see `ab01md_res_of`).
pub fn parse_ab01md_res(lines: &Vec<String>, failure: &Option<String>) -> (r: Result<Ab01mdResText, String>)
    ensures
        match r {
            Ok(d) => ab01md_res_of(lines_view(lines@), failure_view(*failure)) == Ok::<MdRes, Seq<char>>(d@),
            Err(e) => ab01md_res_of(lines_view(lines@), failure_view(*failure)) == Err::<MdRes, Seq<char>>(e@),
        },
{
    if let Some(e) = failure {
        return Err(e.clone());
    }
    let ghost ls = lines_view(lines@);
    let p_order = chars_of("order of the controllable");
    let p_vec = chars_of("input/state vector");
    let p_mat = chars_of("input/state matrix");
    let p_z = chars_of("similarity transformation matrix Z");
    let mut res = Ab01mdResText { ncont: 0, a_cont: Vec::new(), b_cont: Vec::new(), z: None };
    let ghost init: MdRes = (0, Seq::empty(), Seq::empty(), None);
    assert(res@ =~~= init);
    let nlines = lines.len();
    let mut i: usize = 0;
    loop
        invariant
            i <= lines@.len(),
            nlines == lines@.len(),
            ls == lines_view(lines@),
            p_order@ == "order of the controllable"@,
            p_vec@ == "input/state vector"@,
            p_mat@ == "input/state matrix"@,
            p_z@ == "similarity transformation matrix Z"@,
            md_scan(ls, 0, init) == md_scan(ls, i as int, res@),
        ensures
            md_scan(ls, 0, init) == res@,
        decreases lines@.len() - i,
    {
        if i >= lines.len() {
            break;
        }
        let l = chars_of(lines[i].as_str());
        assert(l@ == ls[i as int]);
        let s = trim_chars(&l);
        if contains_chars(&s, &p_order) {
            res.ncont = match eq_usize_value(&s) {
                Some(v) => v,
                None => 0,
            };
            if lines.len() - i <= 2 {
                break;
            }
            let (rows, next) = read_rows_until(lines, i + 2, "input/state vector");
            if rows.len() > 0 {
                let ghost a0 = res.a_cont.deep_view();
                let ghost e = (res.ncont, rows.deep_view());
                res.a_cont.push((res.ncont, rows));
                assert(res.a_cont.deep_view() =~= a0.push(e));
            }
            proof {
                lemma_rows_until_end(ls, i + 2, "input/state vector"@);
            }
            i = next;
            continue;
        }
        if contains_chars(&s, &p_vec) || contains_chars(&s, &p_mat) {
            let (rows, next) = read_rows_until(lines, i + 1, "similarity transformation");
            if rows.len() > 0 {
                let ghost b0 = res.b_cont.deep_view();
                let ghost e = (res.ncont, rows.deep_view());
                res.b_cont.push((res.ncont, rows));
                assert(res.b_cont.deep_view() =~= b0.push(e));
            }
            proof {
                lemma_rows_until_end(ls, i + 1, "similarity transformation"@);
            }
            i = next;
            continue;
        }
        if contains_chars(&s, &p_z) {
            let n: usize = if res.a_cont.len() > 0 {
                res.a_cont[res.a_cont.len() - 1].0
            } else {
                0
            };
            let zr = read_rows_of_lines(lines, i + 1, n);
            if zr.len() > 0 {
                res.z = Some(zr);
            }
            break;
        }
        i = i + 1;
    }
    Ok(res)
}

/// The header line of an AB01ND input file as the writer lays it out.
pub open spec fn nd_header_line(n: usize, m: usize, tol: Seq<char>, jobz: char) -> Seq<char> {
    Seq::<char>::empty() + "   "@ + dec_string(n as nat) + "     "@ + dec_string(m as nat) + "     "@ + tol
        + "     "@ + seq![jobz]
}

/// Row i of a matrix of `width` columns listed row after row in `v`: its
/// entries, each preceded by a blank.
pub open spec fn row_line(v: Seq<Seq<char>>, i: int, width: int) -> Seq<char> {
    spaced(v.subrange(i * width, i * width + width), " "@)
}

/// The lines the AB01ND input writer produces: the title, the header, the
/// N rows of A and the M columns of B (each column on one line).
pub open spec fn ab01nd_dat_lines(d: (usize, usize, Seq<char>, char, Seq<Seq<char>>, Seq<Seq<char>>)) -> Seq<Seq<char>> {
    let n = d.0 as int;
    seq![" AB01ND EXAMPLE PROGRAM DATA"@, nd_header_line(d.0, d.1, d.2, d.3)] + Seq::new(
        d.0 as nat,
        |i: int| row_line(d.4, i, n),
    ) + Seq::new(d.1 as nat, |j: int| row_line(d.5, j, n))
}

fn push_str(dst: &mut Vec<char>, s: &str)
    ensures
        final(dst)@ == old(dst)@ + s@,
{
    let mut c = chars_of(s);
    dst.append(&mut c);
}

fn push_chars(dst: &mut Vec<char>, s: &Vec<char>)
    ensures
        final(dst)@ == old(dst)@ + s@,
{
    let mut c = s.clone();
    dst.append(&mut c);
}

/// Lays out row i of a `width`-column matrix listed row after row.
fn render_row(v: &Vec<String>, i: usize, width: usize) -> (r: String)
    requires
        (i + 1) * width <= v@.len(),
    ensures
        r@ == row_line(v.deep_view(), i as int, width as int),
{
    let vl = v.len();
    proof {
        assert((i + 1) * width == i * width + width) by (nonlinear_arith);
    }
    assert(i * width + width <= vl);
    let base = i * width;
    let ghost sub = v.deep_view().subrange(base as int, base + width);
    let mut line: Vec<char> = Vec::new();
    let mut j: usize = 0;
    while j < width
        invariant
            j <= width,
            vl == v@.len(),
            base + width <= v@.len(),
            sub == v.deep_view().subrange(base as int, base + width),
            line@ == spaced(sub.take(j as int), " "@),
        decreases width - j,
    {
        let ghost l0 = line@;
        push_str(&mut line, " ");
        let c = chars_of(v[base + j].as_str());
        push_chars(&mut line, &c);
        assert(sub.take(j + 1).drop_last() =~= sub.take(j as int));
        assert(sub.take(j + 1).last() == v@[base + j]@);
        assert(line@ == spaced(sub.take(j + 1), " "@));
        j = j + 1;
    }
    assert(sub.take(width as int) =~= sub);
    string_of(&line)
}

/// The lines of an AB01ND input file for `d` (see `ab01nd_dat_lines`).
pub fn render_ab01nd_dat(d: &Ab01ndDatText) -> (r: Vec<String>)
    requires
        d.a@.len() == d.n * d.n,
        d.b@.len() == d.n * d.m,
    ensures
        r.deep_view() == ab01nd_dat_lines(d@),
{
    let mut out: Vec<String> = Vec::new();
    let t = message(" AB01ND EXAMPLE PROGRAM DATA");
    out.push(t);
    let mut h: Vec<char> = Vec::new();
    push_str(&mut h, "   ");
    push_chars(&mut h, &decimal_chars(d.n));
    push_str(&mut h, "     ");
    push_chars(&mut h, &decimal_chars(d.m));
    push_str(&mut h, "     ");
    push_chars(&mut h, &chars_of(d.tol.as_str()));
    push_str(&mut h, "     ");
    h.push(d.jobz);
    assert(h@ =~= nd_header_line(d.n, d.m, d.tol@, d.jobz));
    out.push(string_of(&h));
    let ghost head = out.deep_view();
    assert(head =~= seq![" AB01ND EXAMPLE PROGRAM DATA"@, nd_header_line(d.n, d.m, d.tol@, d.jobz)]);
    let mut i: usize = 0;
    while i < d.n
        invariant
            i <= d.n,
            d.a@.len() == d.n * d.n,
            out.deep_view() == head + Seq::new(i as nat, |k: int| row_line(d.a.deep_view(), k, d.n as int)),
        decreases d.n - i,
    {
        proof {
            assert((i + 1) * d.n <= d.n * d.n) by (nonlinear_arith)
                requires
                    i < d.n,
            ;
        }
        let row = render_row(&d.a, i, d.n);
        let ghost o0 = out.deep_view();
        let ghost rv = row@;
        out.push(row);
        assert(out.deep_view() =~= o0.push(rv));
        i = i + 1;
        assert(out.deep_view() =~= head + Seq::new(i as nat, |k: int| row_line(d.a.deep_view(), k, d.n as int)));
    }
    let ghost mid = out.deep_view();
    let mut j: usize = 0;
    while j < d.m
        invariant
            j <= d.m,
            d.b@.len() == d.n * d.m,
            out.deep_view() == mid + Seq::new(j as nat, |k: int| row_line(d.b.deep_view(), k, d.n as int)),
        decreases d.m - j,
    {
        proof {
            assert((j + 1) * d.n <= d.n * d.m) by (nonlinear_arith)
                requires
                    j < d.m,
            ;
        }
        let row = render_row(&d.b, j, d.n);
        let ghost o0 = out.deep_view();
        let ghost rv = row@;
        out.push(row);
        assert(out.deep_view() =~= o0.push(rv));
        j = j + 1;
        assert(out.deep_view() =~= mid + Seq::new(j as nat, |k: int| row_line(d.b.deep_view(), k, d.n as int)));
    }
    out
}

proof fn lemma_nd_title()
    ensures
        is_title(trim(" AB01ND EXAMPLE PROGRAM DATA"@), "AB01ND"@),
{
    let l = " AB01ND EXAMPLE PROGRAM DATA"@;
    reveal_strlit(" AB01ND EXAMPLE PROGRAM DATA");
    reveal_strlit("AB01ND");
    assert(is_ws(l[0]));
    let x = l.drop_first();
    assert(!is_ws(x[0]));
    assert(trim_start(x) == x);
    assert(trim_start(l) == x);
    assert(!is_ws(x.last()));
    assert(trim_end(x) == x);
    assert(x.subrange(0, 6) =~= "AB01ND"@);
}

pub proof fn lemma_usize_of_dec(n: usize)
    ensures
        usize_of(dec_string(n as nat)) == Some(n),
{
    lemma_dec_string(n as nat);
    assert(unsigned_digits(dec_string(n as nat)) == dec_string(n as nat));
}

pub proof fn lemma_sep_blanks()
    ensures
        "   "@.len() > 0 && all_ws("   "@),
        "     "@.len() > 0 && all_ws("     "@),
        " "@.len() > 0 && all_ws(" "@),
{
    reveal_strlit("   ");
    reveal_strlit("     ");
    reveal_strlit(" ");
}

proof fn lemma_nd_header_roundtrip(n: usize, m: usize, tol: Seq<char>, jobz: char)
    requires
        float_syntax(tol),
        !is_ws(jobz),
    ensures
        nd_header(nd_header_line(n, m, tol, jobz)) == Ok::<(usize, usize, Seq<char>, char), Seq<char>>(
            (n, m, tol, jobz),
        ),
{
    lemma_sep_blanks();
    let dn = dec_string(n as nat);
    let dm = dec_string(m as nat);
    lemma_dec_string(n as nat);
    lemma_dec_string(m as nat);
    lemma_float_syntax_word(tol);
    assert(no_ws(dn));
    assert(no_ws(dm));
    let j = seq![jobz];
    assert(no_ws(j));
    let e = Seq::<char>::empty();
    lemma_ws_tokens_append(e, "   "@, dn);
    assert(ws_tokens(e) =~= Seq::<Seq<char>>::empty());
    let s1 = e + "   "@ + dn;
    lemma_ws_tokens_append(s1, "     "@, dm);
    let s2 = s1 + "     "@ + dm;
    lemma_ws_tokens_append(s2, "     "@, tol);
    let s3 = s2 + "     "@ + tol;
    lemma_ws_tokens_append(s3, "     "@, j);
    let p = ws_tokens(nd_header_line(n, m, tol, jobz));
    assert(p =~= seq![dn, dm, tol, j]);
    lemma_usize_of_dec(n);
    lemma_usize_of_dec(m);
}

/// Reading `rows` lines laid out by `row_line` from line `base` on gives
/// back the tokens they were made of.
proof fn lemma_float_lines_of_rows(
    ls: Seq<Seq<char>>,
    base: int,
    v: Seq<Seq<char>>,
    rows: int,
    width: int,
    r: int,
    missing: Seq<char>,
    bad: Seq<char>,
)
    requires
        0 <= base,
        0 <= width,
        0 <= r <= rows,
        base + rows <= ls.len(),
        v.len() == rows * width,
        all_float(v),
        forall|i: int| 0 <= i < rows ==> #[trigger] ls[base + i] == row_line(v, i, width),
    ensures
        float_lines(ls, None, base + r, (rows - r) as nat, missing, bad) == Ok::<Seq<Seq<char>>, Seq<char>>(
            v.subrange(r * width, rows * width),
        ),
    decreases rows - r,
{
    if r == rows {
        assert(v.subrange(r * width, rows * width) =~= Seq::<Seq<char>>::empty());
    } else {
        lemma_float_lines_of_rows(ls, base, v, rows, width, r + 1, missing, bad);
        lemma_sep_blanks();
        assert((r + 1) * width == r * width + width) by (nonlinear_arith);
        assert(r * width + width <= rows * width) by (nonlinear_arith)
            requires
                r < rows,
                0 <= width,
        ;
        let sub = v.subrange(r * width, r * width + width);
        assert forall|i: int| 0 <= i < sub.len() implies (#[trigger] sub[i]).len() > 0 && no_ws(sub[i]) by {
            assert(sub[i] == v[r * width + i]);
            lemma_float_syntax_word(v[r * width + i]);
        }
        lemma_ws_tokens_spaced(sub, " "@);
        assert(ls[base + r] == row_line(v, r, width));
        assert(all_float(sub)) by {
            assert forall|i: int| 0 <= i < sub.len() implies float_syntax(#[trigger] sub[i]) by {
                assert(sub[i] == v[r * width + i]);
            }
        }
        assert(sub + v.subrange((r + 1) * width, rows * width) =~= v.subrange(r * width, rows * width));
    }
}

/// An AB01ND input file written from `d` reads back as `d`: the title line
/// is recognized, N, M, TOL and JOBZ come back from the header, and the
/// tokens of A and B from their lines, provided the text of every real
/// number (TOL and the entries) has the real-number syntax, JOBZ is not
/// whitespace and A and B have N x N and N x M entries.
pub proof fn lemma_ab01nd_dat_roundtrip(d: (usize, usize, Seq<char>, char, Seq<Seq<char>>, Seq<Seq<char>>))
    requires
        d.4.len() == d.0 * d.0,
        d.5.len() == d.0 * d.1,
        float_syntax(d.2),
        !is_ws(d.3),
        all_float(d.4),
        all_float(d.5),
    ensures
        ab01nd_dat_of(ab01nd_dat_lines(d), None) == Ok::<
            (usize, usize, Seq<char>, char, Seq<Seq<char>>, Seq<Seq<char>>),
            Seq<char>,
        >(d),
{
    let ls = ab01nd_dat_lines(d);
    let n = d.0 as int;
    let m = d.1 as int;
    assert(ls.len() == 2 + n + m);
    assert(ls[0] == " AB01ND EXAMPLE PROGRAM DATA"@);
    assert(ls[1] == nd_header_line(d.0, d.1, d.2, d.3));
    lemma_nd_title();
    lemma_nd_header_roundtrip(d.0, d.1, d.2, d.3);
    assert forall|i: int| 0 <= i < n implies #[trigger] ls[2 + i] == row_line(d.4, i, n) by {}
    assert forall|i: int| 0 <= i < m implies #[trigger] ls[(2 + n) + i] == row_line(d.5, i, n) by {}
    lemma_float_lines_of_rows(ls, 2, d.4, n, n, 0, "missing A row"@, "bad A value"@);
    lemma_float_lines_of_rows(ls, 2 + n, d.5, m, n, 0, "missing B row"@, "bad B value"@);
    assert(d.4.subrange(0, n * n) =~= d.4);
    assert(m * n == n * m) by (nonlinear_arith);
    assert(d.5.subrange(0, m * n) =~= d.5);
}

/// Each row of cells on a line of its own, every cell preceded by a blank.
pub open spec fn block_lines(rows: TextRows) -> Seq<Seq<char>> {
    Seq::new(rows.len(), |i: int| spaced(rows[i], " "@))
}

/// The block sizes as the result writer prints them: each right-aligned in
/// two columns and preceded by a blank.
pub open spec fn nblk_line(nblk: Seq<i32>) -> Seq<char> {
    spaced(Seq::new(nblk.len(), |i: int| right_aligned(i32_string(nblk[i]), 2)), " "@)
}

/// The lines the AB01ND result writer produces from INFO, NCONT, INDCON,
/// the block sizes and the already formatted cells of A, B and Z: after the
/// title and a blank line, either the INFO line alone (INFO != 0) or the
/// order, the rows of A, the block sizes, the rows of B, the index, and Z
/// when there is one.
pub open spec fn ab01nd_res_lines(
    info: i32,
    ncont: usize,
    indcon: usize,
    nblk: Seq<i32>,
    a: TextRows,
    b: TextRows,
    z: Option<TextRows>,
) -> Seq<Seq<char>> {
    let head = seq![" AB01ND EXAMPLE PROGRAM RESULTS"@, Seq::<char>::empty()];
    if info != 0 {
        head.push(" INFO on exit from AB01ND = "@ + i32_string(info))
    } else {
        head + seq![
            " The order of the controllable state-space representation = "@ + dec_string(ncont as nat),
            Seq::<char>::empty(),
            " The transformed state dynamics matrix of a controllable realization is "@,
        ] + block_lines(a) + seq![
            Seq::<char>::empty(),
            " and the dimensions of its diagonal blocks are "@,
            nblk_line(nblk),
            Seq::<char>::empty(),
            " The transformed input/state matrix B of a controllable realization is "@,
        ] + block_lines(b) + seq![
            Seq::<char>::empty(),
            " The controllability index of the transformed system representation = "@ + dec_string(
                indcon as nat,
            ),
        ] + match z {
            Some(zr) => seq![Seq::<char>::empty(), " The similarity transformation matrix Z is "@]
                + block_lines(zr),
            None => Seq::empty(),
        }
    }
}

fn push_line(out: &mut Vec<String>, l: &Vec<char>)
    ensures
        final(out).deep_view() == old(out).deep_view().push(l@),
{
    let ghost o0 = out.deep_view();
    let s = string_of(l);
    out.push(s);
    assert(out.deep_view() =~= o0.push(l@));
}

fn push_text(out: &mut Vec<String>, t: &str)
    ensures
        final(out).deep_view() == old(out).deep_view().push(t@),
{
    push_line(out, &chars_of(t));
}

fn cells_line(cells: &Vec<String>) -> (r: Vec<char>)
    ensures
        r@ == spaced(cells.deep_view(), " "@),
{
    let ghost cv = cells.deep_view();
    let mut line: Vec<char> = Vec::new();
    let mut j: usize = 0;
    while j < cells.len()
        invariant
            j <= cells@.len(),
            cv == cells.deep_view(),
            line@ == spaced(cv.take(j as int), " "@),
        decreases cells@.len() - j,
    {
        push_str(&mut line, " ");
        push_chars(&mut line, &chars_of(cells[j].as_str()));
        assert(cv.take(j + 1).drop_last() =~= cv.take(j as int));
        assert(cv.take(j + 1).last() == cells@[j as int]@);
        j = j + 1;
    }
    assert(cv.take(j as int) =~= cv);
    line
}

fn push_block(out: &mut Vec<String>, rows: &Vec<Vec<String>>)
    ensures
        final(out).deep_view() == old(out).deep_view() + block_lines(rows.deep_view()),
{
    let ghost o0 = out.deep_view();
    let ghost rv = rows.deep_view();
    let mut i: usize = 0;
    while i < rows.len()
        invariant
            i <= rows@.len(),
            rv == rows.deep_view(),
            out.deep_view() == o0 + block_lines(rv).take(i as int),
        decreases rows@.len() - i,
    {
        let l = cells_line(&rows[i]);
        assert(rows@[i as int].deep_view() == rv[i as int]);
        push_line(out, &l);
        i = i + 1;
        assert(out.deep_view() =~= o0 + block_lines(rv).take(i as int));
    }
    assert(block_lines(rv).take(i as int) =~= block_lines(rv));
}

/// The lines of an AB01ND result file (see `ab01nd_res_lines`); the cells
/// of A, B and Z come already formatted.
pub fn render_ab01nd_res(
    info: i32,
    ncont: usize,
    indcon: usize,
    nblk: &Vec<i32>,
    a_cont: &Vec<Vec<String>>,
    b_cont: &Vec<Vec<String>>,
    z: &Option<Vec<Vec<String>>>,
) -> (r: Vec<String>)
    ensures
        r.deep_view() == ab01nd_res_lines(
            info,
            ncont,
            indcon,
            nblk@,
            a_cont.deep_view(),
            b_cont.deep_view(),
            z.deep_view(),
        ),
{
    let empty: Vec<char> = Vec::new();
    let mut out: Vec<String> = Vec::new();
    push_text(&mut out, " AB01ND EXAMPLE PROGRAM RESULTS");
    push_line(&mut out, &empty);
    if info != 0 {
        let mut l = chars_of(" INFO on exit from AB01ND = ");
        push_chars(&mut l, &i32_chars(info));
        push_line(&mut out, &l);
        return out;
    }
    let mut l = chars_of(" The order of the controllable state-space representation = ");
    push_chars(&mut l, &decimal_chars(ncont));
    push_line(&mut out, &l);
    push_line(&mut out, &empty);
    push_text(&mut out, " The transformed state dynamics matrix of a controllable realization is ");
    push_block(&mut out, a_cont);
    push_line(&mut out, &empty);
    push_text(&mut out, " and the dimensions of its diagonal blocks are ");
    let mut nl: Vec<char> = Vec::new();
    let mut k: usize = 0;
    let ghost cells = Seq::new(nblk@.len(), |i: int| right_aligned(i32_string(nblk@[i]), 2));
    while k < nblk.len()
        invariant
            k <= nblk@.len(),
            cells == Seq::new(nblk@.len(), |i: int| right_aligned(i32_string(nblk@[i]), 2)),
            nl@ == spaced(cells.take(k as int), " "@),
        decreases nblk@.len() - k,
    {
        push_str(&mut nl, " ");
        push_chars(&mut nl, &right_align(&i32_chars(nblk[k]), 2));
        assert(cells.take(k + 1).drop_last() =~= cells.take(k as int));
        k = k + 1;
    }
    assert(cells.take(k as int) =~= cells);
    push_line(&mut out, &nl);
    push_line(&mut out, &empty);
    push_text(&mut out, " The transformed input/state matrix B of a controllable realization is ");
    push_block(&mut out, b_cont);
    push_line(&mut out, &empty);
    let mut l2 = chars_of(" The controllability index of the transformed system representation = ");
    push_chars(&mut l2, &decimal_chars(indcon));
    push_line(&mut out, &l2);
    match z {
        Some(zr) => {
            push_line(&mut out, &empty);
            push_text(&mut out, " The similarity transformation matrix Z is ");
            push_block(&mut out, zr);
        },
        None => {},
    }
    proof {
        let e = Seq::<char>::empty();
        let expect = ab01nd_res_lines(info, ncont, indcon, nblk@, a_cont.deep_view(), b_cont.deep_view(), z.deep_view());
        assert(out.deep_view() =~= expect);
    }
    out
}

} // verus!
