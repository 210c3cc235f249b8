//! Reading back what the writers produce: an AB01ND result file written by
//! `render_ab01nd_res` reads back, through `parse_ab01nd_res`, as the values
//! it was written from, for a failed run and for a successful one.

use vstd::prelude::*;
use crate::slicot_io::{
    ab01nd_res_lines,
    ab01nd_res_of,
    block_lines,
    eq_i32,
    eq_usize,
    floats_among,
    i32s_among,
    line_floats,
    line_i32s,
    lemma_sep_blanks,
    lemma_usize_of_dec,
    nblk_line,
    nd_scan,
    rows_of_lines,
    rows_until,
    NdRes,
    TextRows,
};
use crate::text::{
    all_ws,
    ascii_lower,
    contains_seq,
    dec_string,
    decimal,
    equals_ignoring_case,
    float_syntax,
    i32_of,
    i32_string,
    is_decimal_number,
    is_digit,
    is_exp_char,
    is_exponent,
    is_mantissa,
    is_special_float,
    is_ws,
    lemma_dec_string,
    lemma_float_syntax_word,
    lemma_second_eq_field_skip,
    lemma_trim_empty,
    lemma_trim_end_at,
    lemma_trim_start_at,
    lemma_until_eq_take,
    lemma_ws_tokens_append,
    lemma_ws_tokens_spaced,
    lemma_ws_tokens_trailing_ws,
    no_ws,
    occurs_at,
    right_aligned,
    second_eq_field,
    signed_digits,
    spaced,
    trim,
    ws_tokens,
};

verus! {

/// `p` cannot occur in `s` when one of its characters does not.
proof fn lemma_absent_char(s: Seq<char>, p: Seq<char>, j: int)
    requires
        0 <= j < p.len(),
        forall|k: int| 0 <= k < s.len() ==> #[trigger] s[k] != p[j],
    ensures
        !contains_seq(s, p),
{
    if contains_seq(s, p) {
        let i = choose|i: int| occurs_at(s, p, i);
        assert(s.subrange(i, i + p.len())[j] == s[i + j]);
    }
}

/// `p` cannot occur in `s` when two adjacent characters of it never stand
/// side by side in `s`.
proof fn lemma_absent_pair(s: Seq<char>, p: Seq<char>, j: int)
    requires
        0 <= j < p.len() - 1,
        forall|k: int| 0 <= k < s.len() - 1 ==> !(#[trigger] s[k] == p[j] && s[k + 1] == p[j + 1]),
    ensures
        !contains_seq(s, p),
{
    if contains_seq(s, p) {
        let i = choose|i: int| occurs_at(s, p, i);
        assert(s.subrange(i, i + p.len())[j] == s[i + j]);
        assert(s.subrange(i, i + p.len())[j + 1] == s[i + j + 1]);
    }
}

/// The characters that can appear in a real number: digits, '.', signs,
/// exponent markers and the letters of `inf`, `infinity` and `nan`.
pub open spec fn float_char(c: char) -> bool {
    ||| is_digit(c)
    ||| c == '.' || c == '+' || c == '-' || c == 'e' || c == 'E'
    ||| {
        let l = ascii_lower(c);
        l == 'i' || l == 'n' || l == 'f' || l == 't' || l == 'y' || l == 'a'
    }
}

proof fn lemma_mantissa_chars(u: Seq<char>)
    requires
        is_mantissa(u),
    ensures
        forall|k: int| 0 <= k < u.len() ==> float_char(#[trigger] u[k]),
        exists|k: int| 0 <= k < u.len() && is_digit(#[trigger] u[k]),
{
}

proof fn lemma_exponent_chars(v: Seq<char>)
    requires
        is_exponent(v),
    ensures
        forall|k: int| 0 <= k < v.len() ==> float_char(#[trigger] v[k]),
{
    let w = signed_digits(v);
    assert forall|k: int| 0 <= k < v.len() implies float_char(#[trigger] v[k]) by {
        if v.len() > 0 && (v[0] == '+' || v[0] == '-') {
            if k > 0 {
                assert(v[k] == w[k - 1]);
            }
        } else {
            assert(v[k] == w[k]);
        }
    }
}

/// A real number is made of `float_char`s, and holds a digit unless it is
/// one of the words (then it has at least 3 characters).
pub proof fn lemma_float_chars(s: Seq<char>)
    requires
        float_syntax(s),
    ensures
        forall|k: int| 0 <= k < s.len() ==> float_char(#[trigger] s[k]),
        (exists|k: int| 0 <= k < s.len() && is_digit(#[trigger] s[k])) || s.len() >= 3,
{
    let t = signed_digits(s);
    let off: int = if s.len() > 0 && (s[0] == '+' || s[0] == '-') {
        1
    } else {
        0
    };
    assert(t =~= s.skip(off));
    if is_special_float(t) {
        assert forall|k: int| 0 <= k < s.len() implies float_char(#[trigger] s[k]) by {
            if k >= off {
                assert(s[k] == t[k - off]);
                let l = ascii_lower(t[k - off]);
                if equals_ignoring_case(t, seq!['i', 'n', 'f']) {
                    assert(l == seq!['i', 'n', 'f'][k - off]);
                } else if equals_ignoring_case(t, seq!['i', 'n', 'f', 'i', 'n', 'i', 't', 'y']) {
                    assert(l == seq!['i', 'n', 'f', 'i', 'n', 'i', 't', 'y'][k - off]);
                } else {
                    assert(l == seq!['n', 'a', 'n'][k - off]);
                }
            }
        }
    } else {
        assert(is_decimal_number(t));
        let k0 = choose|k: int|
            0 <= k <= t.len() && is_mantissa(#[trigger] t.take(k)) && (k == t.len() || (is_exp_char(t[k])
                && is_exponent(t.skip(k + 1))));
        lemma_mantissa_chars(t.take(k0));
        if k0 < t.len() {
            lemma_exponent_chars(t.skip(k0 + 1));
        }
        assert forall|k: int| 0 <= k < s.len() implies float_char(#[trigger] s[k]) by {
            if k >= off {
                let q = k - off;
                assert(s[k] == t[q]);
                if q < k0 {
                    assert(t.take(k0)[q] == t[q]);
                } else if q > k0 {
                    assert(t.skip(k0 + 1)[q - (k0 + 1)] == t[q]);
                }
            }
        }
        let d = choose|k: int| 0 <= k < t.take(k0).len() && is_digit(#[trigger] t.take(k0)[k]);
        assert(s[d + off] == t.take(k0)[d]);
    }
}

/// Every character of `spaced(toks, sep)` comes from `sep` or from a token.
proof fn lemma_spaced_chars(toks: Seq<Seq<char>>, sep: Seq<char>, ok: spec_fn(char) -> bool)
    requires
        forall|k: int| 0 <= k < sep.len() ==> ok(#[trigger] sep[k]),
        forall|i: int, k: int| 0 <= i < toks.len() && 0 <= k < toks[i].len() ==> ok(#[trigger] toks[i][k]),
    ensures
        forall|k: int| 0 <= k < spaced(toks, sep).len() ==> ok(#[trigger] spaced(toks, sep)[k]),
    decreases toks.len(),
{
    if toks.len() > 0 {
        let pre = toks.drop_last();
        assert forall|i: int, k: int| 0 <= i < pre.len() && 0 <= k < pre[i].len() implies ok(#[trigger] pre[i][k]) by {
            assert(pre[i] == toks[i]);
        }
        lemma_spaced_chars(pre, sep, ok);
        let a = spaced(pre, sep);
        let last = toks.last();
        assert(spaced(toks, sep) == a + sep + last);
        assert forall|k: int| 0 <= k < spaced(toks, sep).len() implies ok(#[trigger] spaced(toks, sep)[k]) by {
            if k < a.len() {
                assert(spaced(toks, sep)[k] == a[k]);
            } else if k < a.len() + sep.len() {
                assert(spaced(toks, sep)[k] == sep[k - a.len()]);
            } else {
                assert(spaced(toks, sep)[k] == last[k - a.len() - sep.len()]);
                assert(last == toks[toks.len() - 1]);
            }
        }
    }
}

/// Keeping the real numbers among tokens that all are real numbers keeps
/// them all.
proof fn lemma_floats_among_all(t: Seq<Seq<char>>, k: int)
    requires
        0 <= k <= t.len(),
        forall|i: int| 0 <= i < t.len() ==> float_syntax(#[trigger] t[i]),
    ensures
        floats_among(t, k) == t.take(k),
    decreases k,
{
    if k > 0 {
        lemma_floats_among_all(t, k - 1);
        assert(t.take(k - 1).push(t[k - 1]) =~= t.take(k));
    } else {
        assert(t.take(0) =~= Seq::<Seq<char>>::empty());
    }
}

/// Among tokens none of which is a real number there is none to keep.
proof fn lemma_floats_among_none(t: Seq<Seq<char>>, k: int)
    requires
        0 <= k <= t.len(),
        forall|i: int| 0 <= i < t.len() ==> !float_syntax(#[trigger] t[i]),
    ensures
        floats_among(t, k) == Seq::<Seq<char>>::empty(),
    decreases k,
{
    if k > 0 {
        lemma_floats_among_none(t, k - 1);
    }
}

/// An i32 written in decimal reads back as itself.
proof fn lemma_i32_of_string(v: i32)
    ensures
        i32_of(i32_string(v)) == Some(v),
        i32_string(v).len() > 0,
        no_ws(i32_string(v)),
{
    if v < 0 {
        let m = (-(v as int)) as nat;
        lemma_dec_string(m);
        let s = i32_string(v);
        assert(s == seq!['-'] + dec_string(m));
        assert(signed_digits(s) =~= dec_string(m));
        assert forall|i: int| 0 <= i < s.len() implies !is_ws(#[trigger] s[i]) by {
            if i > 0 {
                assert(s[i] == dec_string(m)[i - 1]);
                assert(is_digit(dec_string(m)[i - 1]));
            }
        }
    } else {
        lemma_dec_string(v as nat);
        let s = i32_string(v);
        assert(signed_digits(s) == s);
        assert forall|i: int| 0 <= i < s.len() implies !is_ws(#[trigger] s[i]) by {
            assert(is_digit(s[i]));
        }
    }
}

/// A blank, then text that starts and ends with a non-whitespace
/// character: trimming drops the blank.
proof fn lemma_trim_lead_blank(s: Seq<char>)
    requires
        s.len() >= 2,
        is_ws(s[0]),
        !is_ws(s[1]),
        !is_ws(s.last()),
    ensures
        trim(s) == s.skip(1),
{
    lemma_trim_start_at(s, 1);
    let t = s.skip(1);
    lemma_trim_end_at(t, t.len() as int);
    assert(t.take(t.len() as int) =~= t);
}

/// A blank, text that starts and ends with a non-whitespace character,
/// and a blank: trimming drops both blanks.
proof fn lemma_trim_both_blanks(s: Seq<char>)
    requires
        s.len() >= 3,
        is_ws(s[0]),
        !is_ws(s[1]),
        is_ws(s.last()),
        !is_ws(s[s.len() - 2]),
    ensures
        trim(s) == s.subrange(1, s.len() - 1),
{
    lemma_trim_start_at(s, 1);
    let t = s.skip(1);
    lemma_trim_end_at(t, t.len() - 1);
    assert(t.take(t.len() - 1) =~= s.subrange(1, s.len() - 1));
}

/// Text whose only '=' is its next-to-last character and whose last is a
/// blank, followed by a word without '=' or whitespace: the field after
/// the '=' trims to the word.
proof fn lemma_eq_field(p: Seq<char>, w: Seq<char>)
    requires
        p.len() >= 2,
        p[p.len() - 2] == '=',
        p[p.len() - 1] == ' ',
        forall|q: int| 0 <= q < p.len() - 2 ==> #[trigger] p[q] != '=',
        w.len() > 0,
        no_ws(w),
        forall|q: int| 0 <= q < w.len() ==> #[trigger] w[q] != '=',
    ensures
        second_eq_field(p + w) is Some,
        trim(second_eq_field(p + w).unwrap()) == w,
{
    let s = p + w;
    let k = p.len() - 2;
    assert forall|q: int| 0 <= q < k implies #[trigger] s[q] != '=' by {
        assert(s[q] == p[q]);
    }
    lemma_second_eq_field_skip(s, k);
    let u = s.skip(k);
    assert(u[0] == '=');
    let t = u.drop_first();
    assert(t =~= seq![' '] + w);
    assert forall|q: int| 0 <= q < t.len() implies #[trigger] t[q] != '=' by {
        if q > 0 {
            assert(t[q] == w[q - 1]);
        }
    }
    lemma_until_eq_take(t, t.len() as int);
    assert(t.take(t.len() as int) =~= t);
    assert(second_eq_field(s) == Some(t));
    assert(t[1] == w[0]);
    lemma_trim_start_at(t, 1);
    assert(t.skip(1) =~= w);
    lemma_trim_end_at(w, w.len() as int);
    assert(w.take(w.len() as int) =~= w);
}

/// The decimal form of a number has no '=' and no whitespace.
proof fn lemma_dec_word(n: nat)
    ensures
        dec_string(n).len() > 0,
        no_ws(dec_string(n)),
        forall|q: int| 0 <= q < dec_string(n).len() ==> #[trigger] dec_string(n)[q] != '=',
{
    lemma_dec_string(n);
    assert forall|q: int| 0 <= q < dec_string(n).len() implies !is_ws(#[trigger] dec_string(n)[q]) by {
        assert(is_digit(dec_string(n)[q]));
    }
    assert forall|q: int| 0 <= q < dec_string(n).len() implies #[trigger] dec_string(n)[q] != '=' by {
        assert(is_digit(dec_string(n)[q]));
    }
}

/// The decimal form of an i32 has no '='.
proof fn lemma_i32_word(v: i32)
    ensures
        forall|q: int| 0 <= q < i32_string(v).len() ==> #[trigger] i32_string(v)[q] != '=',
{
    let s = i32_string(v);
    if v < 0 {
        let m = (-(v as int)) as nat;
        lemma_dec_word(m);
        assert forall|q: int| 0 <= q < s.len() implies #[trigger] s[q] != '=' by {
            if q > 0 {
                assert(s[q] == dec_string(m)[q - 1]);
            }
        }
    } else {
        lemma_dec_word(v as nat);
    }
}

/// A result file written for a failed run reads back as its INFO alone.
pub proof fn lemma_ab01nd_res_failed_roundtrip(
    info: i32,
    ncont: usize,
    indcon: usize,
    nblk: Seq<i32>,
    a: TextRows,
    b: TextRows,
    z: Option<TextRows>,
)
    requires
        info != 0,
    ensures
        ab01nd_res_of(ab01nd_res_lines(info, ncont, indcon, nblk, a, b, z), None) == Ok::<NdRes, Seq<char>>(
            (info, 0usize, 0usize, Seq::<i32>::empty(), Seq::<(usize, TextRows)>::empty(), Seq::<(usize, TextRows)>::empty(), None),
        ),
{
    let ls = ab01nd_res_lines(info, ncont, indcon, nblk, a, b, z);
    let st0: NdRes = (0, 0, 0, Seq::empty(), Seq::empty(), Seq::empty(), None);
    let lit = " INFO on exit from AB01ND = "@;
    reveal_strlit(" INFO on exit from AB01ND = ");
    reveal_strlit("INFO on exit");
    let e = Seq::<char>::empty();
    assert(ls.len() == 3);
    assert(ls[1] == e);
    lemma_res_title();
    lemma_res_empty();
    assert(nd_scan(ls, 0, st0) == nd_scan(ls, 1, st0));
    assert(nd_scan(ls, 1, st0) == nd_scan(ls, 2, st0));
    let w = i32_string(info);
    lemma_i32_of_string(info);
    lemma_i32_word(info);
    let l2 = lit + w;
    assert(ls[2] == l2);
    assert(l2[1] == 'I');
    assert(l2.last() == w[w.len() - 1]);
    lemma_trim_lead_blank(l2);
    let s2 = l2.skip(1);
    let p = lit.skip(1);
    assert(s2 =~= p + w);
    assert(s2.subrange(0, 12) =~= "INFO on exit"@);
    assert(occurs_at(s2, "INFO on exit"@, 0));
    lemma_eq_field(p, w);
    assert(eq_i32(s2) == Some(info));
    assert(nd_scan(ls, 2, st0) == nd_scan(ls, 3, (info, st0.1, st0.2, st0.3, st0.4, st0.5, st0.6)));
}

/// A word with a character that no real number holds is no real number.
proof fn lemma_not_float(w: Seq<char>, k: int)
    requires
        0 <= k < w.len(),
        !float_char(w[k]),
    ensures
        !float_syntax(w),
{
    if float_syntax(w) {
        lemma_float_chars(w);
    }
}

/// A line of cells, each preceded by a blank: it is not blank, it holds
/// no word with a character that no real number holds, and its real
/// numbers are its cells.
proof fn lemma_row_line(row: Seq<Seq<char>>, stop: Seq<char>, j: int)
    requires
        row.len() > 0,
        forall|k: int| 0 <= k < row.len() ==> float_syntax(#[trigger] row[k]),
        0 <= j < stop.len(),
        !float_char(stop[j]),
        stop[j] != ' ',
    ensures
        trim(spaced(row, " "@)).len() != 0,
        !contains_seq(spaced(row, " "@), stop),
        line_floats(spaced(row, " "@)) == row,
{
    reveal_strlit(" ");
    let l = spaced(row, " "@);
    let ok = |c: char| float_char(c) || c == ' ';
    assert forall|i: int, k: int| 0 <= i < row.len() && 0 <= k < row[i].len() implies ok(#[trigger] row[i][k]) by {
        lemma_float_chars(row[i]);
    }
    lemma_spaced_chars(row, " "@, ok);
    assert forall|k: int| 0 <= k < l.len() implies #[trigger] l[k] != stop[j] by {
        assert(ok(l[k]));
    }
    lemma_absent_char(l, stop, j);
    let last = row.last();
    assert(last == row[row.len() - 1]);
    lemma_float_syntax_word(last);
    assert(l == spaced(row.drop_last(), " "@) + " "@ + last);
    assert(l[l.len() - 1] == last[last.len() - 1]);
    if trim(l).len() == 0 {
        lemma_trim_empty(l);
        assert(is_ws(l[l.len() - 1]));
    }
    assert forall|i: int| 0 <= i < row.len() implies (#[trigger] row[i]).len() > 0 && no_ws(row[i]) by {
        lemma_float_syntax_word(row[i]);
    }
    lemma_sep_blanks();
    lemma_ws_tokens_spaced(row, " "@);
    lemma_floats_among_all(row, row.len() as int);
    assert(row.take(row.len() as int) =~= row);
}

/// Words each preceded by a blank, and a final blank: the line is not
/// blank, and when none of the words is a real number it holds no real
/// number.
proof fn lemma_header_line(words: Seq<Seq<char>>)
    requires
        words.len() > 0,
        forall|i: int| 0 <= i < words.len() ==> (#[trigger] words[i]).len() > 0 && no_ws(words[i]),
        forall|i: int| 0 <= i < words.len() ==> !float_syntax(#[trigger] words[i]),
    ensures
        trim(spaced(words, " "@) + " "@).len() != 0,
        line_floats(spaced(words, " "@) + " "@) == Seq::<Seq<char>>::empty(),
{
    reveal_strlit(" ");
    lemma_sep_blanks();
    let body = spaced(words, " "@);
    let l = body + " "@;
    lemma_ws_tokens_spaced(words, " "@);
    lemma_ws_tokens_trailing_ws(body, " "@);
    lemma_floats_among_none(words, words.len() as int);
    let last = words.last();
    assert(last == words[words.len() - 1]);
    assert(body == spaced(words.drop_last(), " "@) + " "@ + last);
    assert(l[l.len() - 2] == last[last.len() - 1]);
    if trim(l).len() == 0 {
        lemma_trim_empty(l);
        assert(is_ws(l[l.len() - 2]));
    }
}

/// The header above the rows of A holds no real number and no 'g'.
proof fn lemma_a_header()
    ensures
        trim(" The transformed state dynamics matrix of a controllable realization is "@).len() != 0,
        line_floats(" The transformed state dynamics matrix of a controllable realization is "@)
            == Seq::<Seq<char>>::empty(),
        !contains_seq(" The transformed state dynamics matrix of a controllable realization is "@, "dimensions of its diagonal"@),
{
    let h = " The transformed state dynamics matrix of a controllable realization is "@;
    reveal_strlit(" The transformed state dynamics matrix of a controllable realization is ");
    reveal_strlit("dimensions of its diagonal");
    reveal_strlit(" ");
    let words = seq![
        seq!['T', 'h', 'e'],
        seq!['t', 'r', 'a', 'n', 's', 'f', 'o', 'r', 'm', 'e', 'd'],
        seq!['s', 't', 'a', 't', 'e'],
        seq!['d', 'y', 'n', 'a', 'm', 'i', 'c', 's'],
        seq!['m', 'a', 't', 'r', 'i', 'x'],
        seq!['o', 'f'],
        seq!['a'],
        seq!['c', 'o', 'n', 't', 'r', 'o', 'l', 'l', 'a', 'b', 'l', 'e'],
        seq!['r', 'e', 'a', 'l', 'i', 'z', 'a', 't', 'i', 'o', 'n'],
        seq!['i', 's'],
    ];
    reveal_with_fuel(spaced, 11);
    assert(h =~= spaced(words, " "@) + " "@);
    lemma_not_float(words[0], 1);
    lemma_not_float(words[1], 1);
    lemma_not_float(words[2], 0);
    lemma_not_float(words[3], 0);
    lemma_not_float(words[4], 0);
    lemma_not_float(words[5], 0);
    if float_syntax(words[6]) {
        lemma_float_chars(words[6]);
    }
    lemma_not_float(words[7], 0);
    lemma_not_float(words[8], 0);
    lemma_not_float(words[9], 1);
    lemma_header_line(words);
    assert forall|k: int| 0 <= k < h.len() implies #[trigger] h[k] != 'g' by {}
    lemma_absent_char(h, "dimensions of its diagonal"@, 21);
}

/// The header above the rows of B holds no real number and no 'y'.
proof fn lemma_b_header()
    ensures
        trim(" The transformed input/state matrix B of a controllable realization is "@).len() != 0,
        line_floats(" The transformed input/state matrix B of a controllable realization is "@)
            == Seq::<Seq<char>>::empty(),
        !contains_seq(" The transformed input/state matrix B of a controllable realization is "@, "controllability index"@),
{
    let h = " The transformed input/state matrix B of a controllable realization is "@;
    reveal_strlit(" The transformed input/state matrix B of a controllable realization is ");
    reveal_strlit("controllability index");
    reveal_strlit(" ");
    let words = seq![
        seq!['T', 'h', 'e'],
        seq!['t', 'r', 'a', 'n', 's', 'f', 'o', 'r', 'm', 'e', 'd'],
        seq!['i', 'n', 'p', 'u', 't', '/', 's', 't', 'a', 't', 'e'],
        seq!['m', 'a', 't', 'r', 'i', 'x'],
        seq!['B'],
        seq!['o', 'f'],
        seq!['a'],
        seq!['c', 'o', 'n', 't', 'r', 'o', 'l', 'l', 'a', 'b', 'l', 'e'],
        seq!['r', 'e', 'a', 'l', 'i', 'z', 'a', 't', 'i', 'o', 'n'],
        seq!['i', 's'],
    ];
    reveal_with_fuel(spaced, 11);
    assert(h =~= spaced(words, " "@) + " "@);
    lemma_not_float(words[0], 1);
    lemma_not_float(words[1], 1);
    lemma_not_float(words[2], 2);
    lemma_not_float(words[3], 0);
    lemma_not_float(words[4], 0);
    lemma_not_float(words[5], 0);
    if float_syntax(words[6]) {
        lemma_float_chars(words[6]);
    }
    lemma_not_float(words[7], 0);
    lemma_not_float(words[8], 0);
    lemma_not_float(words[9], 1);
    lemma_header_line(words);
    assert forall|k: int| 0 <= k < h.len() implies #[trigger] h[k] != 'y' by {}
    lemma_absent_char(h, "controllability index"@, 14);
}

/// The block sizes line reads back as the block sizes.
proof fn lemma_nblk_line(nblk: Seq<i32>)
    ensures
        ws_tokens(nblk_line(nblk)) == Seq::new(nblk.len(), |i: int| i32_string(nblk[i])),
    decreases nblk.len(),
{
    reveal_strlit(" ");
    let cells = Seq::new(nblk.len(), |i: int| right_aligned(i32_string(nblk[i]), 2));
    if nblk.len() == 0 {
        assert(cells =~= Seq::<Seq<char>>::empty());
        assert(nblk_line(nblk) =~= Seq::<char>::empty());
        assert(ws_tokens(Seq::<char>::empty()) =~= Seq::<Seq<char>>::empty());
        assert(Seq::new(nblk.len(), |i: int| i32_string(nblk[i])) =~= Seq::<Seq<char>>::empty());
    } else {
        let pre = nblk.drop_last();
        lemma_nblk_line(pre);
        let pcells = Seq::new(pre.len(), |i: int| right_aligned(i32_string(pre[i]), 2));
        assert(cells.drop_last() =~= pcells);
        let v = nblk.last();
        let w = i32_string(v);
        lemma_i32_of_string(v);
        let pad: Seq<char> = if w.len() >= 2 {
            Seq::empty()
        } else {
            Seq::new((2 - w.len()) as nat, |i: int| ' ')
        };
        assert(cells.last() =~= pad + w);
        let sep = " "@ + pad;
        assert(nblk_line(nblk) == spaced(pcells, " "@) + " "@ + cells.last());
        assert(nblk_line(nblk) =~= nblk_line(pre) + sep + w);
        assert(all_ws(sep));
        lemma_ws_tokens_append(nblk_line(pre), sep, w);
        assert(Seq::new(pre.len(), |i: int| i32_string(pre[i])).push(w) =~= Seq::new(
            nblk.len(),
            |i: int| i32_string(nblk[i]),
        ));
    }
}

/// Tokens that each spell an i32 read back as those numbers.
proof fn lemma_i32s_among(nblk: Seq<i32>, k: int)
    requires
        0 <= k <= nblk.len(),
    ensures
        i32s_among(Seq::new(nblk.len(), |i: int| i32_string(nblk[i])), k) == nblk.take(k),
    decreases k,
{
    let t = Seq::new(nblk.len(), |i: int| i32_string(nblk[i]));
    if k > 0 {
        lemma_i32s_among(nblk, k - 1);
        lemma_i32_of_string(nblk[k - 1]);
        assert(t[k - 1] == i32_string(nblk[k - 1]));
        assert(nblk.take(k - 1).push(nblk[k - 1]) =~= nblk.take(k));
    } else {
        assert(nblk.take(0) =~= Seq::<i32>::empty());
    }
}

/// The block sizes line gives back the block sizes.
proof fn lemma_nblk_roundtrip(nblk: Seq<i32>)
    ensures
        line_i32s(nblk_line(nblk)) == nblk,
{
    lemma_nblk_line(nblk);
    lemma_i32s_among(nblk, nblk.len() as int);
    assert(nblk.take(nblk.len() as int) =~= nblk);
}

/// Lines of cells from line `base + i` on, then a blank line: they read
/// back as the remaining rows, ending at the blank line.
proof fn lemma_rows_until_rows(ls: Seq<Seq<char>>, base: int, rows: TextRows, stop: Seq<char>, j: int, i: int)
    requires
        0 <= base,
        0 <= i <= rows.len(),
        base + rows.len() < ls.len(),
        forall|r: int| 0 <= r < rows.len() ==> ls[base + r] == spaced(#[trigger] rows[r], " "@),
        forall|r: int| 0 <= r < rows.len() ==> (#[trigger] rows[r]).len() > 0,
        forall|r: int, k: int| 0 <= r < rows.len() && 0 <= k < rows[r].len() ==> float_syntax(#[trigger] rows[r][k]),
        ls[base + rows.len()] == Seq::<char>::empty(),
        0 <= j < stop.len(),
        !float_char(stop[j]),
        stop[j] != ' ',
    ensures
        rows_until(ls, base + i, stop) == (rows.skip(i), base + rows.len()),
    decreases rows.len() - i,
{
    if i == rows.len() {
        assert(trim(Seq::<char>::empty()) =~= Seq::<char>::empty());
        assert(rows.skip(i) =~= Seq::<Seq<Seq<char>>>::empty());
    } else {
        lemma_rows_until_rows(ls, base, rows, stop, j, i + 1);
        let row = rows[i];
        assert forall|k: int| 0 <= k < row.len() implies float_syntax(#[trigger] row[k]) by {
            assert(rows[i][k] == row[k]);
        }
        lemma_row_line(row, stop, j);
        assert(ls[base + i] == spaced(row, " "@));
        assert(seq![row] + rows.skip(i + 1) =~= rows.skip(i));
    }
}

/// A header without real numbers, the lines of the rows, then a blank
/// line: the rows are read back, ending at the blank line.
proof fn lemma_rows_block(ls: Seq<Seq<char>>, h: int, rows: TextRows, stop: Seq<char>, j: int)
    requires
        0 <= h,
        h + 1 + rows.len() < ls.len(),
        trim(ls[h]).len() != 0,
        !contains_seq(ls[h], stop),
        line_floats(ls[h]) == Seq::<Seq<char>>::empty(),
        forall|r: int| 0 <= r < rows.len() ==> ls[h + 1 + r] == spaced(#[trigger] rows[r], " "@),
        forall|r: int| 0 <= r < rows.len() ==> (#[trigger] rows[r]).len() > 0,
        forall|r: int, k: int| 0 <= r < rows.len() && 0 <= k < rows[r].len() ==> float_syntax(#[trigger] rows[r][k]),
        ls[h + 1 + rows.len()] == Seq::<char>::empty(),
        0 <= j < stop.len(),
        !float_char(stop[j]),
        stop[j] != ' ',
    ensures
        rows_until(ls, h, stop) == (rows, h + 1 + rows.len()),
{
    lemma_rows_until_rows(ls, h + 1, rows, stop, j, 0);
    assert(rows.skip(0) =~= rows);
    assert(rows_until(ls, h, stop) == rows_until(ls, h + 1, stop));
}

/// A blank, text whose only '=' is its next-to-last character and whose
/// last is a blank, then a number in decimal: the line trims to all but
/// the first blank, and the number after the '=' reads back.
proof fn lemma_eq_line(lit: Seq<char>, n: usize)
    requires
        lit.len() >= 3,
        lit[0] == ' ',
        !is_ws(lit[1]),
        lit[lit.len() - 2] == '=',
        lit[lit.len() - 1] == ' ',
        forall|q: int| 0 <= q < lit.len() - 2 ==> #[trigger] lit[q] != '=',
    ensures
        trim(lit + dec_string(n as nat)) == lit.skip(1) + dec_string(n as nat),
        eq_usize(lit.skip(1) + dec_string(n as nat)) == Some(n),
        forall|k: int|
            0 <= k < (lit.skip(1) + dec_string(n as nat)).len() ==> (k < lit.len() - 1 && #[trigger] (lit.skip(1)
                + dec_string(n as nat))[k] == lit[k + 1]) || (k >= lit.len() - 1 && is_digit(
                (lit.skip(1) + dec_string(n as nat))[k],
            )),
{
    let d = dec_string(n as nat);
    lemma_dec_word(n as nat);
    lemma_dec_string(n as nat);
    let l = lit + d;
    assert(l.last() == d[d.len() - 1]);
    lemma_trim_lead_blank(l);
    assert(l.skip(1) =~= lit.skip(1) + d);
    let p = lit.skip(1);
    assert forall|q: int| 0 <= q < p.len() - 2 implies #[trigger] p[q] != '=' by {
        assert(p[q] == lit[q + 1]);
    }
    lemma_eq_field(p, d);
    lemma_usize_of_dec(n);
}

/// No keyword of the result scan occurs in the title.
proof fn lemma_res_title()
    ensures
        !contains_seq(trim(" AB01ND EXAMPLE PROGRAM RESULTS"@), "INFO on exit"@),
        !contains_seq(trim(" AB01ND EXAMPLE PROGRAM RESULTS"@), "order of the controllable"@),
        !contains_seq(trim(" AB01ND EXAMPLE PROGRAM RESULTS"@), "dimensions of its diagonal"@),
        !contains_seq(trim(" AB01ND EXAMPLE PROGRAM RESULTS"@), "controllability index of the transformed"@),
{
    let title = " AB01ND EXAMPLE PROGRAM RESULTS"@;
    reveal_strlit(" AB01ND EXAMPLE PROGRAM RESULTS");
    reveal_strlit("INFO on exit");
    reveal_strlit("order of the controllable");
    reveal_strlit("dimensions of its diagonal");
    reveal_strlit("controllability index of the transformed");
    lemma_trim_lead_blank(title);
    let t0 = title.skip(1);
    assert forall|k: int| 0 <= k < t0.len() implies !('a' <= #[trigger] t0[k] <= 'z') by {
        assert(t0[k] == title[k + 1]);
    }
    lemma_absent_char(t0, "INFO on exit"@, 5);
    lemma_absent_char(t0, "order of the controllable"@, 0);
    lemma_absent_char(t0, "dimensions of its diagonal"@, 0);
    lemma_absent_char(t0, "controllability index of the transformed"@, 0);
}

/// No keyword of the result scan occurs in a blank line.
proof fn lemma_res_empty()
    ensures
        trim(Seq::<char>::empty()) == Seq::<char>::empty(),
        !contains_seq(Seq::<char>::empty(), "INFO on exit"@),
        !contains_seq(Seq::<char>::empty(), "order of the controllable"@),
        !contains_seq(Seq::<char>::empty(), "dimensions of its diagonal"@),
        !contains_seq(Seq::<char>::empty(), "controllability index of the transformed"@),
{
    reveal_strlit("INFO on exit");
    reveal_strlit("order of the controllable");
    reveal_strlit("dimensions of its diagonal");
    reveal_strlit("controllability index of the transformed");
    assert(trim(Seq::<char>::empty()) =~= Seq::<char>::empty());
}

/// The order line announces the controllable order, which reads back.
proof fn lemma_res_order(n: usize)
    ensures
        !contains_seq(trim(" The order of the controllable state-space representation = "@ + dec_string(n as nat)), "INFO on exit"@),
        contains_seq(trim(" The order of the controllable state-space representation = "@ + dec_string(n as nat)), "order of the controllable"@),
        eq_usize(trim(" The order of the controllable state-space representation = "@ + dec_string(n as nat))) == Some(n),
{
    let lit = " The order of the controllable state-space representation = "@;
    reveal_strlit(" The order of the controllable state-space representation = ");
    reveal_strlit("INFO on exit");
    reveal_strlit("order of the controllable");
    lemma_eq_line(lit, n);
    let s = lit.skip(1) + dec_string(n as nat);
    assert forall|k: int| 0 <= k < s.len() implies #[trigger] s[k] != 'I' by {}
    lemma_absent_char(s, "INFO on exit"@, 0);
    assert(s.subrange(4, 29) =~= "order of the controllable"@);
    assert(occurs_at(s, "order of the controllable"@, 4));
}

/// The index line announces the controllability index, which reads back.
proof fn lemma_res_index(n: usize)
    ensures
        !contains_seq(trim(" The controllability index of the transformed system representation = "@ + dec_string(n as nat)), "INFO on exit"@),
        !contains_seq(trim(" The controllability index of the transformed system representation = "@ + dec_string(n as nat)), "order of the controllable"@),
        !contains_seq(trim(" The controllability index of the transformed system representation = "@ + dec_string(n as nat)), "dimensions of its diagonal"@),
        contains_seq(trim(" The controllability index of the transformed system representation = "@ + dec_string(n as nat)), "controllability index of the transformed"@),
        eq_usize(trim(" The controllability index of the transformed system representation = "@ + dec_string(n as nat))) == Some(n),
{
    let lit = " The controllability index of the transformed system representation = "@;
    reveal_strlit(" The controllability index of the transformed system representation = ");
    reveal_strlit("INFO on exit");
    reveal_strlit("order of the controllable");
    reveal_strlit("dimensions of its diagonal");
    reveal_strlit("controllability index of the transformed");
    lemma_eq_line(lit, n);
    let s = lit.skip(1) + dec_string(n as nat);
    assert forall|k: int| 0 <= k < s.len() implies #[trigger] s[k] != 'I' by {}
    lemma_absent_char(s, "INFO on exit"@, 0);
    assert forall|k: int| 0 <= k < s.len() implies #[trigger] s[k] != 'g' by {}
    lemma_absent_char(s, "dimensions of its diagonal"@, 21);
    assert forall|k: int| 0 <= k < s.len() - 1 implies !(#[trigger] s[k] == 'r' && s[k + 1] == 'd') by {
        if k < lit.len() - 2 {
            assert(s[k + 1] == lit[k + 2]);
        }
    }
    lemma_absent_pair(s, "order of the controllable"@, 1);
    assert(s.subrange(4, 44) =~= "controllability index of the transformed"@);
    assert(occurs_at(s, "controllability index of the transformed"@, 4));
}

/// The line above the block sizes announces them.
proof fn lemma_res_dims()
    ensures
        !contains_seq(trim(" and the dimensions of its diagonal blocks are "@), "INFO on exit"@),
        !contains_seq(trim(" and the dimensions of its diagonal blocks are "@), "order of the controllable"@),
        contains_seq(trim(" and the dimensions of its diagonal blocks are "@), "dimensions of its diagonal"@),
{
    let l = " and the dimensions of its diagonal blocks are "@;
    reveal_strlit(" and the dimensions of its diagonal blocks are ");
    reveal_strlit("INFO on exit");
    reveal_strlit("order of the controllable");
    reveal_strlit("dimensions of its diagonal");
    lemma_trim_both_blanks(l);
    let s = l.subrange(1, l.len() - 1);
    assert forall|k: int| 0 <= k < s.len() implies #[trigger] s[k] != 'I' by {
        assert(s[k] == l[k + 1]);
    }
    lemma_absent_char(s, "INFO on exit"@, 0);
    assert forall|k: int| 0 <= k < s.len() - 1 implies !(#[trigger] s[k] == 'l' && s[k + 1] == 'l') by {
        assert(s[k] == l[k + 1]);
        assert(s[k + 1] == l[k + 2]);
    }
    lemma_absent_pair(s, "order of the controllable"@, 19);
    assert(s.subrange(8, 34) =~= "dimensions of its diagonal"@);
    assert(occurs_at(s, "dimensions of its diagonal"@, 8));
}

/// Rows that the result writer can lay out one per line: each has at
/// least one cell, and every cell is a real number.
pub open spec fn writable_rows(rows: TextRows) -> bool {
    &&& forall|r: int| 0 <= r < rows.len() ==> (#[trigger] rows[r]).len() > 0
    &&& forall|r: int, k: int| 0 <= r < rows.len() && 0 <= k < rows[r].len() ==> float_syntax(#[trigger] rows[r][k])
}

/// What reading back a block of rows records: nothing for no rows, else
/// the rows with the controllable order in force.
pub open spec fn block_log(ncont: usize, rows: TextRows) -> Seq<(usize, TextRows)> {
    if rows.len() > 0 {
        seq![(ncont, rows)]
    } else {
        Seq::empty()
    }
}

/// Lines of cells from line `from + i` on: `count - i` of them read back as
/// the remaining rows.
proof fn lemma_rows_of_lines_rows(ls: Seq<Seq<char>>, from: int, rows: TextRows, i: int)
    requires
        0 <= from,
        0 <= i <= rows.len(),
        from + rows.len() <= ls.len(),
        forall|r: int| 0 <= r < rows.len() ==> ls[from + r] == spaced(#[trigger] rows[r], " "@),
        writable_rows(rows),
    ensures
        rows_of_lines(ls, from + i, (rows.len() - i) as nat) == rows.skip(i),
    decreases rows.len() - i,
{
    if i == rows.len() {
        assert(rows.skip(i) =~= Seq::<Seq<Seq<char>>>::empty());
    } else {
        lemma_rows_of_lines_rows(ls, from, rows, i + 1);
        let row = rows[i];
        assert forall|k: int| 0 <= k < row.len() implies float_syntax(#[trigger] row[k]) by {
            assert(rows[i][k] == row[k]);
        }
        reveal_strlit("controllability index");
        lemma_row_line(row, "controllability index"@, 0);
        assert(ls[from + i] == spaced(row, " "@));
        assert((rows.len() - i - 1) as nat == ((rows.len() - i) as nat - 1) as nat);
        assert(seq![row] + rows.skip(i + 1) =~= rows.skip(i));
    }
}

/// The line that announces Z.
proof fn lemma_res_z_header()
    ensures
        contains_seq(" The similarity transformation matrix Z is "@, "similarity transformation matrix Z"@),
{
    reveal_strlit(" The similarity transformation matrix Z is ");
    reveal_strlit("similarity transformation matrix Z");
    let l = " The similarity transformation matrix Z is "@;
    assert(l.subrange(5, 39) =~= "similarity transformation matrix Z"@);
    assert(occurs_at(l, "similarity transformation matrix Z"@, 5));
}

/// A result file written for a successful run reads back as the values it
/// was written from: INFO 0, the controllable order, the controllability
/// index, the block sizes, the rows of A and of B each recorded once with
/// the controllable order, and Z. Z is read with as many rows as the
/// controllable order, so it comes back when it has that many rows and A
/// has rows.
pub proof fn lemma_ab01nd_res_roundtrip(
    ncont: usize,
    indcon: usize,
    nblk: Seq<i32>,
    a: TextRows,
    b: TextRows,
    z: Option<TextRows>,
)
    requires
        writable_rows(a),
        writable_rows(b),
        z is Some ==> a.len() > 0 && ncont > 0 && z.unwrap().len() == ncont && writable_rows(z.unwrap()),
    ensures
        ab01nd_res_of(ab01nd_res_lines(0, ncont, indcon, nblk, a, b, z), None) == Ok::<NdRes, Seq<char>>(
            (0, ncont, indcon, nblk, block_log(ncont, a), block_log(ncont, b), z),
        ),
{
    let ls = ab01nd_res_lines(0, ncont, indcon, nblk, a, b, z);
    let e = Seq::<char>::empty();
    let ra = a.len() as int;
    let rb = b.len() as int;
    let order = " The order of the controllable state-space representation = "@ + dec_string(ncont as nat);
    let ahdr = " The transformed state dynamics matrix of a controllable realization is "@;
    let dims = " and the dimensions of its diagonal blocks are "@;
    let bhdr = " The transformed input/state matrix B of a controllable realization is "@;
    let index = " The controllability index of the transformed system representation = "@ + dec_string(indcon as nat);
    let zhdr = " The similarity transformation matrix Z is "@;
    let head = seq![" AB01ND EXAMPLE PROGRAM RESULTS"@, e];
    let p1 = head + seq![order, e, ahdr];
    let p2 = p1 + block_lines(a);
    let p3 = p2 + seq![e, dims, nblk_line(nblk), e, bhdr];
    let p4 = p3 + block_lines(b);
    let p5 = p4 + seq![e, index];
    let tail = match z {
        Some(zr) => seq![e, zhdr] + block_lines(zr),
        None => Seq::<Seq<char>>::empty(),
    };
    assert(ls =~= p5 + tail);
    assert(p5.len() == 12 + ra + rb);
    assert forall|k: int| 0 <= k < p5.len() implies #[trigger] ls[k] == p5[k] by {}
    assert(ls[0] == " AB01ND EXAMPLE PROGRAM RESULTS"@);
    assert(ls[1] == e);
    assert(ls[2] == order);
    assert(ls[3] == e);
    assert(ls[4] == ahdr);
    assert forall|r: int| 0 <= r < ra implies ls[5 + r] == spaced(#[trigger] a[r], " "@) by {
        assert(ls[5 + r] == p5[5 + r]);
        assert(p5[5 + r] == p2[5 + r]);
        assert(p2[5 + r] == block_lines(a)[r]);
    }
    assert(ls[5 + ra] == e);
    assert(ls[6 + ra] == dims);
    assert(ls[7 + ra] == nblk_line(nblk));
    assert(ls[8 + ra] == e);
    assert(ls[9 + ra] == bhdr);
    assert forall|r: int| 0 <= r < rb implies ls[10 + ra + r] == spaced(#[trigger] b[r], " "@) by {
        assert(ls[10 + ra + r] == p5[10 + ra + r]);
        assert(p5[10 + ra + r] == p4[10 + ra + r]);
        assert(p4[10 + ra + r] == block_lines(b)[r]);
    }
    assert(ls[10 + ra + rb] == e);
    assert(ls[11 + ra + rb] == index);

    reveal_strlit("dimensions of its diagonal");
    reveal_strlit("controllability index");
    lemma_res_title();
    lemma_res_empty();
    lemma_res_order(ncont);
    lemma_res_dims();
    lemma_res_index(indcon);
    lemma_a_header();
    lemma_b_header();
    lemma_nblk_roundtrip(nblk);
    lemma_rows_block(ls, 4, a, "dimensions of its diagonal"@, 21);
    lemma_rows_block(ls, 9 + ra, b, "controllability index"@, 0);

    let st0: NdRes = (0, 0, 0, Seq::empty(), Seq::empty(), Seq::empty(), None);
    let st1: NdRes = (0, ncont, 0, Seq::empty(), block_log(ncont, a), Seq::empty(), None);
    let st2: NdRes = (0, ncont, nblk.len() as usize, nblk, block_log(ncont, a), block_log(ncont, b), None);
    assert(nd_scan(ls, 0, st0) == nd_scan(ls, 1, st0));
    assert(nd_scan(ls, 1, st0) == nd_scan(ls, 2, st0));
    assert(nd_scan(ls, 2, st0) == nd_scan(ls, 5 + ra, st1));
    assert(nd_scan(ls, 5 + ra, st1) == nd_scan(ls, 6 + ra, st1));
    assert(nd_scan(ls, 6 + ra, st1) == nd_scan(ls, 10 + ra + rb, st2));
    assert(nd_scan(ls, 10 + ra + rb, st2) == nd_scan(ls, 11 + ra + rb, st2));
    let i = 11 + ra + rb;
    match z {
        Some(zr) => {
            let rz = zr.len() as int;
            assert(ls.len() == 14 + ra + rb + rz);
            assert(ls[i + 2] == zhdr);
            lemma_res_z_header();
            assert forall|r: int| 0 <= r < rz implies ls[i + 3 + r] == spaced(#[trigger] zr[r], " "@) by {
                assert(ls[i + 3 + r] == tail[2 + r]);
                assert(tail[2 + r] == block_lines(zr)[r]);
            }
            lemma_rows_of_lines_rows(ls, i + 3, zr, 0);
            assert(zr.skip(0) =~= zr);
            assert(st2.4.last().0 == ncont);
            assert(nd_scan(ls, i, st2) == (0i32, ncont, indcon, nblk, block_log(ncont, a), block_log(ncont, b), Some(zr)));
        },
        None => {
            assert(ls.len() == 12 + ra + rb);
            assert(nd_scan(ls, i, st2) == (0i32, ncont, indcon, nblk, block_log(ncont, a), block_log(ncont, b), None::<TextRows>));
        },
    }
}

} // verus!
