//! Proved pieces of the print-and-reparse round trip: an integer printed in
//! its decimal spelling re-parses, by the grammar's integer rule, to exactly
//! that integer, and a quoted text that needs no escaping re-parses, by the
//! string rule, to exactly that text.

use vstd::arithmetic::div_mod::lemma_fundamental_div_mod;
use vstd::prelude::*;

use crate::grammar::SpecParsed;
use crate::grammar::digit_run_len;
use crate::grammar::digit_val;
use crate::grammar::digits_val;
use crate::grammar::is_digit;
use crate::grammar::lit_run_len;
use crate::grammar::sp_fragments;
use crate::grammar::sp_integer;
use crate::grammar::sp_string;

verus! {

/// The character of one decimal digit.
pub open spec fn digit_char_of(d: int) -> char {
    (('0' as u32) + d as u32) as char
}

/// The decimal digit string of `m`, most significant digit first.
pub open spec fn dec_digits_of(m: nat) -> Seq<char>
    decreases m,
    via dec_digits_of_dec
{
    if m < 10 {
        seq![digit_char_of(m as int)]
    } else {
        dec_digits_of(m / 10).push(digit_char_of((m % 10) as int))
    }
}

#[via_fn]
proof fn dec_digits_of_dec(m: nat) {
    if m >= 10 {
        assert(m / 10 < m) by (nonlinear_arith)
            requires
                m >= 10,
        ;
    }
}

/// The decimal spelling of `n`: a minus sign for a negative value, then its
/// magnitude's digits.
pub open spec fn dec_text_of(n: int) -> Seq<char> {
    if n < 0 {
        seq!['-'] + dec_digits_of((-n) as nat)
    } else {
        dec_digits_of(n as nat)
    }
}

/// A decimal spelling is never empty and holds digits only.
pub proof fn lemma_dec_digits_are_digits(m: nat)
    ensures
        dec_digits_of(m).len() >= 1,
        forall|t: int|
            0 <= t < dec_digits_of(m).len() ==> is_digit(#[trigger] dec_digits_of(m)[t]),
    decreases m,
{
    if m < 10 {
        assert(is_digit(digit_char_of(m as int)));
    } else {
        lemma_dec_digits_are_digits(m / 10);
        assert(0 <= m % 10 < 10);
        assert(is_digit(digit_char_of((m % 10) as int)));
        assert forall|t: int|
            0 <= t < dec_digits_of(m).len() implies is_digit(#[trigger] dec_digits_of(m)[t]) by {
            if t < dec_digits_of(m).len() - 1 {
                assert(dec_digits_of(m)[t] == dec_digits_of(m / 10)[t]);
            } else {
                assert(dec_digits_of(m)[t] == digit_char_of((m % 10) as int));
            }
        }
    }
}

/// Where a decimal spelling sits in the input, the digit-run value read
/// there is the spelled number.
pub proof fn lemma_digits_val_of_dec(s: Seq<char>, i: int, m: nat)
    requires
        0 <= i,
        i + dec_digits_of(m).len() <= s.len(),
        s.subrange(i, i + dec_digits_of(m).len()) == dec_digits_of(m),
    ensures
        digits_val(s, i, dec_digits_of(m).len()) == m,
    decreases m,
{
    let ds = dec_digits_of(m);
    let l = ds.len() as int;
    if m < 10 {
        assert(s.subrange(i, i + l)[0] == s[i]);
        assert(s[i] == digit_char_of(m as int));
        assert(digit_val(digit_char_of(m as int)) == m);
        assert(digits_val(s, i, 1) == digits_val(s, i, 0) * 10 + digit_val(s[i]));
    } else {
        let dsp = dec_digits_of(m / 10);
        let lp = dsp.len() as int;
        assert(ds == dsp.push(digit_char_of((m % 10) as int)));
        assert forall|t: int| 0 <= t < lp implies s.subrange(i, i + lp)[t] == dsp[t] by {
            assert(s.subrange(i, i + lp)[t] == s[i + t]);
            assert(s.subrange(i, i + l)[t] == s[i + t]);
        }
        assert(s.subrange(i, i + lp) =~= dsp);
        lemma_digits_val_of_dec(s, i, m / 10);
        assert(digits_val(s, i, ds.len()) == digits_val(s, i, (ds.len() - 1) as nat) * 10
            + digit_val(s[i + l - 1]));
        assert(s.subrange(i, i + l)[l - 1] == s[i + l - 1]);
        assert(s[i + l - 1] == digit_char_of((m % 10) as int));
        assert(digit_val(digit_char_of((m % 10) as int)) == m % 10);
        lemma_fundamental_div_mod(m as int, 10);
    }
}

/// A run of `l` digits with no digit after it is read as a run of exactly
/// `l`.
pub proof fn lemma_digit_run_exact(s: Seq<char>, i: int, l: nat)
    requires
        0 <= i,
        i + l <= s.len(),
        forall|t: int| i <= t < i + l ==> is_digit(#[trigger] s[t]),
        i + l == s.len() || !is_digit(s[i + l]),
    ensures
        digit_run_len(s, i) == l,
    decreases l,
{
    if l > 0 {
        lemma_digit_run_exact(s, i + 1, (l - 1) as nat);
    }
}

/// The round trip for integers: wherever the decimal spelling of a 64-bit
/// integer stands, with no further digit just after it, the integer rule
/// yields exactly that integer and consumes exactly the spelling.
pub proof fn lemma_integer_round_trip(s: Seq<char>, i: int, n: int)
    requires
        i64::MIN <= n <= i64::MAX,
        0 <= i,
        i + dec_text_of(n).len() <= s.len(),
        s.subrange(i, i + dec_text_of(n).len()) == dec_text_of(n),
        i + dec_text_of(n).len() == s.len() || !is_digit(s[i + dec_text_of(n).len()]),
    ensures
        sp_integer(s, i) == (SpecParsed::Found { v: n, next: i + dec_text_of(n).len() }),
{
    let txt = dec_text_of(n);
    let l = txt.len() as int;
    if n < 0 {
        let m = (-n) as nat;
        let ds = dec_digits_of(m);
        lemma_dec_digits_are_digits(m);
        assert(s.subrange(i, i + l)[0] == s[i]);
        assert(s[i] == '-');
        assert forall|t: int| i + 1 <= t < i + l implies is_digit(#[trigger] s[t]) by {
            assert(s.subrange(i, i + l)[t - i] == s[t]);
            assert(txt[t - i] == ds[t - i - 1]);
        }
        assert forall|t: int|
            0 <= t < ds.len() implies s.subrange(i + 1, i + 1 + ds.len() as int)[t] == ds[t] by {
            assert(s.subrange(i + 1, i + 1 + ds.len() as int)[t] == s[i + 1 + t]);
            assert(s.subrange(i, i + l)[t + 1] == s[i + 1 + t]);
            assert(txt[t + 1] == ds[t]);
        }
        assert(s.subrange(i + 1, i + 1 + ds.len() as int) =~= ds);
        lemma_digit_run_exact(s, i + 1, ds.len());
        lemma_digits_val_of_dec(s, i + 1, m);
    } else {
        let m = n as nat;
        let ds = dec_digits_of(m);
        lemma_dec_digits_are_digits(m);
        assert forall|t: int| i <= t < i + l implies is_digit(#[trigger] s[t]) by {
            assert(s.subrange(i, i + l)[t - i] == s[t]);
        }
        assert(is_digit(s[i]));
        lemma_digit_run_exact(s, i, ds.len());
        lemma_digits_val_of_dec(s, i, m);
    }
}

/// A run of `l` characters free of quote and backslash, ended by a quote, a
/// backslash or the input's end, is read as a literal run of exactly `l`.
pub proof fn lemma_lit_run_exact(s: Seq<char>, i: int, l: nat)
    requires
        0 <= i,
        i + l <= s.len(),
        forall|t: int| i <= t < i + l ==> #[trigger] s[t] != '"' && s[t] != '\\',
        i + l == s.len() || s[i + l] == '"' || s[i + l] == '\\',
    ensures
        lit_run_len(s, i) == l,
    decreases l,
{
    if l > 0 {
        lemma_lit_run_exact(s, i + 1, (l - 1) as nat);
    }
}

/// The round trip for plain strings: wherever a quoted text free of quote
/// and backslash characters stands, the string rule yields exactly that
/// text and consumes exactly the quoted spelling.
pub proof fn lemma_plain_string_round_trip(s: Seq<char>, i: int, t: Seq<char>)
    requires
        0 <= i,
        i + t.len() + 2 <= s.len(),
        forall|u: int| 0 <= u < t.len() ==> #[trigger] t[u] != '"' && t[u] != '\\',
        s[i] == '"',
        s.subrange(i + 1, i + 1 + t.len()) == t,
        s[i + 1 + t.len()] == '"',
    ensures
        sp_string(s, i) == (SpecParsed::Found { v: t, next: i + t.len() + 2 }),
{
    let l = t.len() as int;
    let j = i + 1 + l;
    assert forall|u: int| i + 1 <= u < j implies #[trigger] s[u] != '"' && s[u] != '\\' by {
        assert(s.subrange(i + 1, j)[u - i - 1] == s[u]);
    }
    lemma_lit_run_exact(s, i + 1, t.len());
    assert(sp_fragments(s, j, t) == (SpecParsed::Found { v: t, next: j + 1 }));
    if t.len() > 0 {
        assert(Seq::<char>::empty() + s.subrange(i + 1, j) =~= t);
    } else {
        assert(sp_fragments(s, i + 1, Seq::<char>::empty()) == (SpecParsed::Found {
            v: Seq::<char>::empty(),
            next: i + 2,
        }));
        assert(t =~= Seq::<char>::empty());
    }
}

} // verus!
