//! The executable recursive-descent parser, proved to return exactly what
//! the grammar functions of [`crate::grammar`] say.

use vstd::prelude::*;

use crate::ast::Value;
use crate::ast::distinct_keys;
use crate::ast::elems_model;
use crate::ast::lemma_elems_model_push;
use crate::ast::lemma_pairs_model_push;
use crate::ast::lemma_pairs_model_update;
use crate::ast::entries_model;
use crate::ast::pairs_model;
use crate::ast::spec_of_value;
use crate::ast::SpecValue;
use crate::err::ErrorKind;
use crate::err::ParseError;
use crate::err::RuleLabel;
use crate::grammar::SpecParsed;
use crate::grammar::digit_run_len;
use crate::grammar::hex_digit_val;
use crate::grammar::hex_run_len;
use crate::grammar::hex_val;
use crate::grammar::is_hex_digit;
use crate::grammar::lemma_hex_val_bound;
use crate::grammar::lemma_pow16_mono;
use crate::grammar::lit_run_len;
use crate::grammar::pow16;
use crate::grammar::sp_fragments;
use crate::grammar::sp_string;
use crate::grammar::sp_unicode_char;
use crate::grammar::sp_unicode_err;
use crate::grammar::sp_unicode_next;
use crate::grammar::sp_unicode_ok;
use crate::grammar::digits_val;
use crate::grammar::is_digit;
use crate::grammar::is_ws;
use crate::grammar::lemma_digits_val_nonneg;
use crate::grammar::match_at;
use crate::grammar::skip_ws;
use crate::grammar::is_ascii_alpha;
use crate::grammar::key_tail_len;
use crate::grammar::sp_array;
use crate::grammar::sp_boolean;
use crate::grammar::sp_elems;
use crate::grammar::sp_entries;
use crate::grammar::sp_key;
use crate::grammar::sp_key_value;
use crate::grammar::sp_object;
use crate::grammar::sp_root;
use crate::grammar::sp_value;
use crate::grammar::sp_integer;
use crate::grammar::sp_null;
use crate::grammar::ws_run_len;

verus! {

/// Decides [`is_ws`] on one character.
pub fn is_ws_char(c: char) -> (r: bool)
    ensures
        r == is_ws(c),
{
    c == ' ' || c == '\t' || c == '\r' || c == '\n'
}

/// Decides [`is_digit`] on one character.
pub fn is_digit_char(c: char) -> (r: bool)
    ensures
        r == is_digit(c),
{
    let u = c as u32;
    48 <= u && u <= 57
}

/// The token rule's whitespace skip: the first offset at or after `pos`
/// holding no whitespace.
pub fn skip_whitespace(s: &Vec<char>, pos: usize) -> (r: usize)
    requires
        pos <= s@.len(),
    ensures
        r as int == skip_ws(s@, pos as int),
        pos <= r <= s@.len(),
{
    let mut k = pos;
    while k < s.len() && is_ws_char(s[k])
        invariant
            pos <= k <= s@.len(),
            ws_run_len(s@, pos as int) == (k - pos) + ws_run_len(s@, k as int),
        decreases s@.len() - k,
    {
        k = k + 1;
    }
    k
}

/// The `null` literal at `pos` exactly.
pub fn null(s: &Vec<char>, pos: usize) -> (r: Result<((), usize), ParseError>)
    requires
        pos <= s@.len(),
    ensures
        match r {
            Ok((u, next)) => sp_null(s@, pos as int) == (SpecParsed::Found {
                v: (),
                next: next as int,
            }) && pos < next <= s@.len(),
            Err(e) => sp_null(s@, pos as int) == (SpecParsed::<()>::Fail { err: e@ }),
        },
{
    let ghost lit = seq!['n', 'u', 'l', 'l'];
    if s.len() - pos >= 4 && s[pos] == 'n' && s[pos + 1] == 'u' && s[pos + 2] == 'l' && s[pos + 3]
        == 'l' {
        proof {
            assert(s@.subrange(pos as int, pos as int + 4) =~= lit);
        }
        Ok(((), pos + 4))
    } else {
        proof {
            if match_at(s@, pos as int, lit) {
                assert(forall|t: int|
                    0 <= t < 4 ==> s@.subrange(pos as int, pos as int + 4)[t] == lit[t]);
                assert(s@[pos as int] == 'n' && s@[pos as int + 1] == 'u' && s@[pos as int + 2]
                    == 'l' && s@[pos as int + 3] == 'l');
            }
        }
        Err(ParseError::new(ErrorKind::Syntax, pos))
    }
}

/// The `true` and `false` literals at `pos` exactly.
pub fn boolean(s: &Vec<char>, pos: usize) -> (r: Result<(bool, usize), ParseError>)
    requires
        pos <= s@.len(),
    ensures
        match r {
            Ok((b, next)) => sp_boolean(s@, pos as int) == (SpecParsed::Found {
                v: b,
                next: next as int,
            }) && pos < next <= s@.len(),
            Err(e) => sp_boolean(s@, pos as int) == (SpecParsed::<bool>::Fail { err: e@ }),
        },
{
    let ghost lt = seq!['t', 'r', 'u', 'e'];
    let ghost lf = seq!['f', 'a', 'l', 's', 'e'];
    if s.len() - pos >= 4 && s[pos] == 't' && s[pos + 1] == 'r' && s[pos + 2] == 'u' && s[pos + 3]
        == 'e' {
        proof {
            assert(s@.subrange(pos as int, pos as int + 4) =~= lt);
        }
        Ok((true, pos + 4))
    } else if s.len() - pos >= 5 && s[pos] == 'f' && s[pos + 1] == 'a' && s[pos + 2] == 'l' && s[pos
        + 3] == 's' && s[pos + 4] == 'e' {
        proof {
            assert(s@.subrange(pos as int, pos as int + 5) =~= lf);
            if match_at(s@, pos as int, lt) {
                assert(s@.subrange(pos as int, pos as int + 4)[0] == 't');
            }
        }
        Ok((false, pos + 5))
    } else {
        proof {
            if match_at(s@, pos as int, lt) {
                assert(forall|t: int|
                    0 <= t < 4 ==> s@.subrange(pos as int, pos as int + 4)[t] == lt[t]);
                assert(s@[pos as int] == 't' && s@[pos as int + 1] == 'r' && s@[pos as int + 2]
                    == 'u' && s@[pos as int + 3] == 'e');
            }
            if match_at(s@, pos as int, lf) {
                assert(forall|t: int|
                    0 <= t < 5 ==> s@.subrange(pos as int, pos as int + 5)[t] == lf[t]);
                assert(s@[pos as int] == 'f' && s@[pos as int + 1] == 'a' && s@[pos as int + 2]
                    == 'l' && s@[pos as int + 3] == 's' && s@[pos as int + 4] == 'e');
            }
        }
        Err(ParseError::new(ErrorKind::Syntax, pos))
    }
}

/// An integer literal at `pos` exactly: optional sign, one or more digits,
/// value within the signed 64-bit range.
pub fn integer(s: &Vec<char>, pos: usize) -> (r: Result<(i64, usize), ParseError>)
    requires
        pos <= s@.len(),
    ensures
        match r {
            Ok((n, next)) => sp_integer(s@, pos as int) == (SpecParsed::Found {
                v: n as int,
                next: next as int,
            }) && pos < next <= s@.len(),
            Err(e) => sp_integer(s@, pos as int) == (SpecParsed::<int>::Fail { err: e@ }),
        },
{
    let mut neg = false;
    let mut d0 = pos;
    if pos < s.len() && (s[pos] == '-' || s[pos] == '+') {
        neg = s[pos] == '-';
        d0 = pos + 1;
    }
    let mut k = d0;
    let mut acc: i64 = 0;
    let mut overflow = false;
    while k < s.len() && is_digit_char(s[k])
        invariant
            d0 <= k <= s@.len(),
            digit_run_len(s@, d0 as int) == (k - d0) + digit_run_len(s@, k as int),
            forall|t: int| d0 <= t < k ==> is_digit(#[trigger] s@[t]),
            !overflow ==> acc <= 0 && acc as int == -digits_val(s@, d0 as int, (k - d0) as nat),
            overflow ==> digits_val(s@, d0 as int, (k - d0) as nat) > (i64::MAX as int) + 1,
        decreases s@.len() - k,
    {
        let c = s[k];
        let d: u32 = c as u32 - 48;
        let ghost m = digits_val(s@, d0 as int, (k - d0) as nat);
        proof {
            assert(digits_val(s@, d0 as int, (k + 1 - d0) as nat) == m * 10 + (d as int));
        }
        if !overflow {
            let step = match acc.checked_mul(10) {
                Some(a10) => a10.checked_sub(d as i64),
                None => None,
            };
            match step {
                Some(a2) => {
                    acc = a2;
                },
                None => {
                    overflow = true;
                },
            }
        } else {
            proof {
                assert(m * 10 + (d as int) > (i64::MAX as int) + 1);
            }
        }
        k = k + 1;
    }
    proof {
        assert(digit_run_len(s@, k as int) == 0);
    }
    if k == d0 {
        return Err(ParseError::new(ErrorKind::Syntax, d0));
    }
    if overflow {
        return Err(ParseError::new(ErrorKind::NumericOverflow, pos));
    }
    proof {
        lemma_digits_val_nonneg(s@, d0 as int, (k - d0) as nat);
    }
    if neg {
        Ok((acc, k))
    } else {
        if acc == i64::MIN {
            return Err(ParseError::new(ErrorKind::NumericOverflow, pos));
        }
        Ok((-acc, k))
    }
}

/// Decides [`is_hex_digit`] on one character.
pub fn is_hex_char(c: char) -> (r: bool)
    ensures
        r == is_hex_digit(c),
{
    let u = c as u32;
    (48 <= u && u <= 57) || (97 <= u && u <= 102) || (65 <= u && u <= 70)
}

/// The value of one hex digit.
pub fn hex_char_val(c: char) -> (r: u32)
    requires
        is_hex_digit(c),
    ensures
        r as int == hex_digit_val(c),
        r < 16,
{
    let u = c as u32;
    if 48 <= u && u <= 57 {
        u - 48
    } else if 97 <= u && u <= 102 {
        u - 97 + 10
    } else {
        u - 65 + 10
    }
}

/// A string literal's verbatim fragment: the run up to the next quote or
/// backslash, appended to `buf`.
pub fn literal(s: &Vec<char>, pos: usize, buf: &mut String) -> (r: usize)
    requires
        pos <= s@.len(),
    ensures
        r as int == pos + lit_run_len(s@, pos as int),
        pos <= r <= s@.len(),
        final(buf)@ == old(buf)@ + s@.subrange(pos as int, r as int),
{
    let mut k = pos;
    proof {
        assert(buf@ =~= old(buf)@ + s@.subrange(pos as int, pos as int));
    }
    while k < s.len() && s[k] != '"' && s[k] != '\\'
        invariant
            pos <= k <= s@.len(),
            lit_run_len(s@, pos as int) == (k - pos) + lit_run_len(s@, k as int),
            buf@ == old(buf)@ + s@.subrange(pos as int, k as int),
        decreases s@.len() - k,
    {
        buf.push(s[k]);
        k = k + 1;
        proof {
            assert(buf@ =~= old(buf)@ + s@.subrange(pos as int, k as int));
        }
    }
    k
}

/// A unicode escape starting at the backslash `bpos` (whose following
/// character is already known to be `u`): `\u{`, one to six hex digits,
/// `}`, denoting a Unicode scalar value.
pub fn unicode(s: &Vec<char>, bpos: usize) -> (r: Result<(char, usize), ParseError>)
    requires
        bpos + 1 < s@.len(),
    ensures
        match r {
            Ok((c, next)) => sp_unicode_ok(s@, bpos as int) && c == sp_unicode_char(
                s@,
                bpos as int,
            ) && next as int == sp_unicode_next(s@, bpos as int) && bpos < next <= s@.len(),
            Err(e) => !sp_unicode_ok(s@, bpos as int) && e@ == sp_unicode_err(s@, bpos as int),
        },
{
    if s.len() - bpos <= 2 {
        return Err(ParseError::new(ErrorKind::Unterminated, s.len()));
    }
    if s[bpos + 2] != '{' {
        return Err(ParseError::new(ErrorKind::Syntax, bpos + 2));
    }
    let h0 = bpos + 3;
    let mut k: usize = 0;
    let mut acc: u32 = 0;
    while k < 6 && k < s.len() - h0 && is_hex_char(s[h0 + k])
        invariant
            h0 <= s@.len(),
            k <= 6,
            h0 + k <= s@.len(),
            hex_run_len(s@, h0 as int, 6) == k + hex_run_len(s@, h0 + k, (6 - k) as nat),
            forall|t: int| h0 <= t < h0 + k ==> is_hex_digit(#[trigger] s@[t]),
            acc as int == hex_val(s@, h0 as int, k as nat),
        decreases 6 - k,
    {
        proof {
            lemma_hex_val_bound(s@, h0 as int, k as nat);
            lemma_pow16_mono(k as nat, 5);
            assert(pow16(0) == 1);
            assert(pow16(1) == 16);
            assert(pow16(2) == 0x100);
            assert(pow16(3) == 0x1000);
            assert(pow16(4) == 0x10000);
            assert(pow16(5) == 0x100000);
        }
        let d = hex_char_val(s[h0 + k]);
        acc = acc * 16 + d;
        k = k + 1;
        proof {
            assert(hex_val(s@, h0 as int, k as nat) == hex_val(s@, h0 as int, (k - 1) as nat) * 16
                + hex_digit_val(s@[h0 + k - 1]));
        }
    }
    proof {
        if k < 6 {
            assert(hex_run_len(s@, h0 + k, (6 - k) as nat) == 0);
        }
        assert(hex_run_len(s@, h0 as int, 6) == k);
    }
    if k == 0 {
        if h0 >= s.len() {
            return Err(ParseError::new(ErrorKind::Unterminated, s.len()));
        }
        return Err(ParseError::new(ErrorKind::Syntax, h0));
    }
    if k >= s.len() - h0 {
        return Err(ParseError::new(ErrorKind::Unterminated, s.len()));
    }
    if s[h0 + k] != '}' {
        return Err(ParseError::new(ErrorKind::Syntax, h0 + k));
    }
    match char::from_u32(acc) {
        None => Err(ParseError::new(ErrorKind::InvalidUnicodeScalar, bpos)),
        Some(c) => {
            proof {
                vstd::utf8::char_u32_cast(c, acc);
                assert((acc as int) as char == acc as char);
            }
            Ok((c, h0 + k + 1))
        },
    }
}

/// A string literal at `pos` exactly: quote, folded fragments, quote.
pub fn string(s: &Vec<char>, pos: usize) -> (r: Result<(String, usize), ParseError>)
    requires
        pos <= s@.len(),
    ensures
        match r {
            Ok((text, next)) => sp_string(s@, pos as int) == (SpecParsed::Found {
                v: text@,
                next: next as int,
            }) && pos < next <= s@.len(),
            Err(e) => sp_string(s@, pos as int) == (SpecParsed::<Seq<char>>::Fail { err: e@ }),
        },
{
    if pos >= s.len() || s[pos] != '"' {
        return Err(ParseError::new(ErrorKind::Syntax, pos));
    }
    let mut buf = String::new();
    let mut cur: usize = pos + 1;
    loop
        invariant
            pos < cur <= s@.len(),
            pos < s@.len(),
            s@[pos as int] == '"',
            sp_fragments(s@, pos as int + 1, Seq::empty()) == sp_fragments(
                s@,
                cur as int,
                buf@,
            ),
        decreases s@.len() - cur,
    {
        if cur >= s.len() {
            let mut e = ParseError::new(ErrorKind::Unterminated, s.len());
            e.push_frame(RuleLabel::StringRule, pos);
            return Err(e);
        }
        let c = s[cur];
        if c == '"' {
            return Ok((buf, cur + 1));
        } else if c == '\\' {
            if cur + 1 >= s.len() {
                let mut e = ParseError::new(ErrorKind::Unterminated, s.len());
                e.push_frame(RuleLabel::StringRule, pos);
                return Err(e);
            }
            let e1 = s[cur + 1];
            if e1 == 'n' {
                buf.push('\n');
                cur = cur + 2;
            } else if e1 == 'r' {
                buf.push('\r');
                cur = cur + 2;
            } else if e1 == 't' {
                buf.push('\t');
                cur = cur + 2;
            } else if e1 == 'b' {
                buf.push('\u{08}');
                cur = cur + 2;
            } else if e1 == 'f' {
                buf.push('\u{0C}');
                cur = cur + 2;
            } else if e1 == '\\' {
                buf.push('\\');
                cur = cur + 2;
            } else if e1 == '/' {
                buf.push('/');
                cur = cur + 2;
            } else if e1 == '"' {
                buf.push('"');
                cur = cur + 2;
            } else if e1 == 'u' {
                match unicode(s, cur) {
                    Ok((ch, nx)) => {
                        buf.push(ch);
                        cur = nx;
                    },
                    Err(mut e) => {
                        e.push_frame(RuleLabel::StringRule, pos);
                        return Err(e);
                    },
                }
            } else if is_ws_char(e1) {
                cur = skip_whitespace(s, cur + 2);
            } else {
                let mut e = ParseError::new(ErrorKind::UnrecognizedEscape, cur + 1);
                e.push_frame(RuleLabel::StringRule, pos);
                return Err(e);
            }
        } else {
            cur = literal(s, cur, &mut buf);
        }
    }
}

/// Decides [`is_ascii_alpha`] on one character.
pub fn is_alpha_char(c: char) -> (r: bool)
    ensures
        r == is_ascii_alpha(c),
{
    let u = c as u32;
    (97 <= u && u <= 122) || (65 <= u && u <= 90)
}

/// An object key at `pos`: leading whitespace, then a double-quoted
/// identifier (ASCII letter first, alphanumeric or underscore after).
pub fn key(s: &Vec<char>, pos: usize) -> (r: Result<(String, usize), ParseError>)
    requires
        pos <= s@.len(),
    ensures
        match r {
            Ok((k, next)) => sp_key(s@, pos as int) == (SpecParsed::Found {
                v: k@,
                next: next as int,
            }) && pos < next <= s@.len(),
            Err(e) => sp_key(s@, pos as int) == (SpecParsed::<Seq<char>>::Fail { err: e@ }),
        },
{
    let j = skip_whitespace(s, pos);
    if j >= s.len() || s[j] != '"' {
        return Err(ParseError::new(ErrorKind::Syntax, j));
    }
    if j + 1 >= s.len() {
        return Err(ParseError::new(ErrorKind::Unterminated, s.len()));
    }
    let c0 = s[j + 1];
    if !is_alpha_char(c0) {
        return Err(ParseError::new(ErrorKind::MalformedKey, j + 1));
    }
    let mut buf = String::new();
    buf.push(c0);
    let mut k = j + 2;
    proof {
        assert(buf@ =~= s@.subrange(j as int + 1, j as int + 2));
    }
    while k < s.len() && (s[k].is_alphanumeric() || s[k] == '_')
        invariant
            j + 2 <= k <= s@.len(),
            key_tail_len(s@, j as int + 2) == (k - (j + 2)) + key_tail_len(s@, k as int),
            buf@ == s@.subrange(j as int + 1, k as int),
        decreases s@.len() - k,
    {
        buf.push(s[k]);
        k = k + 1;
        proof {
            assert(buf@ =~= s@.subrange(j as int + 1, k as int));
        }
    }
    if k >= s.len() {
        return Err(ParseError::new(ErrorKind::Unterminated, s.len()));
    }
    if s[k] != '"' {
        return Err(ParseError::new(ErrorKind::MalformedKey, k));
    }
    Ok((buf, k + 1))
}

/// One `key : value` entry of an object.
pub fn key_value(s: &Vec<char>, pos: usize, fuel: u32) -> (r: Result<
    ((String, Value), usize),
    ParseError,
>)
    requires
        pos <= s@.len(),
    ensures
        match r {
            Ok(((k, v), next)) => sp_key_value(s@, pos as int, fuel as nat) == (SpecParsed::Found {
                v: (k@, v@),
                next: next as int,
            }) && v.wf() && pos < next <= s@.len(),
            Err(e) => sp_key_value(s@, pos as int, fuel as nat) == (SpecParsed::<
                (Seq<char>, SpecValue),
            >::Fail { err: e@ }),
        },
    decreases fuel, 1nat,
{
    match key(s, pos) {
        Err(e) => Err(e),
        Ok((k, pk)) => {
            let jc = skip_whitespace(s, pk);
            if jc >= s.len() {
                return Err(ParseError::new(ErrorKind::Unterminated, s.len()));
            }
            if s[jc] != ':' {
                return Err(ParseError::new(ErrorKind::Syntax, jc));
            }
            match value(s, jc + 1, fuel) {
                Err(e) => Err(e),
                Ok((v, nx)) => Ok(((k, v), nx)),
            }
        },
    }
}

/// Records one parsed entry: a later entry for an already-present key
/// overwrites that key's value, so the entry list's keys stay distinct.
fn insert_pair(pairs: &mut Vec<(String, Value)>, k: String, v: Value)
    requires
        distinct_keys(old(pairs)@),
        forall|i: int| 0 <= i < old(pairs)@.len() ==> (#[trigger] old(pairs)@[i].1).wf(),
        v.wf(),
    ensures
        pairs_model(final(pairs)@) == pairs_model(old(pairs)@).insert(k@, spec_of_value(v)),
        distinct_keys(final(pairs)@),
        forall|i: int| 0 <= i < final(pairs)@.len() ==> (#[trigger] final(pairs)@[i].1).wf(),
{
    let mut i: usize = 0;
    while i < pairs.len()
        invariant
            i <= pairs@.len(),
            pairs@ == old(pairs)@,
            distinct_keys(old(pairs)@),
            forall|t: int| 0 <= t < old(pairs)@.len() ==> (#[trigger] old(pairs)@[t].1).wf(),
            v.wf(),
            forall|t: int| 0 <= t < i ==> old(pairs)@[t].0@ != k@,
        decreases pairs@.len() - i,
    {
        if pairs[i].0 == k {
            proof {
                assert(pairs@[i as int].0@ == k@);
            }
            pairs.push((k, v));
            let _replaced = pairs.swap_remove(i);
            proof {
                assert(pairs@ =~= old(pairs)@.update(i as int, (k, v)));
                lemma_pairs_model_update(old(pairs)@, i as int, k, v);
                assert(forall|t: int|
                    0 <= t < pairs@.len() ==> pairs@[t].0@ == old(pairs)@[t].0@);
                assert(forall|t: int|
                    0 <= t < pairs@.len() ==> (#[trigger] pairs@[t].1).wf());
            }
            return ;
        }
        i = i + 1;
    }
    pairs.push((k, v));
    proof {
        lemma_pairs_model_push(old(pairs)@, k, v);
        assert(old(pairs)@.push((k, v)) =~= pairs@);
    }
}

/// A value at `pos`: whitespace, then the alternative picked by the first
/// character. `fuel` bounds the remaining nesting depth.
pub fn value(s: &Vec<char>, pos: usize, fuel: u32) -> (r: Result<(Value, usize), ParseError>)
    requires
        pos <= s@.len(),
    ensures
        match r {
            Ok((v, next)) => sp_value(s@, pos as int, fuel as nat) == (SpecParsed::Found {
                v: v@,
                next: next as int,
            }) && v.wf() && pos < next <= s@.len(),
            Err(e) => sp_value(s@, pos as int, fuel as nat) == (SpecParsed::<SpecValue>::Fail {
                err: e@,
            }),
        },
    decreases fuel, 0nat,
{
    let j = skip_whitespace(s, pos);
    if fuel == 0 {
        return Err(ParseError::new(ErrorKind::DepthExceeded, j));
    }
    if j >= s.len() {
        return Err(ParseError::new(ErrorKind::Syntax, j));
    }
    let c = s[j];
    if c == 'n' {
        match null(s, j) {
            Ok((_u, nx)) => Ok((Value::Null, nx)),
            Err(e) => Err(e),
        }
    } else if c == 't' || c == 'f' {
        match boolean(s, j) {
            Ok((b, nx)) => Ok((Value::Boolean(b), nx)),
            Err(e) => Err(e),
        }
    } else if c == '+' || c == '-' || is_digit_char(c) {
        match integer(s, j) {
            Ok((n, nx)) => Ok((Value::Number(n), nx)),
            Err(e) => Err(e),
        }
    } else if c == '"' {
        match string(s, j) {
            Ok((text, nx)) => Ok((Value::String(text), nx)),
            Err(e) => Err(e),
        }
    } else if c == '[' {
        match array(s, j, fuel - 1) {
            Ok((elems, nx)) => Ok((Value::Array(elems), nx)),
            Err(e) => Err(e),
        }
    } else if c == '{' {
        match object(s, j, fuel - 1) {
            Ok((pairs, nx)) => Ok((Value::Object(pairs), nx)),
            Err(e) => Err(e),
        }
    } else {
        Err(ParseError::new(ErrorKind::Syntax, j))
    }
}

/// An array at `pos`: `[`, elements separated by `,`, then `]`.
pub fn array(s: &Vec<char>, pos: usize, fuel: u32) -> (r: Result<(Vec<Value>, usize), ParseError>)
    requires
        pos <= s@.len(),
    ensures
        match r {
            Ok((elems, next)) => sp_array(s@, pos as int, fuel as nat) == (SpecParsed::Found {
                v: elems_model(elems@),
                next: next as int,
            }) && (forall|i: int| 0 <= i < elems@.len() ==> (#[trigger] elems@[i]).wf()) && pos
                < next <= s@.len(),
            Err(e) => sp_array(s@, pos as int, fuel as nat) == (SpecParsed::<Seq<SpecValue>>::Fail {
                err: e@,
            }),
        },
    decreases fuel, 3nat,
{
    let j = skip_whitespace(s, pos);
    if j >= s.len() || s[j] != '[' {
        return Err(ParseError::new(ErrorKind::Syntax, j));
    }
    let j2 = skip_whitespace(s, j + 1);
    if j2 >= s.len() {
        let mut e = ParseError::new(ErrorKind::Unterminated, s.len());
        e.push_frame(RuleLabel::ArrayRule, j);
        return Err(e);
    }
    if s[j2] == ']' {
        let elems: Vec<Value> = Vec::new();
        proof {
            assert(elems_model(elems@) =~= Seq::<SpecValue>::empty());
        }
        return Ok((elems, j2 + 1));
    }
    let mut elems: Vec<Value> = Vec::new();
    let mut p = j + 1;
    proof {
        assert(elems_model(elems@) =~= Seq::<SpecValue>::empty());
    }
    loop
        invariant
            j < p <= s@.len(),
            pos <= j < s@.len(),
            pos <= s@.len(),
            s@[j as int] == '[',
            j as int == skip_ws(s@, pos as int),
            j2 as int == skip_ws(s@, j as int + 1),
            j2 < s@.len(),
            s@[j2 as int] != ']',
            sp_elems(s@, j as int + 1, fuel as nat, Seq::empty()) == sp_elems(
                s@,
                p as int,
                fuel as nat,
                elems_model(elems@),
            ),
            forall|i: int| 0 <= i < elems@.len() ==> (#[trigger] elems@[i]).wf(),
        decreases s@.len() - p,
    {
        match value(s, p, fuel) {
            Err(mut e) => {
                e.push_frame(RuleLabel::ArrayRule, j);
                return Err(e);
            },
            Ok((v, nx)) => {
                let ghost pre = elems@;
                elems.push(v);
                proof {
                    lemma_elems_model_push(pre, v);
                    assert(pre.push(v) =~= elems@);
                }
                let jd = skip_whitespace(s, nx);
                if jd >= s.len() {
                    let mut e = ParseError::new(ErrorKind::Unterminated, s.len());
                    e.push_frame(RuleLabel::ArrayRule, j);
                    return Err(e);
                }
                if s[jd] == ']' {
                    return Ok((elems, jd + 1));
                }
                if s[jd] == ',' {
                    p = jd + 1;
                } else {
                    let mut e = ParseError::new(ErrorKind::Syntax, jd);
                    e.push_frame(RuleLabel::ArrayRule, j);
                    return Err(e);
                }
            },
        }
    }
}

/// An object at `pos`: `{`, entries separated by `,`, then `}`.
pub fn object(s: &Vec<char>, pos: usize, fuel: u32) -> (r: Result<
    (Vec<(String, Value)>, usize),
    ParseError,
>)
    requires
        pos <= s@.len(),
    ensures
        match r {
            Ok((pairs, next)) => sp_object(s@, pos as int, fuel as nat) == (SpecParsed::Found {
                v: pairs_model(pairs@),
                next: next as int,
            }) && distinct_keys(pairs@) && (forall|i: int|
                0 <= i < pairs@.len() ==> (#[trigger] pairs@[i].1).wf()) && pos < next <= s@.len(),
            Err(e) => sp_object(s@, pos as int, fuel as nat) == (SpecParsed::<
                Map<Seq<char>, SpecValue>,
            >::Fail { err: e@ }),
        },
    decreases fuel, 3nat,
{
    let j = skip_whitespace(s, pos);
    if j >= s.len() || s[j] != '{' {
        return Err(ParseError::new(ErrorKind::Syntax, j));
    }
    let j2 = skip_whitespace(s, j + 1);
    if j2 >= s.len() {
        let mut e = ParseError::new(ErrorKind::Unterminated, s.len());
        e.push_frame(RuleLabel::ObjectRule, j);
        return Err(e);
    }
    if s[j2] == '}' {
        let pairs: Vec<(String, Value)> = Vec::new();
        proof {
            assert(entries_model(pairs@) =~= Seq::<(Seq<char>, SpecValue)>::empty());
            assert(pairs_model(pairs@) =~= Map::<Seq<char>, SpecValue>::empty());
        }
        return Ok((pairs, j2 + 1));
    }
    let mut pairs: Vec<(String, Value)> = Vec::new();
    let mut p = j + 1;
    proof {
        assert(entries_model(pairs@) =~= Seq::<(Seq<char>, SpecValue)>::empty());
        assert(pairs_model(pairs@) =~= Map::<Seq<char>, SpecValue>::empty());
    }
    loop
        invariant
            j < p <= s@.len(),
            pos <= j < s@.len(),
            pos <= s@.len(),
            s@[j as int] == '{',
            j as int == skip_ws(s@, pos as int),
            j2 as int == skip_ws(s@, j as int + 1),
            j2 < s@.len(),
            s@[j2 as int] != '}',
            sp_entries(s@, j as int + 1, fuel as nat, Map::empty()) == sp_entries(
                s@,
                p as int,
                fuel as nat,
                pairs_model(pairs@),
            ),
            distinct_keys(pairs@),
            forall|i: int| 0 <= i < pairs@.len() ==> (#[trigger] pairs@[i].1).wf(),
        decreases s@.len() - p,
    {
        match key_value(s, p, fuel) {
            Err(mut e) => {
                e.push_frame(RuleLabel::ObjectRule, j);
                return Err(e);
            },
            Ok(((k, v), nx)) => {
                insert_pair(&mut pairs, k, v);
                let jd = skip_whitespace(s, nx);
                if jd >= s.len() {
                    let mut e = ParseError::new(ErrorKind::Unterminated, s.len());
                    e.push_frame(RuleLabel::ObjectRule, j);
                    return Err(e);
                }
                if s[jd] == '}' {
                    return Ok((pairs, jd + 1));
                }
                if s[jd] == ',' {
                    p = jd + 1;
                } else {
                    let mut e = ParseError::new(ErrorKind::Syntax, jd);
                    e.push_frame(RuleLabel::ObjectRule, j);
                    return Err(e);
                }
            },
        }
    }
}

/// The document root: an object or an array, never a bare scalar.
pub fn root(s: &Vec<char>, max_depth: u32) -> (r: Result<(Value, usize), ParseError>)
    ensures
        match r {
            Ok((v, next)) => sp_root(s@, max_depth as nat) == (SpecParsed::Found {
                v: v@,
                next: next as int,
            }) && v.wf() && next <= s@.len(),
            Err(e) => sp_root(s@, max_depth as nat) == (SpecParsed::<SpecValue>::Fail { err: e@ }),
        },
{
    let j = skip_whitespace(s, 0);
    if j >= s.len() {
        return Err(ParseError::new(ErrorKind::Syntax, j));
    }
    let c = s[j];
    if c == '{' {
        match object(s, 0, max_depth) {
            Ok((pairs, nx)) => Ok((Value::Object(pairs), nx)),
            Err(e) => Err(e),
        }
    } else if c == '[' {
        match array(s, 0, max_depth) {
            Ok((elems, nx)) => Ok((Value::Array(elems), nx)),
            Err(e) => Err(e),
        }
    } else {
        Err(ParseError::new(ErrorKind::Syntax, j))
    }
}

} // verus!
