//! The grammar, stated as total functions over the input's character
//! sequence.
//!
//! Each function takes the whole input and the offset at which its rule
//! starts, and yields either the parsed result together with the offset just
//! past what the rule consumed, or the failure the rule reports there. The
//! executable parser is proved to return exactly what these functions say.
//!
//! Committed points of the design, where the prose grammar leaves latitude:
//! input is treated as fully buffered, so input that ends inside a string,
//! array or object is an ordinary `Unterminated` failure; at a position where
//! a value is expected, the alternative is chosen by the first character
//! after the whitespace (the literal prefixes are mutually exclusive, so this
//! only fixes which failure is reported); a key's `MalformedKey` failure
//! names the first character that breaks the identifier shape.

use vstd::prelude::*;

use crate::ast::SpecValue;
use crate::err::ErrorKind;
use crate::err::RuleLabel;
use crate::err::SpecError;

verus! {

/// What a grammar rule yields at a given offset: a result and the offset
/// just past it, or a failure.
pub ghost enum SpecParsed<T> {
    Found { v: T, next: int },
    Fail { err: SpecError },
}

/// The whitespace the token rules skip: space, tab, carriage return, line
/// feed.
pub open spec fn is_ws(c: char) -> bool {
    c == ' ' || c == '\t' || c == '\r' || c == '\n'
}

/// Length of the whitespace run starting at `i`.
pub open spec fn ws_run_len(s: Seq<char>, i: int) -> nat
    decreases s.len() - i,
{
    if 0 <= i < s.len() && is_ws(s[i]) {
        1 + ws_run_len(s, i + 1)
    } else {
        0
    }
}

/// The first offset at or after `i` that holds no whitespace.
pub open spec fn skip_ws(s: Seq<char>, i: int) -> int {
    i + ws_run_len(s, i)
}

pub open spec fn is_digit(c: char) -> bool {
    '0' as u32 <= c as u32 && c as u32 <= '9' as u32
}

pub open spec fn is_ascii_alpha(c: char) -> bool {
    ('a' as u32 <= c as u32 && c as u32 <= 'z' as u32) || ('A' as u32 <= c as u32 && c as u32
        <= 'Z' as u32)
}

pub open spec fn is_hex_digit(c: char) -> bool {
    is_digit(c) || ('a' as u32 <= c as u32 && c as u32 <= 'f' as u32) || ('A' as u32 <= c as u32
        && c as u32 <= 'F' as u32)
}

pub open spec fn digit_val(c: char) -> int {
    c as u32 - '0' as u32
}

pub open spec fn hex_digit_val(c: char) -> int {
    if is_digit(c) {
        c as u32 - '0' as u32
    } else if 'a' as u32 <= c as u32 && c as u32 <= 'f' as u32 {
        c as u32 - 'a' as u32 + 10
    } else {
        c as u32 - 'A' as u32 + 10
    }
}

/// Length of the decimal-digit run starting at `i`.
pub open spec fn digit_run_len(s: Seq<char>, i: int) -> nat
    decreases s.len() - i,
{
    if 0 <= i < s.len() && is_digit(s[i]) {
        1 + digit_run_len(s, i + 1)
    } else {
        0
    }
}

/// Value of the `n` decimal digits starting at `i`.
pub open spec fn digits_val(s: Seq<char>, i: int, n: nat) -> int
    decreases n,
{
    if n == 0 {
        0
    } else {
        digits_val(s, i, (n - 1) as nat) * 10 + digit_val(s[i + n - 1])
    }
}

/// Length of the hexadecimal-digit run starting at `i`, capped at `cap`.
pub open spec fn hex_run_len(s: Seq<char>, i: int, cap: nat) -> nat
    decreases cap,
{
    if cap > 0 && 0 <= i < s.len() && is_hex_digit(s[i]) {
        1 + hex_run_len(s, i + 1, (cap - 1) as nat)
    } else {
        0
    }
}

/// Value of the `n` hexadecimal digits starting at `i`.
pub open spec fn hex_val(s: Seq<char>, i: int, n: nat) -> int
    decreases n,
{
    if n == 0 {
        0
    } else {
        hex_val(s, i, (n - 1) as nat) * 16 + hex_digit_val(s[i + n - 1])
    }
}

/// Length of the run of characters at `i` that a string literal takes
/// verbatim: everything up to the next quote or backslash.
pub open spec fn lit_run_len(s: Seq<char>, i: int) -> nat
    decreases s.len() - i,
{
    if 0 <= i < s.len() && s[i] != '"' && s[i] != '\\' {
        1 + lit_run_len(s, i + 1)
    } else {
        0
    }
}

/// What `char::is_alphanumeric` decides for a character. The decision comes
/// from the Unicode character categories, which this library does not spell
/// out; key parsing is stated and verified against this name.
pub uninterp spec fn is_unicode_alnum(c: char) -> bool;

/// Length of the run of key-tail characters (alphanumeric or underscore)
/// starting at `i`.
pub open spec fn key_tail_len(s: Seq<char>, i: int) -> nat
    decreases s.len() - i,
{
    if 0 <= i < s.len() && (is_unicode_alnum(s[i]) || s[i] == '_') {
        1 + key_tail_len(s, i + 1)
    } else {
        0
    }
}

/// A Unicode scalar value: a code point that is not a surrogate half.
pub open spec fn is_unicode_scalar(v: int) -> bool {
    (0 <= v && v < 0xD800) || (0xE000 <= v && v <= 0x10FFFF)
}

/// A whitespace run never reaches past the end of the input.
pub proof fn lemma_ws_run_bound(s: Seq<char>, i: int)
    requires
        0 <= i <= s.len(),
    ensures
        i + ws_run_len(s, i) <= s.len(),
    decreases s.len() - i,
{
    if i < s.len() && is_ws(s[i]) {
        lemma_ws_run_bound(s, i + 1);
    }
}

/// A literal run never reaches past the end of the input.
pub proof fn lemma_lit_run_bound(s: Seq<char>, i: int)
    requires
        0 <= i <= s.len(),
    ensures
        i + lit_run_len(s, i) <= s.len(),
    decreases s.len() - i,
{
    if i < s.len() && s[i] != '"' && s[i] != '\\' {
        lemma_lit_run_bound(s, i + 1);
    }
}

/// The value of a digit run is not negative.
pub proof fn lemma_digits_val_nonneg(s: Seq<char>, i: int, n: nat)
    requires
        forall|t: int| i <= t < i + n ==> is_digit(#[trigger] s[t]),
    ensures
        digits_val(s, i, n) >= 0,
    decreases n,
{
    if n > 0 {
        lemma_digits_val_nonneg(s, i, (n - 1) as nat);
        assert(is_digit(s[i + n - 1]));
    }
}

/// Powers of sixteen: the bound on the value of a capped hex run.
pub open spec fn pow16(n: nat) -> int
    decreases n,
{
    if n == 0 {
        1
    } else {
        16 * pow16((n - 1) as nat)
    }
}

/// Powers of sixteen are positive and grow with the exponent.
pub proof fn lemma_pow16_mono(a: nat, b: nat)
    requires
        a <= b,
    ensures
        0 < pow16(a) <= pow16(b),
    decreases b,
{
    if a == b {
        if a > 0 {
            lemma_pow16_mono((a - 1) as nat, (b - 1) as nat);
        }
    } else {
        lemma_pow16_mono(a, (b - 1) as nat);
    }
}

/// A hex run's value is bounded by sixteen to its length.
pub proof fn lemma_hex_val_bound(s: Seq<char>, i: int, n: nat)
    requires
        forall|t: int| i <= t < i + n ==> is_hex_digit(#[trigger] s[t]),
    ensures
        0 <= hex_val(s, i, n) < pow16(n),
    decreases n,
{
    if n > 0 {
        lemma_hex_val_bound(s, i, (n - 1) as nat);
        assert(is_hex_digit(s[i + n - 1]));
        assert(0 <= hex_digit_val(s[i + n - 1]) < 16);
    }
}

/// The literal `lit` occurs at offset `i`.
pub open spec fn match_at(s: Seq<char>, i: int, lit: Seq<char>) -> bool {
    0 <= i && i + lit.len() <= s.len() && s.subrange(i, i + lit.len()) == lit
}

/// The `null` literal. Like the other scalar rules it matches at `i`
/// exactly; the value dispatcher skips whitespace before it.
pub open spec fn sp_null(s: Seq<char>, i: int) -> SpecParsed<()> {
    if match_at(s, i, seq!['n', 'u', 'l', 'l']) {
        SpecParsed::Found { v: (), next: i + 4 }
    } else {
        SpecParsed::Fail { err: SpecError::fresh(ErrorKind::Syntax, i) }
    }
}

/// The `true` / `false` literals.
pub open spec fn sp_boolean(s: Seq<char>, i: int) -> SpecParsed<bool> {
    if match_at(s, i, seq!['t', 'r', 'u', 'e']) {
        SpecParsed::Found { v: true, next: i + 4 }
    } else if match_at(s, i, seq!['f', 'a', 'l', 's', 'e']) {
        SpecParsed::Found { v: false, next: i + 5 }
    } else {
        SpecParsed::Fail { err: SpecError::fresh(ErrorKind::Syntax, i) }
    }
}

/// An integer literal: an optional sign, then one or more decimal digits,
/// whose value must lie in the signed 64-bit range.
pub open spec fn sp_integer(s: Seq<char>, i: int) -> SpecParsed<int> {
    let neg = 0 <= i < s.len() && s[i] == '-';
    let d0 = if 0 <= i < s.len() && (s[i] == '-' || s[i] == '+') {
        i + 1
    } else {
        i
    };
    let n = digit_run_len(s, d0);
    if n == 0 {
        SpecParsed::Fail { err: SpecError::fresh(ErrorKind::Syntax, d0) }
    } else {
        let m = digits_val(s, d0, n);
        let v = if neg {
            -m
        } else {
            m
        };
        if v < i64::MIN as int || v > i64::MAX as int {
            SpecParsed::Fail { err: SpecError::fresh(ErrorKind::NumericOverflow, i) }
        } else {
            SpecParsed::Found { v, next: d0 + n }
        }
    }
}

/// A unicode escape `\u{...}` starting at the backslash `i` is well formed
/// and names a valid Unicode scalar value: `u`, `{`, one to six hex digits,
/// `}`, with the seventh character position already holding the brace.
pub open spec fn sp_unicode_ok(s: Seq<char>, i: int) -> bool {
    let hn = hex_run_len(s, i + 3, 6);
    i + 2 < s.len() && s[i + 2] == '{' && hn > 0 && i + 3 + hn < s.len() && s[i + 3 + hn] == '}'
        && is_unicode_scalar(hex_val(s, i + 3, hn))
}

/// The character a well-formed unicode escape at `i` denotes.
pub open spec fn sp_unicode_char(s: Seq<char>, i: int) -> char {
    hex_val(s, i + 3, hex_run_len(s, i + 3, 6)) as char
}

/// The offset just past a well-formed unicode escape at `i`.
pub open spec fn sp_unicode_next(s: Seq<char>, i: int) -> int {
    i + 4 + hex_run_len(s, i + 3, 6)
}

/// The failure an ill-formed unicode escape at `i` reports.
pub open spec fn sp_unicode_err(s: Seq<char>, i: int) -> SpecError {
    let hn = hex_run_len(s, i + 3, 6);
    if i + 2 >= s.len() {
        SpecError::fresh(ErrorKind::Unterminated, s.len() as int)
    } else if s[i + 2] != '{' {
        SpecError::fresh(ErrorKind::Syntax, i + 2)
    } else if hn == 0 {
        if i + 3 >= s.len() {
            SpecError::fresh(ErrorKind::Unterminated, s.len() as int)
        } else {
            SpecError::fresh(ErrorKind::Syntax, i + 3)
        }
    } else if i + 3 + hn >= s.len() {
        SpecError::fresh(ErrorKind::Unterminated, s.len() as int)
    } else if s[i + 3 + hn] != '}' {
        SpecError::fresh(ErrorKind::Syntax, i + 3 + hn)
    } else {
        SpecError::fresh(ErrorKind::InvalidUnicodeScalar, i)
    }
}

/// The body of a string literal after its opening quote: a fold of
/// fragments into `acc` that ends at an unescaped closing quote.
pub open spec fn sp_fragments(s: Seq<char>, i: int, acc: Seq<char>) -> SpecParsed<Seq<char>>
    decreases s.len() - i,
    via sp_fragments_dec
{
    if i < 0 || i >= s.len() {
        SpecParsed::Fail { err: SpecError::fresh(ErrorKind::Unterminated, s.len() as int) }
    } else if s[i] == '"' {
        SpecParsed::Found { v: acc, next: i + 1 }
    } else if s[i] == '\\' {
        if i + 1 >= s.len() {
            SpecParsed::Fail { err: SpecError::fresh(ErrorKind::Unterminated, s.len() as int) }
        } else {
            let c = s[i + 1];
            if c == 'n' {
                sp_fragments(s, i + 2, acc.push('\n'))
            } else if c == 'r' {
                sp_fragments(s, i + 2, acc.push('\r'))
            } else if c == 't' {
                sp_fragments(s, i + 2, acc.push('\t'))
            } else if c == 'b' {
                sp_fragments(s, i + 2, acc.push('\u{08}'))
            } else if c == 'f' {
                sp_fragments(s, i + 2, acc.push('\u{0C}'))
            } else if c == '\\' {
                sp_fragments(s, i + 2, acc.push('\\'))
            } else if c == '/' {
                sp_fragments(s, i + 2, acc.push('/'))
            } else if c == '"' {
                sp_fragments(s, i + 2, acc.push('"'))
            } else if c == 'u' {
                if sp_unicode_ok(s, i) {
                    sp_fragments(s, sp_unicode_next(s, i), acc.push(sp_unicode_char(s, i)))
                } else {
                    SpecParsed::Fail { err: sp_unicode_err(s, i) }
                }
            } else if is_ws(c) {
                sp_fragments(s, i + 2 + ws_run_len(s, i + 2), acc)
            } else {
                SpecParsed::Fail { err: SpecError::fresh(ErrorKind::UnrecognizedEscape, i + 1) }
            }
        }
    } else {
        let n = lit_run_len(s, i);
        sp_fragments(s, i + n, acc + s.subrange(i, i + n))
    }
}

#[via_fn]
proof fn sp_fragments_dec(s: Seq<char>, i: int, acc: Seq<char>) {
    if 0 <= i && i < s.len() {
        if s[i] == '\\' && i + 1 < s.len() && is_ws(s[i + 1]) {
            lemma_ws_run_bound(s, i + 2);
        }
        if s[i] == '\\' && i + 1 < s.len() && s[i + 1] == 'u' && sp_unicode_ok(s, i) {
            assert(i < sp_unicode_next(s, i) <= s.len());
        }
        if s[i] != '"' && s[i] != '\\' {
            lemma_lit_run_bound(s, i);
        }
    }
}

/// A string literal: quote, fragments, quote. Failures inside carry the
/// string rule's context frame, recorded at the opening quote.
pub open spec fn sp_string(s: Seq<char>, i: int) -> SpecParsed<Seq<char>> {
    if !(0 <= i < s.len() && s[i] == '"') {
        SpecParsed::Fail { err: SpecError::fresh(ErrorKind::Syntax, i) }
    } else {
        match sp_fragments(s, i + 1, Seq::empty()) {
            SpecParsed::Found { v, next } => SpecParsed::Found { v, next },
            SpecParsed::Fail { err } => SpecParsed::Fail {
                err: err.pushed(RuleLabel::StringRule, i),
            },
        }
    }
}

/// An object key: leading whitespace, then a double-quoted identifier whose
/// first character is an ASCII letter and whose remaining characters are
/// alphanumeric or underscore.
pub open spec fn sp_key(s: Seq<char>, i: int) -> SpecParsed<Seq<char>> {
    let j = skip_ws(s, i);
    if j >= s.len() || s[j] != '"' {
        SpecParsed::Fail { err: SpecError::fresh(ErrorKind::Syntax, j) }
    } else if j + 1 >= s.len() {
        SpecParsed::Fail { err: SpecError::fresh(ErrorKind::Unterminated, s.len() as int) }
    } else if !is_ascii_alpha(s[j + 1]) {
        SpecParsed::Fail { err: SpecError::fresh(ErrorKind::MalformedKey, j + 1) }
    } else {
        let kend = j + 2 + key_tail_len(s, j + 2);
        if kend >= s.len() {
            SpecParsed::Fail { err: SpecError::fresh(ErrorKind::Unterminated, s.len() as int) }
        } else if s[kend] != '"' {
            SpecParsed::Fail { err: SpecError::fresh(ErrorKind::MalformedKey, kend) }
        } else {
            SpecParsed::Found { v: s.subrange(j + 1, kend), next: kend + 1 }
        }
    }
}

/// A value at `i`: whitespace is skipped, then the alternative is chosen by
/// the first character (`n` null, `t`/`f` boolean, sign or digit integer,
/// quote string, bracket array, brace object). `fuel` bounds the remaining
/// nesting depth of values.
pub open spec fn sp_value(s: Seq<char>, i: int, fuel: nat) -> SpecParsed<SpecValue>
    decreases fuel, 0int, 0int,
{
    let j = skip_ws(s, i);
    if fuel == 0 {
        SpecParsed::Fail { err: SpecError::fresh(ErrorKind::DepthExceeded, j) }
    } else if j >= s.len() {
        SpecParsed::Fail { err: SpecError::fresh(ErrorKind::Syntax, j) }
    } else {
        let c = s[j];
        if c == 'n' {
            match sp_null(s, j) {
                SpecParsed::Found { v, next } => SpecParsed::Found { v: SpecValue::Null, next },
                SpecParsed::Fail { err } => SpecParsed::Fail { err },
            }
        } else if c == 't' || c == 'f' {
            match sp_boolean(s, j) {
                SpecParsed::Found { v, next } => SpecParsed::Found {
                    v: SpecValue::Boolean(v),
                    next,
                },
                SpecParsed::Fail { err } => SpecParsed::Fail { err },
            }
        } else if c == '+' || c == '-' || is_digit(c) {
            match sp_integer(s, j) {
                SpecParsed::Found { v, next } => SpecParsed::Found {
                    v: SpecValue::Number(v),
                    next,
                },
                SpecParsed::Fail { err } => SpecParsed::Fail { err },
            }
        } else if c == '"' {
            match sp_string(s, j) {
                SpecParsed::Found { v, next } => SpecParsed::Found {
                    v: SpecValue::String(v),
                    next,
                },
                SpecParsed::Fail { err } => SpecParsed::Fail { err },
            }
        } else if c == '[' {
            match sp_array(s, j, (fuel - 1) as nat) {
                SpecParsed::Found { v, next } => SpecParsed::Found {
                    v: SpecValue::Array(v),
                    next,
                },
                SpecParsed::Fail { err } => SpecParsed::Fail { err },
            }
        } else if c == '{' {
            match sp_object(s, j, (fuel - 1) as nat) {
                SpecParsed::Found { v, next } => SpecParsed::Found {
                    v: SpecValue::Object(v),
                    next,
                },
                SpecParsed::Fail { err } => SpecParsed::Fail { err },
            }
        } else {
            SpecParsed::Fail { err: SpecError::fresh(ErrorKind::Syntax, j) }
        }
    }
}

/// One `key : value` entry.
pub open spec fn sp_key_value(s: Seq<char>, p: int, fuel: nat) -> SpecParsed<
    (Seq<char>, SpecValue),
>
    decreases fuel, 1int, 0int,
{
    match sp_key(s, p) {
        SpecParsed::Fail { err } => SpecParsed::Fail { err },
        SpecParsed::Found { v: k, next: pk } => {
            let jc = skip_ws(s, pk);
            if jc >= s.len() {
                SpecParsed::Fail { err: SpecError::fresh(ErrorKind::Unterminated, s.len() as int) }
            } else if s[jc] != ':' {
                SpecParsed::Fail { err: SpecError::fresh(ErrorKind::Syntax, jc) }
            } else {
                match sp_value(s, jc + 1, fuel) {
                    SpecParsed::Fail { err } => SpecParsed::Fail { err },
                    SpecParsed::Found { v, next } => SpecParsed::Found { v: (k, v), next },
                }
            }
        },
    }
}

/// The non-empty entry list of an object, starting just past `{` or `,`,
/// folded into `acc`; a later entry for a key overwrites an earlier one.
/// Ends at `}`.
pub open spec fn sp_entries(
    s: Seq<char>,
    p: int,
    fuel: nat,
    acc: Map<Seq<char>, SpecValue>,
) -> SpecParsed<Map<Seq<char>, SpecValue>>
    decreases fuel, 2int, s.len() - p,
{
    match sp_key_value(s, p, fuel) {
        SpecParsed::Fail { err } => SpecParsed::Fail { err },
        SpecParsed::Found { v: kv, next } => {
            let j = skip_ws(s, next);
            let acc2 = acc.insert(kv.0, kv.1);
            if j >= s.len() {
                SpecParsed::Fail { err: SpecError::fresh(ErrorKind::Unterminated, s.len() as int) }
            } else if s[j] == '}' {
                SpecParsed::Found { v: acc2, next: j + 1 }
            } else if s[j] == ',' {
                if p < j + 1 {
                    sp_entries(s, j + 1, fuel, acc2)
                } else {
                    SpecParsed::Fail { err: SpecError::fresh(ErrorKind::Syntax, j + 1) }
                }
            } else {
                SpecParsed::Fail { err: SpecError::fresh(ErrorKind::Syntax, j) }
            }
        },
    }
}

/// The non-empty element list of an array, starting just past `[` or `,`,
/// appended to `acc` in source order. Ends at `]`.
pub open spec fn sp_elems(s: Seq<char>, p: int, fuel: nat, acc: Seq<SpecValue>) -> SpecParsed<
    Seq<SpecValue>,
>
    decreases fuel, 2int, s.len() - p,
{
    match sp_value(s, p, fuel) {
        SpecParsed::Fail { err } => SpecParsed::Fail { err },
        SpecParsed::Found { v, next } => {
            let j = skip_ws(s, next);
            let acc2 = acc.push(v);
            if j >= s.len() {
                SpecParsed::Fail { err: SpecError::fresh(ErrorKind::Unterminated, s.len() as int) }
            } else if s[j] == ']' {
                SpecParsed::Found { v: acc2, next: j + 1 }
            } else if s[j] == ',' {
                if p < j + 1 {
                    sp_elems(s, j + 1, fuel, acc2)
                } else {
                    SpecParsed::Fail { err: SpecError::fresh(ErrorKind::Syntax, j + 1) }
                }
            } else {
                SpecParsed::Fail { err: SpecError::fresh(ErrorKind::Syntax, j) }
            }
        },
    }
}

/// An array: `[`, optionally elements separated by `,`, then `]`. Failures
/// inside carry the array rule's context frame, recorded at the bracket.
pub open spec fn sp_array(s: Seq<char>, i: int, fuel: nat) -> SpecParsed<Seq<SpecValue>>
    decreases fuel, 3int, 0int,
{
    let j = skip_ws(s, i);
    if j >= s.len() || s[j] != '[' {
        SpecParsed::Fail { err: SpecError::fresh(ErrorKind::Syntax, j) }
    } else {
        let j2 = skip_ws(s, j + 1);
        if j2 >= s.len() {
            SpecParsed::Fail {
                err: SpecError::fresh(ErrorKind::Unterminated, s.len() as int).pushed(
                    RuleLabel::ArrayRule,
                    j,
                ),
            }
        } else if s[j2] == ']' {
            SpecParsed::Found { v: Seq::empty(), next: j2 + 1 }
        } else {
            match sp_elems(s, j + 1, fuel, Seq::empty()) {
                SpecParsed::Found { v, next } => SpecParsed::Found { v, next },
                SpecParsed::Fail { err } => SpecParsed::Fail {
                    err: err.pushed(RuleLabel::ArrayRule, j),
                },
            }
        }
    }
}

/// An object: `{`, optionally entries separated by `,`, then `}`. Failures
/// inside carry the object rule's context frame, recorded at the brace.
pub open spec fn sp_object(s: Seq<char>, i: int, fuel: nat) -> SpecParsed<
    Map<Seq<char>, SpecValue>,
>
    decreases fuel, 3int, 0int,
{
    let j = skip_ws(s, i);
    if j >= s.len() || s[j] != '{' {
        SpecParsed::Fail { err: SpecError::fresh(ErrorKind::Syntax, j) }
    } else {
        let j2 = skip_ws(s, j + 1);
        if j2 >= s.len() {
            SpecParsed::Fail {
                err: SpecError::fresh(ErrorKind::Unterminated, s.len() as int).pushed(
                    RuleLabel::ObjectRule,
                    j,
                ),
            }
        } else if s[j2] == '}' {
            SpecParsed::Found { v: Map::empty(), next: j2 + 1 }
        } else {
            match sp_entries(s, j + 1, fuel, Map::empty()) {
                SpecParsed::Found { v, next } => SpecParsed::Found { v, next },
                SpecParsed::Fail { err } => SpecParsed::Fail {
                    err: err.pushed(RuleLabel::ObjectRule, j),
                },
            }
        }
    }
}

/// A document root: an object or an array, selected by the first character
/// after leading whitespace; a bare scalar root is rejected with a `Syntax`
/// failure there.
pub open spec fn sp_root(s: Seq<char>, max_depth: nat) -> SpecParsed<SpecValue> {
    let j = skip_ws(s, 0);
    if j >= s.len() {
        SpecParsed::Fail { err: SpecError::fresh(ErrorKind::Syntax, j) }
    } else if s[j] == '{' {
        match sp_object(s, 0, max_depth) {
            SpecParsed::Found { v, next } => SpecParsed::Found { v: SpecValue::Object(v), next },
            SpecParsed::Fail { err } => SpecParsed::Fail { err },
        }
    } else if s[j] == '[' {
        match sp_array(s, 0, max_depth) {
            SpecParsed::Found { v, next } => SpecParsed::Found { v: SpecValue::Array(v), next },
            SpecParsed::Fail { err } => SpecParsed::Fail { err },
        }
    } else {
        SpecParsed::Fail { err: SpecError::fresh(ErrorKind::Syntax, j) }
    }
}

} // verus!

