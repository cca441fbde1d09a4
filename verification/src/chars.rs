//! The few character operations the parser takes from the standard library
//! on trust, and the conversion of the input text to its character sequence.

use vstd::prelude::*;
use vstd::string::StrSliceExecFns;

use crate::grammar::is_unicode_alnum;
use crate::grammar::is_unicode_scalar;

verus! {

/// Relies on `char::is_alphanumeric`: the decision is a function of the
/// character alone (its Unicode general category), which this library does
/// not spell out; the grammar names it `is_unicode_alnum`.
pub assume_specification[ char::is_alphanumeric ](c: char) -> (r: bool)
    ensures
        r == is_unicode_alnum(c),
;

/// Relies on `char::from_u32`: it returns `Some` exactly for valid Unicode
/// scalar values (not a surrogate, at most `0x10FFFF`), and the returned
/// character carries the given code.
pub assume_specification[ char::from_u32 ](v: u32) -> (r: Option<char>)
    ensures
        r is Some <==> is_unicode_scalar(v as int),
        r matches Some(c) ==> c as u32 == v,
;

/// Relies on `String::push`: it appends the given character to the end of
/// the string.
pub assume_specification[ std::string::String::push ](s: &mut std::string::String, c: char)
    ensures
        final(s)@ == old(s)@.push(c),
;

/// The input text as the character sequence the grammar is stated over.
pub fn text_chars(data: &str) -> (r: Vec<char>)
    ensures
        r@ == data@,
{
    let n = data.unicode_len();
    let mut v: Vec<char> = Vec::new();
    let mut i: usize = 0;
    while i < n
        invariant
            n == data@.len(),
            i <= n,
            v@ == data@.subrange(0, i as int),
        decreases n - i,
    {
        let c = data.get_char(i);
        v.push(c);
        i = i + 1;
        proof {
            assert(v@ =~= data@.subrange(0, i as int));
        }
    }
    proof {
        assert(v@ =~= data@);
    }
    v
}

} // verus!
