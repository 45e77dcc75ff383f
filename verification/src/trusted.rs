//! The calls into code that is not verified here. Verus takes the contracts in
//! this file on trust.

use crate::text::{strip, STRIP_PATTERN};
use regex::Regex;
use vstd::prelude::*;

verus! {

/// `String::push` appends the character to the end of the string.
pub assume_specification[ String::push ](s: &mut String, ch: char)
    ensures
        final(s)@ == old(s)@.push(ch),
;

/// Compiles `pattern` with `regex::Regex::new` and replaces every match in
/// `text` by `replacement` with `regex::Regex::replace_all`.
///
/// The contract covers one pattern only, the negated character class
/// [`STRIP_PATTERN`], with the empty replacement. That pattern compiles. Each
/// of its matches is a single character outside the class, and every such
/// character is matched, so what remains are the characters of the class in
/// their order. `\s` in the class is the Unicode property `White_Space`.
#[verifier::external_body]
pub(crate) fn replace_all(pattern: &str, text: &str, replacement: &str) -> (res: String)
    requires
        pattern@ == STRIP_PATTERN@,
        replacement@.len() == 0,
    ensures
        res@ == strip(text@),
{
    Regex::new(pattern).unwrap().replace_all(text, replacement).into_owned()
}

} // verus!
