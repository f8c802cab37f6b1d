//! Small helpers for the values of a job file.

use vstd::prelude::*;
use crate::text::{chars_of, copy_range, string_from_chars};

verus! {

/// `s` without the double quotes around it, where it has one at each end.
pub open spec fn unquoted(s: Seq<char>) -> Seq<char> {
    if s.len() >= 2 && s[0] == '"' && s.last() == '"' {
        s.subrange(1, s.len() - 1)
    } else {
        s
    }
}

/// `text` without the double quotes around it, where it has one at each
/// end: the text of a value of a job file as a template takes it.
pub fn strip_quotes(text: &str) -> (r: String)
    ensures
        r@ == unquoted(text@),
{
    let s = chars_of(text);
    if s.len() >= 2 && s[0] == '"' && s[s.len() - 1] == '"' {
        let inner = copy_range(s.as_slice(), 1, s.len() - 1);
        string_from_chars(inner.as_slice())
    } else {
        string_from_chars(s.as_slice())
    }
}

} // verus!
