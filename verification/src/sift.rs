//! Standalone pre-parse line sifting.

use vstd::prelude::*;

verus! {

use crate::pattern::{Pattern, regex_is_match};

/// Tests a raw line against an optional line pattern before parsing; with
/// no pattern every line passes, and a read failure always passes so it can
/// be handled downstream.
pub fn is_valid_line<E>(line_regex: &Option<Pattern>, line: &Result<String, E>) -> (r: bool)
    ensures
        r == match *line {
            Ok(l) => match *line_regex {
                Some(p) => regex_is_match(p@, l@),
                None => true,
            },
            Err(_) => true,
        },
        line is Err ==> r,
{
    match line {
        Ok(l) => match line_regex {
            Some(p) => p.is_match(l.as_str()),
            None => true,
        },
        Err(_) => true,
    }
}

} // verus!
