//! The rule for clearing the clipboard after the timeout.
use vstd::prelude::*;

use crate::order::str_eq;

verus! {

/// Clears only when the clipboard still holds what was written; when it could
/// not be read (`None`) it is left alone.
pub fn should_clear(current: Option<&str>, expected: &str) -> (clear: bool)
    ensures
        clear == (current matches Some(c) && c@ == expected@),
{
    match current {
        Some(c) => str_eq(c, expected),
        None => false,
    }
}

} // verus!
