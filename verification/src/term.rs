//! Decisions of the terminal dialogue: checking the master password, its
//! confirmation, and reading a yes/no answer.
use vstd::prelude::*;

use crate::order::str_eq;
use crate::text::{trim, trimmed};

verus! {

/// Fewest characters a master password may have.
pub const MIN_MASTER_CHARS: usize = 12;

/// Most characters a master password may have.
pub const MAX_MASTER_CHARS: usize = 128;

/// Checks that the master password has 12 to 128 characters (Unicode scalar
/// values, not bytes).
pub fn validate_password(password: &str) -> (r: Result<(), String>)
    ensures
        password@.len() < 12 ==> r is Err && r->Err_0@
            == "master password must be at least 12 characters"@,
        password@.len() > 128 ==> r is Err && r->Err_0@
            == "master password must be at most 128 characters"@,
        12 <= password@.len() <= 128 ==> r is Ok,
{
    let len = password.unicode_len();
    if len < MIN_MASTER_CHARS {
        return Err(String::from_str("master password must be at least 12 characters"));
    }
    if len > MAX_MASTER_CHARS {
        return Err(String::from_str("master password must be at most 128 characters"));
    }
    Ok(())
}

/// What the dialogue does next after a master password was typed.
pub enum PromptStep {
    /// Stop with this error.
    Reject(String),
    /// Ask for the password a second time.
    AskConfirmation,
    /// Use the password.
    Accept,
    /// The two entries differ: say so and start over.
    Mismatch,
}

/// The step after the first entry: reject an invalid password, else ask for
/// confirmation when `confirm` is set, else accept.
pub fn after_first_entry(first: &str, confirm: bool) -> (s: PromptStep)
    ensures
        !(12 <= first@.len() <= 128) ==> s is Reject,
        s matches PromptStep::Reject(e) ==> validate_password_error(first@) == Some(e@),
        12 <= first@.len() <= 128 && confirm ==> s is AskConfirmation,
        12 <= first@.len() <= 128 && !confirm ==> s is Accept,
{
    match validate_password(first) {
        Err(e) => PromptStep::Reject(e),
        Ok(()) => if confirm {
            PromptStep::AskConfirmation
        } else {
            PromptStep::Accept
        },
    }
}

/// The error that `validate_password` gives, if any.
pub open spec fn validate_password_error(password: Seq<char>) -> Option<Seq<char>> {
    if password.len() < 12 {
        Some("master password must be at least 12 characters"@)
    } else if password.len() > 128 {
        Some("master password must be at most 128 characters"@)
    } else {
        None
    }
}

/// The step after the confirmation: accept when both entries agree.
pub fn after_confirmation(first: &str, second: &str) -> (s: PromptStep)
    ensures
        first@ == second@ ==> s is Accept,
        first@ != second@ ==> s is Mismatch,
{
    if str_eq(first, second) {
        PromptStep::Accept
    } else {
        PromptStep::Mismatch
    }
}

/// Whether an answer line means yes: something was read and, trimmed, it
/// starts with `y` or `Y`. End of input (nothing read) means no.
pub fn is_affirmative(bytes_read: usize, input: &str) -> (yes: bool)
    ensures
        yes == (bytes_read != 0 && trimmed(input@).len() > 0 && (trimmed(input@)[0] == 'y'
            || trimmed(input@)[0] == 'Y')),
{
    if bytes_read == 0 {
        return false;
    }
    let answer = trim(input);
    if answer.unicode_len() == 0 {
        return false;
    }
    let c = answer.get_char(0);
    c == 'y' || c == 'Y'
}

} // verus!
