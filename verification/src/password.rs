//! The decision behind the password prompt.
//!
//! A run starts only from a password the user has entered twice, the same
//! way both times. Prompting and reading are the embedding application's
//! concern; this module holds the decision that the two entries match, and
//! the ways obtaining a password can fail.

use vstd::prelude::*;

verus! {

/// Why no confirmed password could be obtained. The run cannot start
/// without one, so either failure ends it.
#[derive(Debug)]
pub enum PasswordPromptError {
    /// Reading an entry from the terminal failed; the message says how.
    IoError(String),
    /// The two entries do not match.
    MatchError,
}

/// Accepts a password exactly when its confirmation repeats it, character
/// for character; otherwise the entries do not match and the password is
/// refused.
pub fn confirm_password(password: String, confirmation: &String) -> (result: Result<
    String,
    PasswordPromptError,
>)
    ensures
        password@ == confirmation@ ==> (result matches Ok(p) && p@ == password@),
        password@ != confirmation@ ==> (result matches Err(e) && e is MatchError),
{
    if password == *confirmation {
        Ok(password)
    } else {
        Err(PasswordPromptError::MatchError)
    }
}

} // verus!
