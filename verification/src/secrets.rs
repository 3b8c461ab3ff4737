//! Where the session's secrets live: the desktop keyring when there is one,
//! else the session file.
//!
//! The keyring item holds one JSON blob — the encrypted store's passphrase
//! and the Matrix tokens — under attributes that tie it to this daemon and
//! its data directory, so a daemon with another data directory gets its own
//! item. Everything else about the session is not secret and stays in
//! `session.json`.

use vstd::prelude::*;

use crate::text;

verus! {

/// Seconds given to the keyring before deciding that it will not answer.
pub const KEYRING_TIMEOUT_SECS: u64 = 20;

/// Which backend a session's secrets are in.
#[derive(Debug, Clone, Copy, PartialEq, Eq, Structural)]
pub enum Backend {
    /// The desktop keyring, unlocked with the login session.
    Keyring,
    /// `session.json` (mode 0600): no keyring was available.
    File,
}

/// The attributes that the keyring item of `data_dir` is found by.
pub fn attributes(data_dir: &str) -> (r: Vec<(&'static str, String)>)
    ensures
        r@.len() == 2,
        r@[0].0@ == "application"@,
        r@[0].1@ == "omarchy-yapperd"@,
        r@[1].0@ == "data_dir"@,
        r@[1].1@ == data_dir@,
{
    vec![("application", "omarchy-yapperd".to_owned()), ("data_dir", data_dir.to_owned())]
}

/// The label of the keyring item of `user`.
pub fn label(user: &str) -> (r: String)
    ensures
        r@ == "Yapper Matrix session ("@ + user@ + ")"@,
{
    text::plus3("Yapper Matrix session (", user, ")")
}

/// What to do about a lock on the keyring, or on our item in it.
#[derive(Debug, Clone, Copy, PartialEq, Eq, Structural)]
pub enum LockStep {
    /// It is open: go on.
    Proceed,
    /// Ask for it to be unlocked, which may show the desktop's dialog.
    Unlock,
    /// It is locked: give up.
    Refuse,
}

/// A locked keyring is unlocked only where the user may be asked, and only
/// once: `asked` says that the unlocking has been tried.
pub fn lock_step(locked: bool, prompt: bool, asked: bool) -> (r: LockStep)
    ensures
        r == LockStep::Proceed <==> !locked,
        r == LockStep::Unlock <==> locked && prompt && !asked,
        r == LockStep::Refuse <==> locked && (!prompt || asked),
{
    if !locked {
        LockStep::Proceed
    } else if prompt && !asked {
        LockStep::Unlock
    } else {
        LockStep::Refuse
    }
}

/// The error for a keyring that is locked and stays so.
pub fn locked_error() -> (r: String)
    ensures
        r@ == "the keyring is locked"@,
{
    "the keyring is locked".to_owned()
}

} // verus!
