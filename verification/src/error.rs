//! Error type.

use vstd::prelude::*;
use crate::text::{push_str, string_of};

verus! {

/// What can go wrong while syncing. Each variant carries the text it is
/// reported with; an i/o error carries its own message.
#[derive(Debug)]
pub enum Error {
    OpMissing,
    Spawn(String),
    OpNotSignedIn,
    Op(String),
    Parse(String),
    Csv(String),
    Io(String),
    Update(String),
}

pub type Result<T> = core::result::Result<T, Error>;

/// The text an error is shown with.
pub open spec fn error_message(e: Error) -> Seq<char> {
    match e {
        Error::OpMissing => "the 1Password CLI (`op`) is not installed or not on PATH.\nInstall it: https://developer.1password.com/docs/cli/get-started/"@,
        Error::Spawn(m) => "could not run `op`: "@ + m@,
        Error::OpNotSignedIn => "1Password CLI isn't signed in for this shell.\nFix it, then re-run:\n  \u{2022} Easiest: open the 1Password app \u{2192} Settings \u{2192} Developer \u{2192} enable \"Integrate with 1Password CLI\" (unlocks via Touch ID), or\n  \u{2022} Run:  eval $(op signin)"@,
        Error::Op(m) => "`op` reported an error:\n"@ + m@,
        Error::Parse(m) => "could not parse `op` output: "@ + m@,
        Error::Csv(m) => "could not read the CSV export: "@ + m@,
        Error::Io(m) => "i/o error: "@ + m@,
        Error::Update(m) => "self-update failed: "@ + m@,
    }
}

impl Error {
    /// The text this error is shown with.
    pub fn message(&self) -> (r: String)
        ensures
            r@ == error_message(*self),
    {
        match self {
            Error::OpMissing => string_of(
                "the 1Password CLI (`op`) is not installed or not on PATH.\nInstall it: https://developer.1password.com/docs/cli/get-started/",
            ),
            Error::Spawn(m) => {
                let mut r = string_of("could not run `op`: ");
                push_str(&mut r, m.as_str());
                r
            },
            Error::OpNotSignedIn => string_of(
                "1Password CLI isn't signed in for this shell.\nFix it, then re-run:\n  \u{2022} Easiest: open the 1Password app \u{2192} Settings \u{2192} Developer \u{2192} enable \"Integrate with 1Password CLI\" (unlocks via Touch ID), or\n  \u{2022} Run:  eval $(op signin)",
            ),
            Error::Op(m) => {
                let mut r = string_of("`op` reported an error:\n");
                push_str(&mut r, m.as_str());
                r
            },
            Error::Parse(m) => {
                let mut r = string_of("could not parse `op` output: ");
                push_str(&mut r, m.as_str());
                r
            },
            Error::Csv(m) => {
                let mut r = string_of("could not read the CSV export: ");
                push_str(&mut r, m.as_str());
                r
            },
            Error::Io(m) => {
                let mut r = string_of("i/o error: ");
                push_str(&mut r, m.as_str());
                r
            },
            Error::Update(m) => {
                let mut r = string_of("self-update failed: ");
                push_str(&mut r, m.as_str());
                r
            },
        }
    }
}

} // verus!
