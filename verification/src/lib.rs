//! Catch a 1Password vault up to a Google/Chrome Password Manager export.
//!
//! A Chrome/Google passwords CSV export is read into credentials, which are
//! de-duplicated by (host, username) and matched against the logins already
//! in a 1Password vault; the missing ones are created through the `op` CLI
//! and, on request, changed passwords are updated.

pub mod chrome;
pub mod credential;
pub mod dedupe;
pub mod error;
pub mod index;
pub mod op;
pub mod report;
pub mod sync;
pub mod text;
