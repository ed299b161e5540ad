//! The resources, what is asked of the database for them, and how the
//! connection to it is made.

pub mod documents;
pub mod notifications;
pub mod query;
pub mod users;

use vstd::prelude::*;

verus! {

/// How often a failed connection is tried again, so that the service can start
/// in parallel with the database.
pub const MAX_RETRIES: u32 = 30;

/// The time between two tries, in milliseconds.
pub const RETRY_DELAY: u64 = 500;

/// Where the database is and who signs in there.
#[derive(Debug)]
pub struct Connection {
    pub endpoint: String,
    pub user: String,
    pub pass: String,
}

/// `configured`, or `default` where nothing is.
pub open spec fn setting_of(configured: Option<&str>, default: Seq<char>) -> Seq<char> {
    match configured {
        Some(s) => s@,
        None => default,
    }
}

/// `configured`, or `default` where nothing is.
fn setting(configured: Option<&str>, default: &str) -> (r: String)
    ensures
        r@ == setting_of(configured, default@),
{
    match configured {
        Some(s) => s.to_string(),
        None => default.to_string(),
    }
}

/// The connection that is made, each part of it as configured or the default.
pub fn connect(endpoint: Option<&str>, user: Option<&str>, pass: Option<&str>) -> (r: Connection)
    ensures
        r.endpoint@ == setting_of(endpoint, "127.0.0.1:8000"@),
        r.user@ == setting_of(user, "root"@),
        r.pass@ == setting_of(pass, "root"@),
{
    Connection {
        endpoint: setting(endpoint, "127.0.0.1:8000"),
        user: setting(user, "root"),
        pass: setting(pass, "root"),
    }
}

/// What is done when a try to connect has failed.
#[derive(Debug, Clone, Copy, PartialEq, Eq, Structural)]
pub enum ConnectStep {
    /// It is tried again; `attempt` counts the tries again, and the first of
    /// them is announced in the log.
    Retry { attempt: u32, announce: bool },
    /// The error is reported.
    GiveUp,
}

/// The number of the next try again behind `attempt` of them, where there is
/// one.
pub open spec fn next_attempt(attempt: u32) -> Option<u32> {
    if attempt < MAX_RETRIES {
        Some((attempt + 1) as u32)
    } else {
        None
    }
}

/// What is done when a try to connect has failed after `attempt` tries again.
pub open spec fn step_after(attempt: u32) -> ConnectStep {
    match next_attempt(attempt) {
        Some(n) => ConnectStep::Retry { attempt: n, announce: attempt == 0 },
        None => ConnectStep::GiveUp,
    }
}

/// What is done when a try to connect has failed after `attempt` tries again.
pub fn connect_failed(attempt: u32) -> (r: ConnectStep)
    ensures
        r == step_after(attempt),
{
    if attempt < MAX_RETRIES {
        ConnectStep::Retry { attempt: attempt + 1, announce: attempt == 0 }
    } else {
        ConnectStep::GiveUp
    }
}

/// Connecting comes to an end: each failure leaves fewer tries, and the last
/// one is reported.
pub proof fn connecting_ends(attempt: u32)
    requires
        attempt <= MAX_RETRIES,
    ensures
        next_attempt(attempt) matches Some(n) ==> MAX_RETRIES - n < MAX_RETRIES - attempt && n
            <= MAX_RETRIES,
        next_attempt(attempt) is None <==> attempt == MAX_RETRIES,
{
}

// ---------------------------------------------------------------------------
// Laws
// ---------------------------------------------------------------------------

/// What is configured is used as it is, and the default only where nothing is.
pub proof fn configured_wins(s: &str, default: Seq<char>)
    ensures
        setting_of(Some(s), default) == s@,
        setting_of(None, default) == default,
{
}

/// A failed connection is tried again thirty times, one after the other, and only
/// the first of them is announced.
pub proof fn thirty_tries(attempt: u32)
    ensures
        attempt < 30 ==> next_attempt(attempt) == Some((attempt + 1) as u32),
        attempt >= 30 ==> next_attempt(attempt) is None,
        attempt < 30 ==> step_after(attempt) == (ConnectStep::Retry {
            attempt: (attempt + 1) as u32,
            announce: attempt == 0,
        }),
        attempt >= 30 ==> step_after(attempt) == ConnectStep::GiveUp,
{
}

} // verus!
