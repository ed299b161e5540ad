//! How the service is set up.

use vstd::prelude::*;

use crate::text::same;

verus! {

/// The largest request body, in bytes: documents can carry base64 images, and
/// uploads are whole files.
pub const MAX_BODY: usize = 67_108_864;

/// Hard cap on conversion time, in milliseconds: a hung LibreOffice must not pin
/// the server.
pub const CONVERSION_TIMEOUT: u64 = 60_000;

/// What is left of the conversion time once `elapsed` milliseconds are gone.
pub open spec fn left_of(elapsed: nat) -> nat {
    if elapsed < CONVERSION_TIMEOUT {
        (CONVERSION_TIMEOUT - elapsed) as nat
    } else {
        0
    }
}

/// How long the next tool of a conversion may run, in milliseconds, once the
/// conversion has taken `elapsed`: all tools together share the time.
pub fn time_left(elapsed: u128) -> (r: u64)
    ensures
        r == left_of(elapsed as nat),
{
    if elapsed < CONVERSION_TIMEOUT as u128 {
        CONVERSION_TIMEOUT - elapsed as u64
    } else {
        0
    }
}

/// No tool takes a conversion past the cap: what it may run for ends there, and
/// behind it no tool runs at all.
pub proof fn conversion_is_capped(elapsed: nat)
    ensures
        elapsed <= CONVERSION_TIMEOUT ==> elapsed + left_of(elapsed) == CONVERSION_TIMEOUT,
        elapsed >= CONVERSION_TIMEOUT ==> left_of(elapsed) == 0,
{
}

/// The service only converts, without a database.
pub open spec fn only_converts(setting: Option<&str>) -> bool {
    match setting {
        Some(s) => s@ == "1"@ || s@ == "true"@,
        None => false,
    }
}

/// Whether the service only converts, without a database: where the setting is
/// `1` or `true`.
pub fn convert_only(setting: Option<&str>) -> (r: bool)
    ensures
        r == only_converts(setting),
{
    match setting {
        Some(s) => same(s, "1") || same(s, "true"),
        None => false,
    }
}

/// The address that the service listens on.
pub open spec fn listens_on(configured: Option<&str>) -> Seq<char> {
    match configured {
        Some(a) => a@,
        None => "127.0.0.1:8787"@,
    }
}

/// The address that the service listens on: loopback only where none is
/// configured, as callers reach it through an authenticating proxy.
pub fn bind_address(configured: Option<&str>) -> (r: String)
    ensures
        r@ == listens_on(configured),
{
    match configured {
        Some(a) => a.to_string(),
        None => "127.0.0.1:8787".to_string(),
    }
}

// ---------------------------------------------------------------------------
// Laws
// ---------------------------------------------------------------------------

/// The service converts only where it is told so by one of two words, and it
/// listens where it is told to, else on loopback.
pub proof fn settings_are_taken_as_they_are(s: &str)
    ensures
        only_converts(Some(s)) <==> s@ == "1"@ || s@ == "true"@,
        !only_converts(None),
        listens_on(Some(s)) == s@,
        listens_on(None) == "127.0.0.1:8787"@,
{
}

/// All tools of a conversion together have one minute.
pub proof fn conversion_has_a_minute(elapsed: nat)
    ensures
        elapsed < 60_000 ==> elapsed + left_of(elapsed) == 60_000,
        elapsed >= 60_000 ==> left_of(elapsed) == 0,
{
}

} // verus!
