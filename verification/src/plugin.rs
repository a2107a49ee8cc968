//! Decisions of the plugin process: reading its integer options, keeping track of the last
//! request and shutting down when there has been none for too long, and checking credentials.
use vstd::prelude::*;
use crate::text::{parse_u64_or_error, spec_parse_u64, spec_u64_parse_error};

verus! {

/// Time to wait with no activity before the plugin shuts down (ten minutes), in seconds.
pub const MAX_TIME: u64 = 600;

/// The start of the message for a value that is not an integer: `'<value>' is not a valid
/// integer value: ` (the reason follows).
pub open spec fn not_an_integer_prefix(v: Seq<char>) -> Seq<char> {
    "'"@ + v + "' is not a valid integer value: "@
}

/// Reads an option value as an unsigned integer, or says why it is not one (the reason is the
/// text of the parse error).
pub fn integer_value(v: &str) -> (r: Result<u64, String>)
    ensures
        match spec_parse_u64(v@) {
            Some(n) => r == Ok::<u64, String>(n),
            None => (r matches Err(msg) && msg@ == not_an_integer_prefix(v@) + spec_u64_parse_error(v@)),
        },
{
    match parse_u64_or_error(v) {
        Ok(n) => Ok(n),
        Err(e) => {
            let msg = String::from_str("'").concat(v).concat("' is not a valid integer value: ").concat(e.as_str());
            assert(msg@ =~= not_an_integer_prefix(v@) + e@);
            Err(msg)
        },
    }
}

/// Records the time of the latest request (in milliseconds on a monotonic clock).
pub fn update_access_time(timer: &mut Option<u64>, now: u64)
    ensures
        *final(timer) == Some(now),
{
    *timer = Some(now);
}

/// Whole seconds from `then` to `now` (none where `now` is earlier).
pub open spec fn elapsed_secs(then: u64, now: u64) -> int {
    if now >= then {
        (now - then) / 1000
    } else {
        0
    }
}

/// If the plugin should shut down: there has been a request, and more than `timeout` whole
/// seconds have passed since the latest one (times in milliseconds on a monotonic clock).
pub fn should_shut_down(timer: Option<u64>, now: u64, timeout: u64) -> (r: bool)
    ensures
        r == (timer matches Some(then) && elapsed_secs(then, now) > timeout),
{
    match timer {
        Some(then) => {
            let elapsed = if now >= then {
                (now - then) / 1000
            } else {
                0
            };
            elapsed > timeout
        },
        None => false,
    }
}

/// Right after a request the plugin keeps running: it shuts down only once more than the
/// timeout's whole seconds have passed since the request, and then on every later check.
pub proof fn lemma_shutdown_after_timeout(then: u64, now: u64, later: u64, timeout: u64)
    requires
        then <= now <= later,
    ensures
        elapsed_secs(then, now) <= timeout <==> (now - then) < (timeout + 1) * 1000,
        elapsed_secs(then, now) > timeout ==> elapsed_secs(then, later) > timeout,
{
    assert(elapsed_secs(then, now) == (now - then) / 1000);
    assert(elapsed_secs(then, later) == (later - then) / 1000);
    assert((now - then) / 1000 <= timeout <==> (now - then) < (timeout + 1) * 1000) by (nonlinear_arith)
        requires now >= then;
    assert((now - then) / 1000 <= (later - then) / 1000) by (nonlinear_arith)
        requires now >= then, later >= now;
}

/// Why a request was refused.
#[derive(Clone, Copy, Debug, PartialEq, Eq, Structural)]
pub enum AuthError {
    /// The request has no credentials.
    NoCredentials,
    /// The credentials can not be read as text.
    UnreadableCredentials,
    /// The credentials are not the server key.
    InvalidCredentials,
}

impl AuthError {
    /// The message that the refusal is answered with.
    pub fn message(&self) -> (r: &'static str)
        ensures
            r@ == match self {
                AuthError::NoCredentials => "no credentials supplied"@,
                AuthError::UnreadableCredentials => "could not read credentials supplied"@,
                AuthError::InvalidCredentials => "invalid credentials supplied"@,
            },
    {
        match self {
            AuthError::NoCredentials => "no credentials supplied",
            AuthError::UnreadableCredentials => "could not read credentials supplied",
            AuthError::InvalidCredentials => "invalid credentials supplied",
        }
    }
}

/// Checks the credentials of a request against the server key: `authorization` is the request's
/// authorization value, if it has one, and its text, if it reads as text.
pub fn check_credentials(server_key: &str, authorization: Option<Option<&str>>) -> (r: Result<(), AuthError>)
    ensures
        match authorization {
            None => r == Err::<(), AuthError>(AuthError::NoCredentials),
            Some(None) => r == Err::<(), AuthError>(AuthError::UnreadableCredentials),
            Some(Some(auth)) => if auth@ == server_key@ {
                r is Ok
            } else {
                r == Err::<(), AuthError>(AuthError::InvalidCredentials)
            },
        },
{
    match authorization {
        None => Err(AuthError::NoCredentials),
        Some(None) => Err(AuthError::UnreadableCredentials),
        Some(Some(auth)) => if String::from_str(server_key) == String::from_str(auth) {
            Ok(())
        } else {
            Err(AuthError::InvalidCredentials)
        },
    }
}

} // verus!
