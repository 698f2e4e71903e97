//! Identifiers that tie together the telemetry of one request.
use rand::distr::{Alphanumeric, SampleString};
use vstd::prelude::*;

verus! {

/// Number of characters in a request id.
pub const REQUEST_ID_LEN: usize = 10;

/// One of a-z, A-Z, 0-9.
pub open spec fn is_ascii_alphanumeric(c: char) -> bool {
    ('a' <= c && c <= 'z') || ('A' <= c && c <= 'Z') || ('0' <= c && c <= '9')
}

/// Relies on rand's `Alphanumeric` through `SampleString::sample_string` with
/// the thread-local generator: `len` characters, each one of a-z, A-Z, 0-9.
#[verifier::external_body]
fn random_alphanumeric(len: usize) -> (r: String)
    ensures
        r@.len() == len,
        forall|i: int| 0 <= i < r@.len() ==> is_ascii_alphanumeric(#[trigger] r@[i]),
{
    Alphanumeric.sample_string(&mut rand::rng(), len)
}

/// A fresh random request id: ten ASCII letters and digits.
pub fn request_id() -> (r: String)
    ensures
        r@.len() == REQUEST_ID_LEN,
        forall|i: int| 0 <= i < r@.len() ==> is_ascii_alphanumeric(#[trigger] r@[i]),
{
    random_alphanumeric(REQUEST_ID_LEN)
}

} // verus!
