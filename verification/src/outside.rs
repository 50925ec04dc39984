//! The engine's few ties to the world: random bytes, the clock, and fresh
//! identifiers. Nothing is promised of their values beyond shape — a random
//! nonce or the time now cannot be pinned down — and everything computed from
//! them is verified.

use vstd::prelude::*;

use crate::hexstr::{encode_hex_chars, hex_of_bytes};
use crate::digest::chars_to_string;

verus! {

/// Relies on `rand::rng().random::<[u8; 32]>()`: thirty-two bytes, nothing
/// promised of their values.
#[verifier::external_body]
fn random_bytes32() -> (r: Vec<u8>)
    ensures
        r@.len() == 32,
{
    let bytes: [u8; 32] = rand::Rng::random(&mut rand::rng());
    bytes.to_vec()
}

/// A fresh sign-in nonce: thirty-two random bytes as sixty-four lowercase hex
/// digits.
pub fn generate_nonce() -> (r: String)
    ensures
        r@.len() == 64,
        crate::hexstr::all_hex(r@),
{
    let bytes = random_bytes32();
    let chars = encode_hex_chars(&bytes);
    proof {
        assert(chars@.len() == 64);
        assert forall|j: int| 0 <= j < chars@.len() implies crate::hexstr::is_hex_digit(
            #[trigger] chars@[j],
        ) by {
            assert(chars@[j] == hex_of_bytes(bytes@)[j]);
        }
    }
    chars_to_string(&chars)
}

/// Relies on `chrono::Utc::now().to_rfc3339()` for the wall-clock timestamp
/// string. Nothing can be promised of the time.
#[verifier::external_body]
pub fn now_rfc3339() -> String {
    chrono::Utc::now().to_rfc3339()
}

/// Relies on `chrono::Utc::now().timestamp()` for seconds since epoch.
/// Nothing can be promised of the time.
#[verifier::external_body]
pub fn now_unix() -> i64 {
    chrono::Utc::now().timestamp()
}

/// What `chrono`'s RFC 3339 parser reads a timestamp string as: seconds since
/// epoch, a function of the text alone.
pub uninterp spec fn rfc3339_epoch_of(s: Seq<char>) -> Option<int>;

/// Relies on `chrono::DateTime::parse_from_rfc3339`: the parse depends on the
/// text alone.
#[verifier::external_body]
pub fn parse_rfc3339_seconds(s: &str) -> (r: Option<i64>)
    ensures
        match r {
            Some(t) => rfc3339_epoch_of(s@) == Some(t as int),
            None => rfc3339_epoch_of(s@) is None,
        },
{
    match chrono::DateTime::parse_from_rfc3339(s) {
        Ok(dt) => Some(dt.timestamp()),
        Err(_) => None,
    }
}

/// Relies on `uuid::Uuid::new_v4()` and its hyphenated `Display`: a fresh
/// identifier, thirty-six characters, nothing promised of its value.
#[verifier::external_body]
pub fn new_list_id() -> (r: String)
    ensures
        r@.len() == 36,
{
    uuid::Uuid::new_v4().to_string()
}

/// The sign-in challenge's freshness window: the issue stamp must lie at most
/// five minutes in the past and at most a minute in the future.
pub open spec fn issue_window_ok(now: int, issued: int) -> bool {
    -60 <= now - issued <= 300
}

pub fn check_issue_window(now: i64, issued: i64) -> (r: bool)
    ensures
        r == issue_window_ok(now as int, issued as int),
{
    let age = (now as i128) - (issued as i128);
    -60 <= age && age <= 300
}

} // verus!
