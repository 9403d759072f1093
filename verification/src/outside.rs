//! What the library has from other crates. Each item here states what is
//! taken for granted of the function that it calls.

use vstd::prelude::*;

verus! {

/// The access token, kept in a `zeroize::Zeroizing`, which overwrites it when
/// it is dropped.
#[verifier::external_body]
pub struct AccessToken {
    inner: zeroize::Zeroizing<String>,
}

/// The characters of the token.
pub uninterp spec fn token_text(token: AccessToken) -> Seq<char>;

/// Calls `zeroize::Zeroizing::new`, which moves the string into the wrapper
/// and leaves it as it is. That dropping the wrapper overwrites the string is
/// not stated.
#[verifier::external_body]
pub(crate) fn seal_token(token: String) -> (r: AccessToken)
    ensures
        token_text(r) == token@,
{
    AccessToken { inner: zeroize::Zeroizing::new(token) }
}

/// Reads the token through the `Deref` of `zeroize::Zeroizing`, which gives
/// the string that it was made with.
#[verifier::external_body]
pub(crate) fn token_str(token: &AccessToken) -> (r: &str)
    ensures
        r@ == token_text(*token),
{
    &token.inner
}

/// A hexadecimal digit in lower case.
pub open spec fn is_hex_digit(c: char) -> bool {
    '0' <= c <= '9' || 'a' <= c <= 'f'
}

/// The text of a random UUID: 32 hexadecimal digits in groups of 8, 4, 4, 4
/// and 12, of which the third group starts with the version 4 and the fourth
/// with the variant.
pub open spec fn is_random_uuid(s: Seq<char>) -> bool {
    &&& s.len() == 36
    &&& s[8] == '-' && s[13] == '-' && s[18] == '-' && s[23] == '-'
    &&& s[14] == '4'
    &&& s[19] == '8' || s[19] == '9' || s[19] == 'a' || s[19] == 'b'
    &&& forall|i: int|
        0 <= i < 36 && i != 8 && i != 13 && i != 18 && i != 23 ==> is_hex_digit(#[trigger] s[i])
}

/// Calls `uuid::Uuid::new_v4` and writes the result with its `Display`: the
/// hyphenated form, in lower case. Which UUID comes is left to chance.
#[verifier::external_body]
pub(crate) fn random_uuid() -> (r: String)
    ensures
        is_random_uuid(r@),
{
    uuid::Uuid::new_v4().to_string()
}

/// A moment: seconds since 1970-01-01 UTC without leap seconds, and
/// nanoseconds since the last full second.
#[derive(Debug, Clone, Copy, PartialEq, Eq, Structural)]
pub struct Timestamp {
    pub secs: i64,
    pub nanos: u32,
}

/// Calls `chrono::Utc::now`, and `timestamp` and `timestamp_subsec_nanos` on
/// the result. Which moment it is the clock says, so that it is the present one
/// is not stated. chrono takes no clock that stands before 1970, so the seconds
/// are not negative; the clock counts no leap seconds, so the nanoseconds stay
/// below a full second.
#[verifier::external_body]
pub(crate) fn current_time() -> (r: Timestamp)
    ensures
        r.secs >= 0,
        r.nanos < 1_000_000_000,
{
    let now = chrono::Utc::now();
    Timestamp { secs: now.timestamp(), nanos: now.timestamp_subsec_nanos() }
}

#[verifier::external_type_specification]
#[verifier::external_body]
pub struct ExJsonValue(serde_json::Value);

#[verifier::external_type_specification]
#[verifier::external_body]
pub struct ExJsonError(serde_json::Error);

/// The JSON text of a value, in the compact form of serde_json.
pub uninterp spec fn compact_json(value: serde_json::Value) -> Seq<char>;

/// Calls `serde_json::to_string` on a value. Where it succeeds, it gives the
/// compact JSON text.
#[verifier::external_body]
pub(crate) fn value_to_json(value: &serde_json::Value) -> (r: Result<String, serde_json::Error>)
    ensures
        r matches Ok(s) ==> s@ == compact_json(*value),
{
    serde_json::to_string(value)
}

/// Calls `to_string` on a value by its `Display`, which writes the compact
/// JSON text.
#[verifier::external_body]
pub(crate) fn value_display(value: &serde_json::Value) -> (r: String)
    ensures
        r@ == compact_json(*value),
{
    value.to_string()
}

} // verus!
