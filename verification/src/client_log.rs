//! The JSON that clients send: the line a client's log entry becomes in the
//! server's client log, and the metadata a request body carries.
use vstd::prelude::*;

use crate::clock::{rfc3339_text, Moment};
use crate::recordings::{client_log_fits, CLIENT_LOG_MAX_BYTES};

verus! {

/// What serde_json writes for the object that holds `server_time` under
/// `time_key` and, under `client_key`, the JSON value that `body` parses
/// to, or, when `body` is no JSON, the object that holds `body` (decoded as
/// UTF-8, invalid sequences replaced) under `raw_key`.
pub uninterp spec fn json_log_line(
    body: Seq<u8>,
    raw_key: Seq<char>,
    time_key: Seq<char>,
    server_time: Seq<char>,
    client_key: Seq<char>,
) -> Seq<char>;

/// The client-log line for an entry `body` received at `server_time`.
pub open spec fn client_log_text(body: Seq<u8>, server_time: Seq<char>) -> Seq<char> {
    json_log_line(body, "raw"@, "server_time"@, server_time, "client"@)
}

/// `serde_json::from_slice::<Value>(body)` (falling back, on its error, to
/// an object of the lossily decoded body under `raw_key`), placed with the
/// server time in an object that `Value::to_string` serializes. The text is
/// named: it depends on the arguments alone.
#[verifier::external_body]
fn serialize_log_line(
    body: &[u8],
    raw_key: &str,
    time_key: &str,
    server_time: &str,
    client_key: &str,
) -> (r: String)
    ensures
        r@ == json_log_line(body@, raw_key@, time_key@, server_time@, client_key@),
{
    let client = match serde_json::from_slice::<serde_json::Value>(body) {
        Ok(v) => v,
        Err(_) => serde_json::Value::Object(serde_json::Map::from_iter([(
            raw_key.to_owned(),
            serde_json::Value::String(String::from_utf8_lossy(body).into_owned()),
        )])),
    };
    let line = serde_json::Map::from_iter([
        (time_key.to_owned(), serde_json::Value::String(server_time.to_owned())),
        (client_key.to_owned(), client),
    ]);
    serde_json::Value::Object(line).to_string()
}

/// The line to append to the client log for the entry `body` received at
/// `at`: none when the entry is larger than 64 KiB.
pub fn client_log_line(body: &[u8], at: &Moment) -> (r: Option<String>)
    ensures
        body@.len() > CLIENT_LOG_MAX_BYTES ==> r is None,
        body@.len() <= CLIENT_LOG_MAX_BYTES ==> (r matches Some(line) && line@ == client_log_text(
            body@,
            rfc3339_text(at.unix_secs(), at.subsec_nanos()),
        )),
{
    if !client_log_fits(body.len()) {
        return None;
    }
    let server_time = at.rfc3339();
    Some(serialize_log_line(body, "raw", "server_time", server_time.as_str(), "client"))
}

#[verifier::external_type_specification]
#[verifier::external_body]
pub struct ExJsonValue(serde_json::Value);

/// Whether `serde_json::from_slice::<Value>` accepts the bytes.
pub uninterp spec fn is_json_document(body: Seq<u8>) -> bool;

/// The value `serde_json::from_slice::<Value>` parses the bytes to.
pub uninterp spec fn json_value(body: Seq<u8>) -> serde_json::Value;

/// `serde_json::from_slice::<Value>(body).ok()`: a value exactly when
/// serde_json accepts the bytes, and then the value the bytes parse to.
#[verifier::external_body]
fn json_value_of(body: &[u8]) -> (r: Option<serde_json::Value>)
    ensures
        r is Some <==> is_json_document(body@),
        r matches Some(v) ==> v == json_value(body@),
{
    serde_json::from_slice::<serde_json::Value>(body).ok()
}

/// The JSON value a request body carries as metadata: the value the body
/// parses to, or none when the body is empty or is no JSON, in which case
/// the metadata is an empty object.
pub fn request_json(body: &[u8]) -> (r: Option<serde_json::Value>)
    ensures
        r is Some <==> body@.len() > 0 && is_json_document(body@),
        r matches Some(v) ==> v == json_value(body@),
{
    if body.len() == 0 {
        return None;
    }
    json_value_of(body)
}

} // verus!
