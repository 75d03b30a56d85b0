//! Request-level decisions: what each endpoint answers, for every input.
//!
//! The functions here take plain values — the identity read from the signed
//! cookie, or the outcome of the pooled query — and produce the full
//! response. The process around the library only moves bytes.

use vstd::prelude::*;
use vstd::string::StringExecFns;
use crate::event::ColumnValue;
use crate::event::DbError;
use crate::event::decoded_rows;
use crate::event::event_views;
use crate::event::events_from_rows;
use crate::event::rows_well_formed;
use crate::json::event_list_json;
use crate::json::event_list_to_json;

verus! {

/// The media type of a response body.
#[derive(Clone, Copy, Debug, PartialEq, Eq, Structural)]
pub enum MediaType {
    PlainText,
    Json,
}

impl MediaType {
    /// The value of the `Content-Type` header for this media type.
    pub fn header_value(&self) -> (r: &'static str)
        ensures
            *self is PlainText ==> r@ == "text/plain; charset=utf-8"@,
            *self is Json ==> r@ == "application/json"@,
    {
        match self {
            MediaType::PlainText => "text/plain; charset=utf-8",
            MediaType::Json => "application/json",
        }
    }
}

/// A fully decided HTTP response: status code, media type and body.
#[derive(Debug)]
pub struct Response {
    pub status: u16,
    pub media_type: MediaType,
    pub body: String,
}

/// The one message a client sees when the event list cannot be produced.
/// No internal detail — pool, query or decode — leaves the process.
pub open spec fn internal_error_message() -> Seq<char> {
    "An internal error occurred. Please try again later."@
}

/// The fixed client-facing text for any data-layer failure.
pub fn internal_error_text() -> (r: &'static str)
    ensures
        r@ == internal_error_message(),
{
    "An internal error occurred. Please try again later."
}

/// The uniform failure response: a generic internal error, with the same
/// body whatever the cause was.
pub fn internal_error_response() -> (r: Response)
    ensures
        r.status == 500,
        r.media_type is PlainText,
        r.body@ == internal_error_message(),
{
    Response { status: 500, media_type: MediaType::PlainText, body: internal_error_text().to_owned() }
}

/// What the identity endpoint answers: `"Hello "` followed by the identity
/// from the request's cookie, or `"Hello Anonymous"` when the request
/// carries none.
pub open spec fn greeting_of(identity: Option<Seq<char>>) -> Seq<char> {
    match identity {
        Option::Some(v) => "Hello "@ + v,
        Option::None => "Hello Anonymous"@,
    }
}

/// Builds the greeting body for the identity endpoint. A missing identity is
/// a valid state, not an error.
pub fn greeting(identity: &Option<String>) -> (r: String)
    ensures
        match identity {
            Option::Some(v) => r@ == greeting_of(Some(v@)),
            Option::None => r@ == greeting_of(None),
        },
{
    let mut body = String::from_str("Hello ");
    match identity {
        Option::Some(v) => {
            body.append(v.as_str());
        },
        Option::None => {
            body.append("Anonymous");
            proof {
                reveal_strlit("Hello ");
                reveal_strlit("Anonymous");
                reveal_strlit("Hello Anonymous");
                assert(body@ =~= "Hello Anonymous"@);
            }
        },
    }
    body
}

/// Decides the identity endpoint: always `200 text/plain`, greeting the
/// identity when one is present and `Anonymous` otherwise.
pub fn me_response(identity: &Option<String>) -> (r: Response)
    ensures
        r.status == 200,
        r.media_type is PlainText,
        match identity {
            Option::Some(v) => r.body@ == greeting_of(Some(v@)),
            Option::None => r.body@ == greeting_of(None),
        },
{
    Response { status: 200, media_type: MediaType::PlainText, body: greeting(identity) }
}

/// Decides the event-list endpoint from the outcome of the pooled query.
///
/// A successful query whose rows all have the `(uuid, text)` shape yields
/// `200 application/json` with the array of exactly those events, in row
/// order. Any failure — no connection, a failed query, or an ill-shaped
/// row — yields `500` with the one fixed message.
pub fn event_list_response(outcome: Result<Vec<Vec<ColumnValue>>, DbError>) -> (r: Response)
    ensures
        match outcome {
            Result::Ok(rows) => if rows_well_formed(rows@) {
                r.status == 200 && r.media_type is Json && r.body@ == event_list_json(
                    decoded_rows(rows@),
                )
            } else {
                r.status == 500 && r.media_type is PlainText && r.body@
                    == internal_error_message()
            },
            Result::Err(_) => r.status == 500 && r.media_type is PlainText && r.body@
                == internal_error_message(),
        },
{
    match outcome {
        Result::Ok(rows) => match events_from_rows(&rows) {
            Result::Ok(events) => {
                proof {
                    assert(event_views(events@) == decoded_rows(rows@));
                }
                Response {
                    status: 200,
                    media_type: MediaType::Json,
                    body: event_list_to_json(&events),
                }
            },
            Result::Err(_) => internal_error_response(),
        },
        Result::Err(_) => internal_error_response(),
    }
}

} // verus!
