//! The request handler and error mapper.
//!
//! `handle` turns a request body into a complete HTTP response: the
//! converted record set as JSON with status 200, or a JSON error
//! envelope `{"code":<status>,"message":<detail>}` with the failure's
//! status. Every conversion failure is the caller's fault and maps to
//! 400; an unanticipated failure at the service boundary maps to 500
//! with a fixed message that leaks no internal detail. `route` adds the
//! one routing decision: only `POST /csv_to_json` reaches the handler,
//! anything else is answered 404.

use vstd::prelude::*;
use crate::convert::{convert, spec_convert};
use crate::json::{json_recordset, json_string, push_json_string, to_json};
use crate::numfmt::{dec_rep, push_dec};
use crate::records::ConversionFailure;
use crate::seqs::{bytes_eq, bytes_of_str, push_text, str_bytes};

verus! {

/// A complete HTTP response: status code and body bytes.
pub struct HttpResponse {
    pub status: u16,
    pub body: Vec<u8>,
}

/// The status code a failure maps to: every parse or schema failure is
/// a client error, an internal failure is a server error.
pub open spec fn spec_status_of(f: ConversionFailure) -> u16 {
    match f {
        ConversionFailure::MalformedInput { .. } => 400,
        ConversionFailure::SchemaMismatch { .. } => 400,
        ConversionFailure::InternalFailure => 500,
    }
}

/// The status code for a failure.
pub fn status_of(f: &ConversionFailure) -> (r: u16)
    ensures
        r == spec_status_of(*f),
{
    match f {
        ConversionFailure::MalformedInput { .. } => 400,
        ConversionFailure::SchemaMismatch { .. } => 400,
        ConversionFailure::InternalFailure => 500,
    }
}

/// The JSON error envelope: `{"code":<code>,"message":<msg>}`.
pub open spec fn envelope_json(code: u16, msg: Seq<u8>) -> Seq<u8> {
    bytes_of_str("{\"code\":") + dec_rep(code as nat) + bytes_of_str(",\"message\":")
        + json_string(msg) + seq![0x7Du8]
}

/// Builds the JSON error envelope for `code` and `msg`.
pub fn envelope(code: u16, msg: &Vec<u8>) -> (r: Vec<u8>)
    ensures
        r@ == envelope_json(code, msg@),
{
    proof {
        reveal_strlit("{\"code\":");
        reveal_strlit(",\"message\":");
    }
    let mut out = str_bytes("{\"code\":");
    push_dec(&mut out, code as u64);
    push_text(&mut out, ",\"message\":");
    push_json_string(&mut out, msg);
    out.push(0x7D);
    proof {
        assert(out@ =~= envelope_json(code, msg@));
    }
    out
}

/// What handling a request body yields: status and body bytes, as a
/// pure function of the input.
pub open spec fn spec_handle(body: Seq<u8>) -> (u16, Seq<u8>) {
    match spec_convert(body) {
        Ok(rs) => (200u16, json_recordset(rs)),
        Err(f) => (spec_status_of(f), envelope_json(spec_status_of(f), f.message_view())),
    }
}

/// Handles one request body: converts it exactly once and answers 200
/// with the JSON array on success, or the failure's status with its
/// error envelope. Every input gets a well-formed response; nothing
/// panics and nothing is retried.
pub fn handle(body: &Vec<u8>) -> (r: HttpResponse)
    ensures
        (r.status, r.body@) == spec_handle(body@),
{
    match convert(body) {
        Ok(rs) => HttpResponse { status: 200, body: to_json(&rs) },
        Err(f) => {
            let code = status_of(&f);
            let msg = f.message();
            HttpResponse { status: code, body: envelope(code, &msg) }
        },
    }
}

/// The response for a request that no route matches.
pub fn not_found() -> (r: HttpResponse)
    ensures
        r.status == 404,
        r.body@ == envelope_json(404, bytes_of_str("NOT_FOUND")),
{
    proof {
        reveal_strlit("NOT_FOUND");
    }
    let msg = str_bytes("NOT_FOUND");
    HttpResponse { status: 404, body: envelope(404, &msg) }
}

/// The response for an unanticipated failure at the service boundary:
/// a fixed 500 envelope that echoes no internal detail.
pub fn internal_error() -> (r: HttpResponse)
    ensures
        r.status == 500,
        r.body@ == envelope_json(500, ConversionFailure::InternalFailure.message_view()),
{
    let f = ConversionFailure::InternalFailure;
    let msg = f.message();
    HttpResponse { status: 500, body: envelope(500, &msg) }
}

/// What routing a request yields: only `POST /csv_to_json` is handled,
/// anything else is answered 404 with the `NOT_FOUND` envelope.
pub open spec fn spec_route(method: Seq<u8>, path: Seq<u8>, body: Seq<u8>) -> (u16, Seq<u8>) {
    if method == bytes_of_str("POST") && path == bytes_of_str("/csv_to_json") {
        spec_handle(body)
    } else {
        (404u16, envelope_json(404, bytes_of_str("NOT_FOUND")))
    }
}

/// Handling is total and never blames the server for its caller's
/// input: every body gets a response, and its status is 200 on success
/// or 400 on any conversion failure — never anything else, since
/// conversion itself never signals an internal failure.
pub proof fn lemma_handle_status(body: Seq<u8>)
    ensures
        spec_handle(body).0 == 200 || spec_handle(body).0 == 400,
        spec_convert(body) is Ok <==> spec_handle(body).0 == 200,
{
}

/// Routing answers every request: the handled route with its 200 or
/// 400, and any other method or path with 404.
pub proof fn lemma_route_status(method: Seq<u8>, path: Seq<u8>, body: Seq<u8>)
    ensures
        spec_route(method, path, body).0 == 200 || spec_route(method, path, body).0 == 400
            || spec_route(method, path, body).0 == 404,
{
    lemma_handle_status(body);
}

/// Routes one request, given its method, path and body.
pub fn route(method: &Vec<u8>, path: &Vec<u8>, body: &Vec<u8>) -> (r: HttpResponse)
    ensures
        (r.status, r.body@) == spec_route(method@, path@, body@),
{
    proof {
        reveal_strlit("POST");
        reveal_strlit("/csv_to_json");
    }
    let m = str_bytes("POST");
    let p = str_bytes("/csv_to_json");
    if bytes_eq(method, &m) && bytes_eq(path, &p) {
        handle(body)
    } else {
        not_found()
    }
}

} // verus!
