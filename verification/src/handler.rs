//! Handlers: what answers a request once a route matched, and the two
//! sample handlers.

use vstd::prelude::*;
use crate::common::{Field, Headers, HttpRequest, HttpResponse, ResponseModel};
use crate::literals::{
    accept_encoding_name, accept_encoding_name_bytes, accept_language_name,
    accept_language_name_bytes, accept_name, accept_name_bytes, close_word, close_word_bytes,
    connection_name, connection_name_bytes, content_length_name, content_length_name_bytes,
    content_type_name, content_type_name_bytes, date_name, date_name_bytes, encodings,
    encodings_bytes, fixed_date, fixed_date_bytes, hello_body, hello_body_bytes, http_version,
    languages, languages_bytes, long_query_body, long_query_body_bytes, reason_ok, server_label,
    server_label_bytes, server_name, server_name_bytes, text_html, text_html_bytes, text_plain,
    text_plain_bytes,
};
use crate::text::{decimal, decimal_bytes};

verus! {

/// A failure that a handler reports. The detail is for the server's own
/// records: it is never sent to the client.
#[derive(Debug)]
pub struct HandlerError {
    pub detail: Vec<u8>,
}

/// What answers a request: given the request, a response or a failure.
pub trait Handler {
    /// Whether the handler may return `outcome` for `request`. A handler
    /// that says nothing of it promises nothing.
    open spec fn answers(
        &self,
        request: HttpRequest,
        outcome: Result<HttpResponse, HandlerError>,
    ) -> bool {
        true
    }

    /// Answers `request`.
    fn handle(&self, request: HttpRequest) -> (outcome: Result<HttpResponse, HandlerError>)
        ensures
            self.answers(request, outcome),
    ;
}

/// The header fields of a sample response with the given body, in the order
/// in which they are written.
pub open spec fn sample_fields(body: Seq<u8>) -> Seq<Field> {
    seq![
        (content_type_name(), text_plain()),
        (content_length_name(), decimal(body.len())),
        (connection_name(), close_word()),
        (server_name(), server_label()),
        (date_name(), fixed_date()),
        (accept_name(), text_html()),
        (accept_encoding_name(), encodings()),
        (accept_language_name(), languages()),
    ]
}

/// Whether `r` is the sample response with the given body: status 200, the
/// sample header fields, among them the length of the body, and the body.
pub open spec fn is_sample_response(r: HttpResponse, body: Seq<u8>) -> bool {
    &&& r.headers.wf()
    &&& r@ == (ResponseModel {
        version: http_version(),
        status_code: 200,
        status_message: reason_ok(),
        fields: sample_fields(body),
        body,
    })
}

/// No two header fields of a sample response have the same name.
proof fn lemma_sample_names_differ()
    ensures
        content_type_name().len() == 12,
        content_length_name().len() == 14,
        connection_name().len() == 10,
        server_name().len() == 6,
        date_name().len() == 4,
        accept_name().len() == 6,
        accept_encoding_name().len() == 15,
        accept_language_name().len() == 15,
        server_name() != accept_name(),
        accept_encoding_name() != accept_language_name(),
{
    assert(server_name()[0] != accept_name()[0]);
    assert(accept_encoding_name()[7] != accept_language_name()[7]);
}

/// Adds a field whose name differs from every name held.
fn add_new_field(headers: &mut Headers, name: Vec<u8>, value: Vec<u8>)
    requires
        old(headers).wf(),
        forall|i: int|
            0 <= i < old(headers).fields().len() ==> (#[trigger] old(headers).fields()[i]).0
                != name@,
    ensures
        final(headers).wf(),
        final(headers).fields() == old(headers).fields().push((name@, value@)),
{
    headers.insert(name, value);
}

/// The sample response with the given body.
pub fn sample_response(body: Vec<u8>) -> (r: HttpResponse)
    ensures
        is_sample_response(r, body@),
{
    proof {
        lemma_sample_names_differ();
    }
    let length = decimal_bytes(body.len());
    let mut response = HttpResponse::ok(body);
    let mut headers = Headers::new();
    add_new_field(&mut headers, content_type_name_bytes(), text_plain_bytes());
    add_new_field(&mut headers, content_length_name_bytes(), length);
    add_new_field(&mut headers, connection_name_bytes(), close_word_bytes());
    add_new_field(&mut headers, server_name_bytes(), server_label_bytes());
    add_new_field(&mut headers, date_name_bytes(), fixed_date_bytes());
    add_new_field(&mut headers, accept_name_bytes(), text_html_bytes());
    add_new_field(&mut headers, accept_encoding_name_bytes(), encodings_bytes());
    add_new_field(&mut headers, accept_language_name_bytes(), languages_bytes());
    assert(headers.fields() =~= sample_fields(response.body@));
    response.headers = headers;
    response
}

/// Greets, whatever the request holds.
pub fn greeting(http_req: HttpRequest) -> (r: Result<HttpResponse, HandlerError>)
    ensures
        r.is_ok(),
        is_sample_response(r.unwrap(), hello_body()),
{
    Ok(sample_response(hello_body_bytes()))
}

/// The answer of the slow sample query, whatever the request holds. The
/// caller does the waiting.
pub fn mock_a_long_query(http_req: HttpRequest) -> (r: Result<HttpResponse, HandlerError>)
    ensures
        r.is_ok(),
        is_sample_response(r.unwrap(), long_query_body()),
{
    Ok(sample_response(long_query_body_bytes()))
}

/// The sample handlers.
#[derive(Clone, Copy, Debug)]
pub enum Endpoint {
    Greeting,
    LongQuery,
}

impl Endpoint {
    /// The body that the handler answers with.
    pub open spec fn body(self) -> Seq<u8> {
        match self {
            Endpoint::Greeting => hello_body(),
            Endpoint::LongQuery => long_query_body(),
        }
    }
}

impl Handler for Endpoint {
    open spec fn answers(
        &self,
        request: HttpRequest,
        outcome: Result<HttpResponse, HandlerError>,
    ) -> bool {
        outcome.is_ok() && is_sample_response(outcome.unwrap(), self.body())
    }

    fn handle(&self, request: HttpRequest) -> (outcome: Result<HttpResponse, HandlerError>) {
        match self {
            Endpoint::Greeting => greeting(request),
            Endpoint::LongQuery => mock_a_long_query(request),
        }
    }
}

} // verus!
