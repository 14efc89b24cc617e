//! The fixed byte strings of the protocol and of the sample handlers, each
//! as a specification and as a function that builds it.

use vstd::prelude::*;

verus! {

/// The protocol version that every response of this library carries: `HTTP/1.1`.
pub open spec fn http_version() -> Seq<u8> {
    seq![72u8, 84u8, 84u8, 80u8, 47u8, 49u8, 46u8, 49u8]
}

/// Builds [`http_version`].
pub fn http_version_bytes() -> (r: Vec<u8>)
    ensures
        r@ == http_version(),
{
    let r: Vec<u8> = vec![72u8, 84u8, 84u8, 80u8, 47u8, 49u8, 46u8, 49u8];
    assert(r@ =~= http_version());
    r
}

/// Reason phrase of status 200: `OK`.
pub open spec fn reason_ok() -> Seq<u8> {
    seq![79u8, 75u8]
}

/// Builds [`reason_ok`].
pub fn reason_ok_bytes() -> (r: Vec<u8>)
    ensures
        r@ == reason_ok(),
{
    let r: Vec<u8> = vec![79u8, 75u8];
    assert(r@ =~= reason_ok());
    r
}

/// Reason phrase of status 404: `Not Found`.
pub open spec fn reason_not_found() -> Seq<u8> {
    seq![78u8, 111u8, 116u8, 32u8, 70u8, 111u8, 117u8, 110u8, 100u8]
}

/// Builds [`reason_not_found`].
pub fn reason_not_found_bytes() -> (r: Vec<u8>)
    ensures
        r@ == reason_not_found(),
{
    let r: Vec<u8> = vec![78u8, 111u8, 116u8, 32u8, 70u8, 111u8, 117u8, 110u8, 100u8];
    assert(r@ =~= reason_not_found());
    r
}

/// Reason phrase of status 400: `Bad Request`.
pub open spec fn reason_bad_request() -> Seq<u8> {
    seq![66u8, 97u8, 100u8, 32u8, 82u8, 101u8, 113u8, 117u8, 101u8, 115u8, 116u8]
}

/// Builds [`reason_bad_request`].
pub fn reason_bad_request_bytes() -> (r: Vec<u8>)
    ensures
        r@ == reason_bad_request(),
{
    let r: Vec<u8> = vec![66u8, 97u8, 100u8, 32u8, 82u8, 101u8, 113u8, 117u8, 101u8, 115u8, 116u8];
    assert(r@ =~= reason_bad_request());
    r
}

/// Body of the response for a request that no route matches: `404 Not Found`.
pub open spec fn body_not_found() -> Seq<u8> {
    seq![52u8, 48u8, 52u8, 32u8, 78u8, 111u8, 116u8, 32u8, 70u8, 111u8, 117u8, 110u8, 100u8]
}

/// Builds [`body_not_found`].
pub fn body_not_found_bytes() -> (r: Vec<u8>)
    ensures
        r@ == body_not_found(),
{
    let r: Vec<u8> = vec![52u8, 48u8, 52u8, 32u8, 78u8, 111u8, 116u8, 32u8, 70u8, 111u8, 117u8, 110u8, 100u8];
    assert(r@ =~= body_not_found());
    r
}

/// Body of the structured response for a malformed request: `400 Bad Request`.
pub open spec fn body_bad_request() -> Seq<u8> {
    seq![52u8, 48u8, 48u8, 32u8, 66u8, 97u8, 100u8, 32u8, 82u8, 101u8, 113u8, 117u8, 101u8, 115u8, 116u8]
}

/// Builds [`body_bad_request`].
pub fn body_bad_request_bytes() -> (r: Vec<u8>)
    ensures
        r@ == body_bad_request(),
{
    let r: Vec<u8> = vec![52u8, 48u8, 48u8, 32u8, 66u8, 97u8, 100u8, 32u8, 82u8, 101u8, 113u8, 117u8, 101u8, 115u8, 116u8];
    assert(r@ =~= body_bad_request());
    r
}

/// The complete response sent for a request that cannot be read: `HTTP/1.1 400 Bad Request\r\n\r\n`.
pub open spec fn bad_request_wire() -> Seq<u8> {
    seq![72u8, 84u8, 84u8, 80u8, 47u8, 49u8, 46u8, 49u8, 32u8, 52u8, 48u8, 48u8, 32u8, 66u8, 97u8, 100u8, 32u8, 82u8, 101u8, 113u8, 117u8, 101u8, 115u8, 116u8, 13u8, 10u8, 13u8, 10u8]
}

/// Builds [`bad_request_wire`].
pub fn bad_request_wire_bytes() -> (r: Vec<u8>)
    ensures
        r@ == bad_request_wire(),
{
    let r: Vec<u8> = vec![72u8, 84u8, 84u8, 80u8, 47u8, 49u8, 46u8, 49u8, 32u8, 52u8, 48u8, 48u8, 32u8, 66u8, 97u8, 100u8, 32u8, 82u8, 101u8, 113u8, 117u8, 101u8, 115u8, 116u8, 13u8, 10u8, 13u8, 10u8];
    assert(r@ =~= bad_request_wire());
    r
}

/// The complete response sent when a handler fails: `HTTP/1.1 500 Internal Server Error\r\n\r\n`.
pub open spec fn server_error_wire() -> Seq<u8> {
    seq![72u8, 84u8, 84u8, 80u8, 47u8, 49u8, 46u8, 49u8, 32u8, 53u8, 48u8, 48u8, 32u8, 73u8, 110u8, 116u8, 101u8, 114u8, 110u8, 97u8, 108u8, 32u8, 83u8, 101u8, 114u8, 118u8, 101u8, 114u8, 32u8, 69u8, 114u8, 114u8, 111u8, 114u8, 13u8, 10u8, 13u8, 10u8]
}

/// Builds [`server_error_wire`].
pub fn server_error_wire_bytes() -> (r: Vec<u8>)
    ensures
        r@ == server_error_wire(),
{
    let r: Vec<u8> = vec![72u8, 84u8, 84u8, 80u8, 47u8, 49u8, 46u8, 49u8, 32u8, 53u8, 48u8, 48u8, 32u8, 73u8, 110u8, 116u8, 101u8, 114u8, 110u8, 97u8, 108u8, 32u8, 83u8, 101u8, 114u8, 118u8, 101u8, 114u8, 32u8, 69u8, 114u8, 114u8, 111u8, 114u8, 13u8, 10u8, 13u8, 10u8];
    assert(r@ =~= server_error_wire());
    r
}

/// Name of the header that carries the host: `Host`.
pub open spec fn host_name() -> Seq<u8> {
    seq![72u8, 111u8, 115u8, 116u8]
}

/// Builds [`host_name`].
pub fn host_name_bytes() -> (r: Vec<u8>)
    ensures
        r@ == host_name(),
{
    let r: Vec<u8> = vec![72u8, 111u8, 115u8, 116u8];
    assert(r@ =~= host_name());
    r
}

/// Name of the header that declares the length of the body: `Content-Length`.
pub open spec fn content_length_name() -> Seq<u8> {
    seq![67u8, 111u8, 110u8, 116u8, 101u8, 110u8, 116u8, 45u8, 76u8, 101u8, 110u8, 103u8, 116u8, 104u8]
}

/// Builds [`content_length_name`].
pub fn content_length_name_bytes() -> (r: Vec<u8>)
    ensures
        r@ == content_length_name(),
{
    let r: Vec<u8> = vec![67u8, 111u8, 110u8, 116u8, 101u8, 110u8, 116u8, 45u8, 76u8, 101u8, 110u8, 103u8, 116u8, 104u8];
    assert(r@ =~= content_length_name());
    r
}

/// Name of the header that carries the media type: `Content-Type`.
pub open spec fn content_type_name() -> Seq<u8> {
    seq![67u8, 111u8, 110u8, 116u8, 101u8, 110u8, 116u8, 45u8, 84u8, 121u8, 112u8, 101u8]
}

/// Builds [`content_type_name`].
pub fn content_type_name_bytes() -> (r: Vec<u8>)
    ensures
        r@ == content_type_name(),
{
    let r: Vec<u8> = vec![67u8, 111u8, 110u8, 116u8, 101u8, 110u8, 116u8, 45u8, 84u8, 121u8, 112u8, 101u8];
    assert(r@ =~= content_type_name());
    r
}

/// Name of the header on connection handling: `Connection`.
pub open spec fn connection_name() -> Seq<u8> {
    seq![67u8, 111u8, 110u8, 110u8, 101u8, 99u8, 116u8, 105u8, 111u8, 110u8]
}

/// Builds [`connection_name`].
pub fn connection_name_bytes() -> (r: Vec<u8>)
    ensures
        r@ == connection_name(),
{
    let r: Vec<u8> = vec![67u8, 111u8, 110u8, 110u8, 101u8, 99u8, 116u8, 105u8, 111u8, 110u8];
    assert(r@ =~= connection_name());
    r
}

/// Name of the header that names the server: `Server`.
pub open spec fn server_name() -> Seq<u8> {
    seq![83u8, 101u8, 114u8, 118u8, 101u8, 114u8]
}

/// Builds [`server_name`].
pub fn server_name_bytes() -> (r: Vec<u8>)
    ensures
        r@ == server_name(),
{
    let r: Vec<u8> = vec![83u8, 101u8, 114u8, 118u8, 101u8, 114u8];
    assert(r@ =~= server_name());
    r
}

/// Name of the header that carries the date: `Date`.
pub open spec fn date_name() -> Seq<u8> {
    seq![68u8, 97u8, 116u8, 101u8]
}

/// Builds [`date_name`].
pub fn date_name_bytes() -> (r: Vec<u8>)
    ensures
        r@ == date_name(),
{
    let r: Vec<u8> = vec![68u8, 97u8, 116u8, 101u8];
    assert(r@ =~= date_name());
    r
}

/// Name of the header on accepted media types: `Accept`.
pub open spec fn accept_name() -> Seq<u8> {
    seq![65u8, 99u8, 99u8, 101u8, 112u8, 116u8]
}

/// Builds [`accept_name`].
pub fn accept_name_bytes() -> (r: Vec<u8>)
    ensures
        r@ == accept_name(),
{
    let r: Vec<u8> = vec![65u8, 99u8, 99u8, 101u8, 112u8, 116u8];
    assert(r@ =~= accept_name());
    r
}

/// Name of the header on accepted encodings: `Accept-Encoding`.
pub open spec fn accept_encoding_name() -> Seq<u8> {
    seq![65u8, 99u8, 99u8, 101u8, 112u8, 116u8, 45u8, 69u8, 110u8, 99u8, 111u8, 100u8, 105u8, 110u8, 103u8]
}

/// Builds [`accept_encoding_name`].
pub fn accept_encoding_name_bytes() -> (r: Vec<u8>)
    ensures
        r@ == accept_encoding_name(),
{
    let r: Vec<u8> = vec![65u8, 99u8, 99u8, 101u8, 112u8, 116u8, 45u8, 69u8, 110u8, 99u8, 111u8, 100u8, 105u8, 110u8, 103u8];
    assert(r@ =~= accept_encoding_name());
    r
}

/// Name of the header on accepted languages: `Accept-Language`.
pub open spec fn accept_language_name() -> Seq<u8> {
    seq![65u8, 99u8, 99u8, 101u8, 112u8, 116u8, 45u8, 76u8, 97u8, 110u8, 103u8, 117u8, 97u8, 103u8, 101u8]
}

/// Builds [`accept_language_name`].
pub fn accept_language_name_bytes() -> (r: Vec<u8>)
    ensures
        r@ == accept_language_name(),
{
    let r: Vec<u8> = vec![65u8, 99u8, 99u8, 101u8, 112u8, 116u8, 45u8, 76u8, 97u8, 110u8, 103u8, 117u8, 97u8, 103u8, 101u8];
    assert(r@ =~= accept_language_name());
    r
}

/// Media type of plain text: `text/plain`.
pub open spec fn text_plain() -> Seq<u8> {
    seq![116u8, 101u8, 120u8, 116u8, 47u8, 112u8, 108u8, 97u8, 105u8, 110u8]
}

/// Builds [`text_plain`].
pub fn text_plain_bytes() -> (r: Vec<u8>)
    ensures
        r@ == text_plain(),
{
    let r: Vec<u8> = vec![116u8, 101u8, 120u8, 116u8, 47u8, 112u8, 108u8, 97u8, 105u8, 110u8];
    assert(r@ =~= text_plain());
    r
}

/// Media type of HTML: `text/html`.
pub open spec fn text_html() -> Seq<u8> {
    seq![116u8, 101u8, 120u8, 116u8, 47u8, 104u8, 116u8, 109u8, 108u8]
}

/// Builds [`text_html`].
pub fn text_html_bytes() -> (r: Vec<u8>)
    ensures
        r@ == text_html(),
{
    let r: Vec<u8> = vec![116u8, 101u8, 120u8, 116u8, 47u8, 104u8, 116u8, 109u8, 108u8];
    assert(r@ =~= text_html());
    r
}

/// Connection handling: close after the response: `close`.
pub open spec fn close_word() -> Seq<u8> {
    seq![99u8, 108u8, 111u8, 115u8, 101u8]
}

/// Builds [`close_word`].
pub fn close_word_bytes() -> (r: Vec<u8>)
    ensures
        r@ == close_word(),
{
    let r: Vec<u8> = vec![99u8, 108u8, 111u8, 115u8, 101u8];
    assert(r@ =~= close_word());
    r
}

/// How the server names itself: `Rust HTTP Server`.
pub open spec fn server_label() -> Seq<u8> {
    seq![82u8, 117u8, 115u8, 116u8, 32u8, 72u8, 84u8, 84u8, 80u8, 32u8, 83u8, 101u8, 114u8, 118u8, 101u8, 114u8]
}

/// Builds [`server_label`].
pub fn server_label_bytes() -> (r: Vec<u8>)
    ensures
        r@ == server_label(),
{
    let r: Vec<u8> = vec![82u8, 117u8, 115u8, 116u8, 32u8, 72u8, 84u8, 84u8, 80u8, 32u8, 83u8, 101u8, 114u8, 118u8, 101u8, 114u8];
    assert(r@ =~= server_label());
    r
}

/// The date that the sample handlers report: `Wed, 21 Oct 2015 07:28:00 GMT`.
pub open spec fn fixed_date() -> Seq<u8> {
    seq![87u8, 101u8, 100u8, 44u8, 32u8, 50u8, 49u8, 32u8, 79u8, 99u8, 116u8, 32u8, 50u8, 48u8, 49u8, 53u8, 32u8, 48u8, 55u8, 58u8, 50u8, 56u8, 58u8, 48u8, 48u8, 32u8, 71u8, 77u8, 84u8]
}

/// Builds [`fixed_date`].
pub fn fixed_date_bytes() -> (r: Vec<u8>)
    ensures
        r@ == fixed_date(),
{
    let r: Vec<u8> = vec![87u8, 101u8, 100u8, 44u8, 32u8, 50u8, 49u8, 32u8, 79u8, 99u8, 116u8, 32u8, 50u8, 48u8, 49u8, 53u8, 32u8, 48u8, 55u8, 58u8, 50u8, 56u8, 58u8, 48u8, 48u8, 32u8, 71u8, 77u8, 84u8];
    assert(r@ =~= fixed_date());
    r
}

/// Encodings that the sample handlers list: `gzip, deflate`.
pub open spec fn encodings() -> Seq<u8> {
    seq![103u8, 122u8, 105u8, 112u8, 44u8, 32u8, 100u8, 101u8, 102u8, 108u8, 97u8, 116u8, 101u8]
}

/// Builds [`encodings`].
pub fn encodings_bytes() -> (r: Vec<u8>)
    ensures
        r@ == encodings(),
{
    let r: Vec<u8> = vec![103u8, 122u8, 105u8, 112u8, 44u8, 32u8, 100u8, 101u8, 102u8, 108u8, 97u8, 116u8, 101u8];
    assert(r@ =~= encodings());
    r
}

/// Languages that the sample handlers list: `en-US,en;q=0.5`.
pub open spec fn languages() -> Seq<u8> {
    seq![101u8, 110u8, 45u8, 85u8, 83u8, 44u8, 101u8, 110u8, 59u8, 113u8, 61u8, 48u8, 46u8, 53u8]
}

/// Builds [`languages`].
pub fn languages_bytes() -> (r: Vec<u8>)
    ensures
        r@ == languages(),
{
    let r: Vec<u8> = vec![101u8, 110u8, 45u8, 85u8, 83u8, 44u8, 101u8, 110u8, 59u8, 113u8, 61u8, 48u8, 46u8, 53u8];
    assert(r@ =~= languages());
    r
}

/// Body of the greeting: `Hello, World!`.
pub open spec fn hello_body() -> Seq<u8> {
    seq![72u8, 101u8, 108u8, 108u8, 111u8, 44u8, 32u8, 87u8, 111u8, 114u8, 108u8, 100u8, 33u8]
}

/// Builds [`hello_body`].
pub fn hello_body_bytes() -> (r: Vec<u8>)
    ensures
        r@ == hello_body(),
{
    let r: Vec<u8> = vec![72u8, 101u8, 108u8, 108u8, 111u8, 44u8, 32u8, 87u8, 111u8, 114u8, 108u8, 100u8, 33u8];
    assert(r@ =~= hello_body());
    r
}

/// Body of the slow greeting: `Hello, World! After a long query.`.
pub open spec fn long_query_body() -> Seq<u8> {
    seq![72u8, 101u8, 108u8, 108u8, 111u8, 44u8, 32u8, 87u8, 111u8, 114u8, 108u8, 100u8, 33u8, 32u8, 65u8, 102u8, 116u8, 101u8, 114u8, 32u8, 97u8, 32u8, 108u8, 111u8, 110u8, 103u8, 32u8, 113u8, 117u8, 101u8, 114u8, 121u8, 46u8]
}

/// Builds [`long_query_body`].
pub fn long_query_body_bytes() -> (r: Vec<u8>)
    ensures
        r@ == long_query_body(),
{
    let r: Vec<u8> = vec![72u8, 101u8, 108u8, 108u8, 111u8, 44u8, 32u8, 87u8, 111u8, 114u8, 108u8, 100u8, 33u8, 32u8, 65u8, 102u8, 116u8, 101u8, 114u8, 32u8, 97u8, 32u8, 108u8, 111u8, 110u8, 103u8, 32u8, 113u8, 117u8, 101u8, 114u8, 121u8, 46u8];
    assert(r@ =~= long_query_body());
    r
}

/// Route key of the greeting: `GET /hello`.
pub open spec fn hello_key() -> Seq<u8> {
    seq![71u8, 69u8, 84u8, 32u8, 47u8, 104u8, 101u8, 108u8, 108u8, 111u8]
}

/// Builds [`hello_key`].
pub fn hello_key_bytes() -> (r: Vec<u8>)
    ensures
        r@ == hello_key(),
{
    let r: Vec<u8> = vec![71u8, 69u8, 84u8, 32u8, 47u8, 104u8, 101u8, 108u8, 108u8, 111u8];
    assert(r@ =~= hello_key());
    r
}

/// Route key of the slow greeting: `GET /long-query`.
pub open spec fn long_query_key() -> Seq<u8> {
    seq![71u8, 69u8, 84u8, 32u8, 47u8, 108u8, 111u8, 110u8, 103u8, 45u8, 113u8, 117u8, 101u8, 114u8, 121u8]
}

/// Builds [`long_query_key`].
pub fn long_query_key_bytes() -> (r: Vec<u8>)
    ensures
        r@ == long_query_key(),
{
    let r: Vec<u8> = vec![71u8, 69u8, 84u8, 32u8, 47u8, 108u8, 111u8, 110u8, 103u8, 45u8, 113u8, 117u8, 101u8, 114u8, 121u8];
    assert(r@ =~= long_query_key());
    r
}

} // verus!
