//! The texts of responses: a status line, the content type, an empty line,
//! and the body.

use vstd::prelude::*;

verus! {

/// The head of a response with the status `status`.
pub open spec fn head(status: Seq<char>) -> Seq<char> {
    "HTTP/1.1"@ + status + "\r\nContent-Type: text/plain\r\n\r\n"@
}

/// The response that carries `body` with the status 200.
pub open spec fn ok_text(body: Seq<char>) -> Seq<char> {
    head(" 200 OK"@) + body
}

/// The response that carries `body` with the status 400.
pub open spec fn bad_request_text(body: Seq<char>) -> Seq<char> {
    head(" 400 Bad Request"@) + body
}

/// The response that carries `body` with the status 500.
pub open spec fn internal_server_error_text(body: Seq<char>) -> Seq<char> {
    head(" 500 Internal Server Error"@) + body
}

/// The response with the status `status` and the body `body`.
fn respond(status: &str, body: &str) -> (response: String)
    ensures
        response@ == head(status@) + body@,
{
    let mut response = "HTTP/1.1".to_owned();
    response.append(status);
    response.append("\r\nContent-Type: text/plain\r\n\r\n");
    response.append(body);
    response
}

/// The response that carries `body` with the status 200.
pub fn ok(body: &str) -> (response: String)
    ensures
        response@ == ok_text(body@),
{
    respond(" 200 OK", body)
}

/// The response that carries `body` with the status 400.
pub fn bad_request(body: &str) -> (response: String)
    ensures
        response@ == bad_request_text(body@),
{
    respond(" 400 Bad Request", body)
}

/// The response that carries `body` with the status 500.
pub fn internal_server_error(body: &str) -> (response: String)
    ensures
        response@ == internal_server_error_text(body@),
{
    respond(" 500 Internal Server Error", body)
}

} // verus!
