//! The bytes of an answer: a status line, two header lines, an empty line
//! and the body.

use crate::bytes::append;
use crate::decimal::{decimal, decimal_value, lemma_decimal_round_trip, push_decimal};
use vstd::prelude::*;
use vstd::string::StringSliceAdditionalSpecFns;

verus! {

/// Everything that goes before the body: the status line with `status`
/// (the code and the reason), the `Content-Type` line, then the
/// `Content-Length` line for a body of `length` bytes, and the empty line.
pub open spec fn head(status: Seq<u8>, content_type: Seq<u8>, length: nat) -> Seq<u8> {
    "HTTP/1.1 ".spec_bytes() + status + "\r\n".spec_bytes() + "Content-Type: ".spec_bytes()
        + content_type + "\r\n".spec_bytes() + "Content-Length: ".spec_bytes() + decimal(length)
        + "\r\n\r\n".spec_bytes()
}

/// A whole answer: the head for this body, then the body itself.
pub open spec fn framed(status: Seq<u8>, content_type: Seq<u8>, body: Seq<u8>) -> Seq<u8> {
    head(status, content_type, body.len()) + body
}

/// The answer that carries `body` as a found file of type `content_type`.
pub open spec fn success_bytes(body: Seq<u8>, content_type: Seq<u8>) -> Seq<u8> {
    framed("200 OK".spec_bytes(), content_type, body)
}

/// The answer for a failure: `message` is both the reason in the status
/// line and the body, which is plain text.
pub open spec fn error_bytes(code: u16, message: Seq<u8>) -> Seq<u8> {
    framed(decimal(code as nat) + " ".spec_bytes() + message, "text/plain".spec_bytes(), message)
}

/// The one failure answer that the server itself sends.
pub open spec fn not_found_bytes() -> Seq<u8> {
    error_bytes(404, "Not Found".spec_bytes())
}

/// Appends the head of an answer to `out`, which is empty.
fn push_head(out: &mut Vec<u8>, status: &[u8], content_type: &[u8], length: usize)
    requires
        old(out)@.len() == 0,
    ensures
        final(out)@ == head(status@, content_type@, length as nat),
{
    append(out, "HTTP/1.1 ".as_bytes());
    append(out, status);
    append(out, "\r\n".as_bytes());
    append(out, "Content-Type: ".as_bytes());
    append(out, content_type);
    append(out, "\r\n".as_bytes());
    append(out, "Content-Length: ".as_bytes());
    push_decimal(out, length as u64);
    append(out, "\r\n\r\n".as_bytes());
    assert(out@ =~= head(status@, content_type@, length as nat));
}

/// Frames `body` as a found file: status 200, the given content type, the
/// body's length, then the body, byte for byte.
pub fn success_response(body: &[u8], content_type: &str) -> (response: Vec<u8>)
    ensures
        response@ == success_bytes(body@, content_type.spec_bytes()),
        response@ == head("200 OK".spec_bytes(), content_type.spec_bytes(), body@.len()) + body@,
{
    let mut response: Vec<u8> = Vec::new();
    push_head(&mut response, "200 OK".as_bytes(), content_type.as_bytes(), body.len());
    append(&mut response, body);
    response
}

/// Frames a failure: status `code` with `message` as its reason, plain
/// text, and `message` again as the body. Neither is looked into.
pub fn error_response(code: u16, message: &str) -> (response: Vec<u8>)
    ensures
        response@ == error_bytes(code, message.spec_bytes()),
        response@ == head(
            decimal(code as nat) + " ".spec_bytes() + message.spec_bytes(),
            "text/plain".spec_bytes(),
            message.spec_bytes().len(),
        ) + message.spec_bytes(),
{
    let text = message.as_bytes();
    let mut status: Vec<u8> = Vec::new();
    push_decimal(&mut status, code as u64);
    append(&mut status, " ".as_bytes());
    append(&mut status, text);
    assert(status@ =~= decimal(code as nat) + " ".spec_bytes() + message.spec_bytes());
    let mut response: Vec<u8> = Vec::new();
    push_head(&mut response, status.as_slice(), "text/plain".as_bytes(), text.len());
    append(&mut response, text);
    response
}

/// The length that an answer announces is the length of its body: the
/// answer ends with the body, what stands before it is the head for that
/// many bytes, and the digits in the head read back as that number.
pub proof fn lemma_content_length_is_body_length(
    status: Seq<u8>,
    content_type: Seq<u8>,
    body: Seq<u8>,
)
    ensures
        ({
            let answer = framed(status, content_type, body);
            let split = answer.len() - body.len();
            &&& answer.skip(split) == body
            &&& answer.take(split) == head(status, content_type, body.len())
            &&& decimal_value(decimal(body.len())) == body.len()
        }),
{
    let h = head(status, content_type, body.len());
    let answer = framed(status, content_type, body);
    assert(answer.len() - body.len() == h.len());
    assert(answer.skip(h.len() as int) =~= body);
    assert(answer.take(h.len() as int) =~= h);
    lemma_decimal_round_trip(body.len());
}

} // verus!
