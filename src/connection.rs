//! When enough of a connection's text has been read to make one request.
use vstd::prelude::*;
use vstd::utf8::encode_utf8;
use crate::http::{
    blank_line, extract_body_from_request, extract_headers_from_request, request_body,
    request_headers,
};
use crate::strmap::lookup;
use crate::text::{chars_of, contains, contains_exec, parse_usize, parse_usize_exec, string_of};

verus! {

/// The name of the header that declares the body's length in bytes.
pub open spec fn content_length_name() -> Seq<char> {
    seq!['C', 'o', 'n', 't', 'e', 'n', 't', '-', 'L', 'e', 'n', 'g', 't', 'h']
}

/// The header name `Content-Length`.
pub fn content_length_key() -> (r: String)
    ensures
        r@ == content_length_name(),
{
    let v = vec!['C', 'o', 'n', 't', 'e', 'n', 't', '-', 'L', 'e', 'n', 'g', 't', 'h'];
    assert(v@ =~= content_length_name());
    string_of(&v)
}

/// The length in bytes of the body of the request text `s` (0 without one).
pub open spec fn body_byte_len(s: Seq<char>) -> nat {
    match request_body(s) {
        Some(b) => encode_utf8(b).len(),
        None => 0,
    }
}

/// Is the body as long as the request text `s` declares? True where no length
/// is declared, or where the declared length is not a number.
pub open spec fn reached_end(s: Seq<char>) -> bool {
    match lookup(request_headers(s), content_length_name()) {
        None => true,
        Some(v) => match parse_usize(v) {
            None => true,
            Some(n) => body_byte_len(s) >= n,
        },
    }
}

/// Is the request text `s` complete: is the blank line there, and the body as
/// long as declared?
pub open spec fn request_complete(s: Seq<char>) -> bool {
    contains(s, blank_line()) && reached_end(s)
}

/// Whether the body of the request text is as long as its `Content-Length`
/// header declares; true where there is no such header or its value is not a
/// number.
pub fn has_reached_request_end(request: String) -> (r: bool)
    ensures
        r == reached_end(request@),
{
    let headers = extract_headers_from_request(request.clone());
    let key = content_length_key();
    match headers.get(&key) {
        None => true,
        Some(v) => {
            let cs = chars_of(v.as_str());
            match parse_usize_exec(&cs) {
                None => true,
                Some(n) => {
                    let len: usize = match extract_body_from_request(request) {
                        Some(b) => {
                            let bytes = b.as_str().as_bytes();
                            assert(bytes@ == encode_utf8(b@));
                            bytes.len()
                        },
                        None => 0,
                    };
                    assert(len == body_byte_len(request@));
                    len >= n
                },
            }
        },
    }
}

/// Whether the text read so far makes a complete request: the blank line has
/// arrived, and the body is as long as declared.
pub fn is_request_complete(request: &String) -> (r: bool)
    ensures
        r == request_complete(request@),
{
    let s = chars_of(request.as_str());
    let sep = vec!['\r', '\n', '\r', '\n'];
    assert(sep@ =~= blank_line());
    contains_exec(&s, &sep) && has_reached_request_end(request.clone())
}

} // verus!
