//! Content encodings: a registry of one, gzip, looked up by name.
use vstd::prelude::*;
use vstd::utf8::encode_utf8;
use crate::text::{bytes_of, chars_eq, chars_of};
use flate2::write::GzEncoder;
use flate2::Compression;
use std::io::Write;

verus! {

/// What flate2 gives for `b` at the default level, with the default header
/// (no name, no time stamp, operating system unknown): the gzip stream, or
/// `None` where it reports an error. It depends on `b` alone.
pub uninterp spec fn gzip_of(b: Seq<u8>) -> Option<Seq<u8>>;

/// Relies on flate2's `GzEncoder::new`, `write_all` and `finish` over a vector:
/// the compressed stream, or `None` where flate2 reports an I/O error; either
/// outcome depends on `data` alone.
#[verifier::external_body]
fn gzip_compress(data: &[u8]) -> (r: Option<Vec<u8>>)
    ensures
        match r {
            Some(v) => gzip_of(data@) == Some(v@),
            None => gzip_of(data@) is None,
        },
{
    let mut encoder = GzEncoder::new(Vec::new(), Compression::default());
    match encoder.write_all(data) {
        Ok(()) => encoder.finish().ok(),
        Err(_) => None,
    }
}

/// The name of the one supported encoding.
pub open spec fn gzip_name() -> Seq<char> {
    seq!['g', 'z', 'i', 'p']
}

/// The bytes that gzip encoding gives for `input`: the gzip stream, or the
/// input itself where compression failed.
pub open spec fn gzip_or_raw(input: Seq<u8>) -> Seq<u8> {
    match gzip_of(input) {
        Some(z) => z,
        None => input,
    }
}

/// A content encoding.
pub trait Encoder {
    /// May `output` be what this encoding gives for `input`?
    spec fn encodes(&self, input: Seq<u8>, output: Seq<u8>) -> bool;

    /// Encodes the bytes of `content`.
    fn encode(&self, content: String) -> (r: Vec<u8>)
        ensures
            self.encodes(encode_utf8(content@), r@),
    ;
}

/// The gzip encoding.
pub struct Gzip {}

impl Encoder for Gzip {
    /// The gzip stream of the input; or, where compression failed, the input
    /// itself.
    open spec fn encodes(&self, input: Seq<u8>, output: Seq<u8>) -> bool {
        output == gzip_or_raw(input)
    }

    /// Compresses the bytes of `content`; where compression fails, gives them
    /// back unchanged, so that a response is never held up.
    fn encode(&self, content: String) -> (r: Vec<u8>) {
        let bytes = content.as_str().as_bytes();
        match gzip_compress(bytes) {
            Some(v) => v,
            None => bytes_of(&content),
        }
    }
}

/// The encoder of the given name: gzip is the only one.
pub fn new_encoder(encoder_type: &str) -> (r: Result<Gzip, &'static str>)
    ensures
        r is Ok <==> encoder_type@ == gzip_name(),
        r matches Err(e) ==> e@ == "encoder not supported"@,
{
    let name = chars_of(encoder_type);
    let gzip = vec!['g', 'z', 'i', 'p'];
    assert(gzip@ =~= gzip_name());
    if chars_eq(&name, &gzip) {
        Ok(Gzip {})
    } else {
        Err("encoder not supported")
    }
}

} // verus!
