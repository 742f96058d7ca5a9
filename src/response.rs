//! Responses: their state, the standard replies, and how they are written out.
use vstd::prelude::*;
use vstd::utf8::encode_utf8;
use crate::encode::{gzip_name, gzip_or_raw, new_encoder, Encoder};
use crate::connection::{content_length_key, content_length_name};
use crate::http::Request;
use crate::strmap::{assoc_set, keys_unique, lemma_assoc_set_unique, lookup, Pairs, StringMap};
use crate::text::{
    bytes_of, chars_of, decimal, opt_view, decimal_exec, push_all, split, split_exec, string_of, trim,
    trim_exec, views,
};

verus! {

/// What a response holds, as values.
pub struct ResponseView {
    pub status_code: u32,
    pub status_description: Seq<char>,
    pub headers: Pairs,
    pub body: Option<Seq<char>>,
}

/// A response under construction; written out once by `flush`.
pub struct Response {
    status_code: u32,
    status_description: String,
    headers: StringMap,
    body: Option<String>,
}

impl View for Response {
    type V = ResponseView;

    closed spec fn view(&self) -> ResponseView {
        ResponseView {
            status_code: self.status_code,
            status_description: self.status_description@,
            headers: self.headers@,
            body: opt_view(self.body),
        }
    }
}

/// `Content-Encoding`.
pub open spec fn content_encoding_name() -> Seq<char> {
    seq!['C', 'o', 'n', 't', 'e', 'n', 't', '-', 'E', 'n', 'c', 'o', 'd', 'i', 'n', 'g']
}

/// `Accept-Encoding`.
pub open spec fn accept_encoding_name() -> Seq<char> {
    seq!['A', 'c', 'c', 'e', 'p', 't', '-', 'E', 'n', 'c', 'o', 'd', 'i', 'n', 'g']
}

/// The first candidate that, trimmed, names a supported encoding; trimmed.
pub open spec fn first_supported(cands: Seq<Seq<char>>) -> Option<Seq<char>>
    decreases cands.len(),
{
    if cands.len() == 0 {
        None
    } else if trim(cands[0]) == gzip_name() {
        Some(trim(cands[0]))
    } else {
        first_supported(cands.drop_first())
    }
}

/// The encoding chosen for a request with these headers: the first supported
/// one that its `Accept-Encoding` lists, split on `,`.
pub open spec fn chosen_encoding(request_headers: Pairs) -> Option<Seq<char>> {
    match lookup(request_headers, accept_encoding_name()) {
        None => None,
        Some(v) => first_supported(split(v, seq![','])),
    }
}

/// Is `out` the body that goes out for `input` under `enc`?
pub open spec fn encoded_as(enc: Option<Seq<char>>, input: Seq<u8>, out: Seq<u8>) -> bool {
    match enc {
        None => out == input,
        Some(_) => out == gzip_or_raw(input),
    }
}

/// The status line.
pub open spec fn status_line(code: u32, desc: Seq<char>) -> Seq<char> {
    seq!['H', 'T', 'T', 'P', '/', '1', '.', '1', ' '] + decimal(code as nat) + seq![' '] + desc
        + seq!['\r', '\n']
}

/// The header lines, in order, each `name: value` and a line break.
pub open spec fn header_lines(h: Pairs) -> Seq<char>
    decreases h.len(),
{
    if h.len() == 0 {
        Seq::empty()
    } else {
        header_lines(h.drop_last()) + h.last().0 + seq![':', ' '] + h.last().1 + seq!['\r', '\n']
    }
}

/// The head of the response: status line, header lines, and the empty line.
pub open spec fn head_text(r: ResponseView) -> Seq<char> {
    status_line(r.status_code, r.status_description) + header_lines(r.headers) + seq!['\r', '\n']
}

/// The bytes on the wire: the head, then the body bytes.
pub open spec fn wire(r: ResponseView, body: Seq<u8>) -> Seq<u8> {
    encode_utf8(head_text(r)) + body
}

/// The headers after `flush` has recorded the encoding and the final length.
pub open spec fn flushed_headers(h: Pairs, enc: Option<Seq<char>>, len: nat) -> Pairs {
    let h1 = match enc {
        Some(e) => assoc_set(h, content_encoding_name(), e),
        None => h,
    };
    assoc_set(h1, content_length_name(), decimal(len))
}

/// Does the body of `r` hold at least one character?
pub open spec fn has_body(r: ResponseView) -> bool {
    r.body matches Some(b) && b.len() > 0
}

/// What `flush` does to `old`, given the request headers `h`, ending as `new`
/// and writing `out`.
pub open spec fn flushes(old: ResponseView, h: Pairs, new: ResponseView, out: Seq<u8>) -> bool {
    &&& new.status_code == old.status_code
    &&& new.status_description == old.status_description
    &&& new.body == old.body
    &&& if has_body(old) {
        exists|b: Seq<u8>|
            {
                &&& encoded_as(chosen_encoding(h), encode_utf8(old.body.unwrap()), b)
                &&& new.headers == flushed_headers(old.headers, chosen_encoding(h), b.len())
                &&& lookup(new.headers, content_length_name()) == Some(decimal(b.len()))
                &&& out == wire(new, b)
            }
    } else {
        &&& new.headers == old.headers
        &&& out == wire(new, Seq::empty())
    }
}

/// `Internal Server Error`.
pub open spec fn internal_server_error_text() -> Seq<char> {
    seq![
        'I', 'n', 't', 'e', 'r', 'n', 'a', 'l', ' ', 'S', 'e', 'r', 'v', 'e', 'r', ' ', 'E', 'r',
        'r', 'o', 'r',
    ]
}

/// The header name `Content-Encoding`.
fn content_encoding_key() -> (r: String)
    ensures
        r@ == content_encoding_name(),
{
    let v = vec!['C', 'o', 'n', 't', 'e', 'n', 't', '-', 'E', 'n', 'c', 'o', 'd', 'i', 'n', 'g'];
    assert(v@ =~= content_encoding_name());
    string_of(&v)
}

/// The header name `Accept-Encoding`.
fn accept_encoding_key() -> (r: String)
    ensures
        r@ == accept_encoding_name(),
{
    let v = vec!['A', 'c', 'c', 'e', 'p', 't', '-', 'E', 'n', 'c', 'o', 'd', 'i', 'n', 'g'];
    assert(v@ =~= accept_encoding_name());
    string_of(&v)
}

/// The length declared is the length sent: where a flushed response had a
/// non-empty body, the bytes sent after the head are the body after encoding,
/// and `Content-Length` is their number, in decimal.
pub proof fn lemma_content_length_after_encoding(old: ResponseView, h: Pairs, new: ResponseView, out: Seq<u8>)
    requires
        flushes(old, h, new, out),
        has_body(old),
    ensures
        exists|b: Seq<u8>|
            {
                &&& encoded_as(chosen_encoding(h), encode_utf8(old.body.unwrap()), b)
                &&& lookup(new.headers, content_length_name()) == Some(decimal(b.len()))
                &&& out == encode_utf8(head_text(new)) + b
            },
{
}

/// A response without a body gets no `Content-Length`, and the bytes sent end
/// with the empty line that follows the headers.
pub proof fn lemma_no_body_no_length(old: ResponseView, h: Pairs, new: ResponseView, out: Seq<u8>)
    requires
        flushes(old, h, new, out),
        !has_body(old),
        lookup(old.headers, content_length_name()) is None,
    ensures
        lookup(new.headers, content_length_name()) is None,
        out == encode_utf8(
            status_line(old.status_code, old.status_description) + header_lines(old.headers) + seq![
                '\r',
                '\n',
            ],
        ),
{
}

/// A fresh response: 200 OK, no headers, no body.
pub fn create_response() -> (r: Response)
    ensures
        r.wf(),
        r@.status_code == 200,
        r@.status_description == seq!['O', 'K'],
        r@.headers == Seq::<(Seq<char>, Seq<char>)>::empty(),
        r@.body is None,
{
    let ok = vec!['O', 'K'];
    assert(ok@ =~= seq!['O', 'K']);
    Response { status_code: 200, status_description: string_of(&ok), headers: StringMap::new(), body: None }
}

impl Response {
    /// Its header names are unique.
    pub open spec fn wf(&self) -> bool {
        keys_unique(self@.headers)
    }

    pub fn set_status_code(&mut self, status_code: u32)
        ensures
            final(self)@ == (ResponseView { status_code, ..old(self)@ }),
    {
        self.status_code = status_code;
    }

    pub fn set_status_description(&mut self, status_description: String)
        ensures
            final(self)@ == (ResponseView { status_description: status_description@, ..old(self)@ }),
    {
        self.status_description = status_description;
    }

    /// Sets a header, in place where one of that name is set already.
    pub fn set_header(&mut self, key: String, value: String)
        requires
            old(self).wf(),
        ensures
            final(self).wf(),
            final(self)@ == (ResponseView {
                headers: assoc_set(old(self)@.headers, key@, value@),
                ..old(self)@
            }),
    {
        self.headers.insert(key, value);
    }

    pub fn set_body(&mut self, body: Option<String>)
        ensures
            final(self)@ == (ResponseView {
                body: opt_view(body),
                ..old(self)@
            }),
    {
        self.body = body;
    }

    /// The bytes that go out for the body `content`, encoded with the encoding
    /// that the request accepts, if any (which is then recorded in
    /// `Content-Encoding`); `None` for an empty body.
    fn encode_body_if_needed(&mut self, content: String, request: &Request) -> (r: Option<Vec<u8>>)
        requires
            old(self).wf(),
            request.wf(),
        ensures
            final(self).wf(),
            content@.len() == 0 ==> r is None && final(self)@ == old(self)@,
            content@.len() > 0 ==> (r matches Some(b) && encoded_as(
                chosen_encoding(request.headers@),
                encode_utf8(content@),
                b@,
            ) && final(self)@ == (ResponseView {
                headers: match chosen_encoding(request.headers@) {
                    Some(e) => assoc_set(old(self)@.headers, content_encoding_name(), e),
                    None => old(self)@.headers,
                },
                ..old(self)@
            })),
    {
        if content.as_str().is_empty() {
            return None;
        }
        let key = accept_encoding_key();
        if let Some(list) = request.headers.get(&key) {
            let cs = chars_of(list.as_str());
            let comma = vec![','];
            assert(comma@ =~= seq![',']);
            let cands = split_exec(&cs, &comma);
            let ghost all = views(cands@);
            let mut i: usize = 0;
            assert(all.skip(0) =~= all);
            while i < cands.len()
                invariant
                    i <= cands.len(),
                    all == views(cands@),
                    all == split(list@, seq![',']),
                    chosen_encoding(request.headers@) == first_supported(all),
                    first_supported(all) == first_supported(all.skip(i as int)),
                    self@ == old(self)@,
                    self.wf(),
                    content@.len() > 0,
                decreases cands.len() - i,
            {
                assert(all.skip(i as int).drop_first() =~= all.skip(i + 1));
                assert(all.skip(i as int)[0] == cands@[i as int]@);
                let t = trim_exec(&cands[i]);
                let name = string_of(&t);
                match new_encoder(name.as_str()) {
                    Ok(encoder) => {
                        let ce = content_encoding_key();
                        self.set_header(ce, name);
                        return Some(encoder.encode(content));
                    },
                    Err(_) => {},
                }
                i = i + 1;
            }
        }
        Some(bytes_of(&content))
    }

    /// Writes the response out with `body` as the bytes that follow the head:
    /// their number is recorded in `Content-Length` first. Without bytes, no
    /// `Content-Length` is added and nothing follows the empty line.
    pub fn write_out(&mut self, body: Option<Vec<u8>>) -> (r: Vec<u8>)
        requires
            old(self).wf(),
        ensures
            final(self).wf(),
            final(self)@.status_code == old(self)@.status_code,
            final(self)@.status_description == old(self)@.status_description,
            final(self)@.body == old(self)@.body,
            match body {
                Some(b) => final(self)@.headers == assoc_set(
                    old(self)@.headers,
                    content_length_name(),
                    decimal(b@.len()),
                ) && r@ == wire(final(self)@, b@),
                None => final(self)@ == old(self)@ && r@ == wire(old(self)@, Seq::empty()),
            },
    {
        match body {
            Some(b) => {
                let digits = decimal_exec(b.len());
                let len = string_of(&digits);
                let cl = content_length_key();
                self.set_header(cl, len);
                let mut out = self.head_bytes();
                let mut b = b;
                out.append(&mut b);
                out
            },
            None => {
                let out = self.head_bytes();
                assert(out@ =~= wire(self@, Seq::empty()));
                out
            },
        }
    }

    /// The bytes of the head: status line, header lines, empty line.
    fn head_bytes(&self) -> (r: Vec<u8>)
        ensures
            r@ == encode_utf8(head_text(self@)),
    {
        let mut head = self.create_response_line();
        let headers = self.create_response_headers();
        push_all(&mut head, &headers);
        assert(head@ =~= head_text(self@));
        let head_text_s = string_of(&head);
        bytes_of(&head_text_s)
    }

    /// Writes the response out: the status line, the headers in order, the
    /// empty line, and the body, encoded as the request accepts. A non-empty
    /// body gets `Content-Length`, its length after encoding; an absent or
    /// empty one gets none, and nothing follows the empty line.
    pub fn flush(&mut self, request: Request) -> (r: Vec<u8>)
        requires
            old(self).wf(),
            request.wf(),
        ensures
            final(self).wf(),
            flushes(old(self)@, request.headers@, final(self)@, r@),
    {
        let body_content = match &self.body {
            Some(b) => self.encode_body_if_needed(b.clone(), &request),
            None => None,
        };
        let ghost mid = self@;
        let r = self.write_out(body_content);
        proof {
            if has_body(old(self)@) {
                let bv = body_content.unwrap()@;
                let h1 = mid.headers;
                if chosen_encoding(request.headers@) is Some {
                    lemma_assoc_set_unique(
                        old(self)@.headers,
                        content_encoding_name(),
                        chosen_encoding(request.headers@).unwrap(),
                    );
                }
                lemma_assoc_set_unique(h1, content_length_name(), decimal(bv.len()));
                assert(r@ == wire(self@, bv));
            }
        }
        r
    }

    /// Replies 200 OK with the given body.
    pub fn ok(&mut self, request: Request, body: Option<String>) -> (r: Vec<u8>)
        requires
            old(self).wf(),
            request.wf(),
        ensures
            final(self).wf(),
            flushes(
                ResponseView {
                    status_code: 200,
                    status_description: seq!['O', 'K'],
                    body: opt_view(body),
                    ..old(self)@
                },
                request.headers@,
                final(self)@,
                r@,
            ),
    {
        self.set_status_code(200);
        let d = vec!['O', 'K'];
        assert(d@ =~= seq!['O', 'K']);
        self.set_status_description(string_of(&d));
        self.set_body(body);
        self.flush(request)
    }

    /// Replies 201 Created, for a resource that was made.
    pub fn no_content(&mut self, request: Request) -> (r: Vec<u8>)
        requires
            old(self).wf(),
            request.wf(),
        ensures
            final(self).wf(),
            flushes(
                ResponseView {
                    status_code: 201,
                    status_description: seq!['C', 'r', 'e', 'a', 't', 'e', 'd'],
                    ..old(self)@
                },
                request.headers@,
                final(self)@,
                r@,
            ),
    {
        self.set_status_code(201);
        let d = vec!['C', 'r', 'e', 'a', 't', 'e', 'd'];
        assert(d@ =~= seq!['C', 'r', 'e', 'a', 't', 'e', 'd']);
        self.set_status_description(string_of(&d));
        self.flush(request)
    }

    /// Replies 404 Not Found, with no body.
    pub fn not_found(&mut self, request: Request) -> (r: Vec<u8>)
        requires
            old(self).wf(),
            request.wf(),
        ensures
            final(self).wf(),
            flushes(
                ResponseView {
                    status_code: 404,
                    status_description: seq!['N', 'o', 't', ' ', 'F', 'o', 'u', 'n', 'd'],
                    body: None,
                    ..old(self)@
                },
                request.headers@,
                final(self)@,
                r@,
            ),
    {
        self.set_status_code(404);
        let d = vec!['N', 'o', 't', ' ', 'F', 'o', 'u', 'n', 'd'];
        assert(d@ =~= seq!['N', 'o', 't', ' ', 'F', 'o', 'u', 'n', 'd']);
        self.set_status_description(string_of(&d));
        self.set_body(None);
        self.flush(request)
    }

    /// Replies 500 Internal Server Error with the given body.
    pub fn internal_server_error(&mut self, request: Request, body: Option<String>) -> (r: Vec<u8>)
        requires
            old(self).wf(),
            request.wf(),
        ensures
            final(self).wf(),
            flushes(
                ResponseView {
                    status_code: 500,
                    status_description: internal_server_error_text(),
                    body: opt_view(body),
                    ..old(self)@
                },
                request.headers@,
                final(self)@,
                r@,
            ),
    {
        self.set_status_code(500);
        let d = vec![
            'I', 'n', 't', 'e', 'r', 'n', 'a', 'l', ' ', 'S', 'e', 'r', 'v', 'e', 'r', ' ', 'E', 'r',
            'r', 'o', 'r',
        ];
        assert(d@ =~= internal_server_error_text());
        self.set_status_description(string_of(&d));
        self.set_body(body);
        self.flush(request)
    }

    /// The status line.
    fn create_response_line(&self) -> (r: Vec<char>)
        ensures
            r@ == status_line(self@.status_code, self@.status_description),
    {
        let mut r = vec!['H', 'T', 'T', 'P', '/', '1', '.', '1', ' '];
        let code = decimal_exec(self.status_code as usize);
        push_all(&mut r, &code);
        r.push(' ');
        let desc = chars_of(self.status_description.as_str());
        push_all(&mut r, &desc);
        r.push('\r');
        r.push('\n');
        assert(r@ =~= status_line(self@.status_code, self@.status_description));
        r
    }

    /// The header lines and the empty line that ends them.
    fn create_response_headers(&self) -> (r: Vec<char>)
        ensures
            r@ == header_lines(self@.headers) + seq!['\r', '\n'],
    {
        let mut r: Vec<char> = Vec::new();
        let mut i: usize = 0;
        let n = self.headers.len();
        assert(self@.headers.take(0) =~= Seq::<(Seq<char>, Seq<char>)>::empty());
        while i < n
            invariant
                i <= n == self@.headers.len(),
                r@ == header_lines(self@.headers.take(i as int)),
            decreases n - i,
        {
            let (k, v) = self.headers.entry(i);
            let kc = chars_of(k.as_str());
            let vc = chars_of(v.as_str());
            push_all(&mut r, &kc);
            r.push(':');
            r.push(' ');
            push_all(&mut r, &vc);
            r.push('\r');
            r.push('\n');
            let ghost t = self@.headers.take(i + 1);
            assert(t.drop_last() =~= self@.headers.take(i as int));
            assert(r@ =~= header_lines(t));
            i = i + 1;
        }
        assert(self@.headers.take(i as int) =~= self@.headers);
        r.push('\r');
        r.push('\n');
        r
    }
}

} // verus!
