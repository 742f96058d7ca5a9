//! The reference route set and its handlers. A handler that touches a file
//! names the file operation it needs; the caller performs it and hands the
//! outcome back, and the handler builds the reply from it.
use vstd::prelude::*;
use vstd::utf8::encode_utf8;
use crate::http::Request;
use crate::response::{flushes, head_text, header_lines, status_line, internal_server_error_text, Response, ResponseView};
use crate::router::{route_key, route_set, Handler, Router, Routes};
use crate::strmap::{assoc_set, lookup};
use crate::text::{chars_of, opt_view, push_all, string_of};

verus! {

/// The reference routes added to `s`, in order.
pub open spec fn with_reference_routes(s: Routes) -> Routes {
    let s1 = route_set(s, route_key("GET"@, "/"@), Handler::Root);
    let s2 = route_set(s1, route_key("GET"@, "/user-agent"@), Handler::UserAgent);
    let s3 = route_set(s2, route_key("GET"@, "/echo/:text"@), Handler::Echo);
    let s4 = route_set(s3, route_key("GET"@, "/files/:file_name"@), Handler::File);
    route_set(s4, route_key("POST"@, "/files/:file_name"@), Handler::CreateFile)
}

/// Registers the reference routes.
pub fn add_handlers(http_router: &mut Router)
    requires
        old(http_router).wf(),
    ensures
        final(http_router).wf(),
        final(http_router)@.root_dir == old(http_router)@.root_dir,
        final(http_router)@.routes == with_reference_routes(old(http_router)@.routes),
{
    proof {
        reveal_strlit("GET");
        reveal_strlit("POST");
    }
    http_router.add_route("GET", "/", Handler::Root);
    http_router.add_route("GET", "/user-agent", Handler::UserAgent);
    http_router.add_route("GET", "/echo/:text", Handler::Echo);
    http_router.add_route("GET", "/files/:file_name", Handler::File);
    http_router.add_route("POST", "/files/:file_name", Handler::CreateFile);
}

/// A file operation that a handler needs.
pub enum FileOp {
    /// Read the file at this path.
    Read(String),
    /// Write these contents to the file at this path.
    Write(String, String),
}

/// The outcome of the file operation, as handed back to the handler.
pub enum FileResult {
    /// No operation was needed.
    NotUsed,
    /// The contents read, or `None` where reading failed.
    Read(Option<String>),
    /// Whether the write succeeded.
    Written(bool),
}

/// The value of an optional string, or the empty sequence.
pub open spec fn or_empty(o: Option<Seq<char>>) -> Seq<char> {
    match o {
        Some(v) => v,
        None => Seq::empty(),
    }
}

/// The path of the file that a file route names: the root directory followed
/// by the `:file_name` path variable.
pub open spec fn file_path_of(req: Request) -> Seq<char> {
    or_empty(opt_view(req.root_dir)) + or_empty(lookup(req.path_vars@, ":file_name"@))
}

/// What the response holds when it is flushed for handler `h`, or `None`
/// where nothing is sent.
pub open spec fn handler_reply(h: Handler, req: Request, old: ResponseView, file: FileResult) -> Option<ResponseView> {
    let ok = seq!['O', 'K'];
    match h {
        Handler::Root => Some(ResponseView { status_code: 200, status_description: ok, body: None, ..old }),
        Handler::Echo => Some(ResponseView {
            status_code: 200,
            status_description: ok,
            headers: assoc_set(old.headers, "Content-Type"@, "text/plain"@),
            body: Some(or_empty(lookup(req.path_vars@, ":text"@))),
        }),
        Handler::UserAgent => Some(ResponseView {
            status_code: 200,
            status_description: ok,
            headers: assoc_set(old.headers, "Content-Type"@, "text/plain"@),
            body: Some(or_empty(lookup(req.headers@, "User-Agent"@))),
        }),
        Handler::File => match file {
            FileResult::Read(Some(content)) if req.root_dir is Some => Some(ResponseView {
                status_code: 200,
                status_description: ok,
                headers: assoc_set(old.headers, "Content-Type"@, "application/octet-stream"@),
                body: Some(content@),
            }),
            _ => Some(ResponseView {
                status_code: 404,
                status_description: seq!['N', 'o', 't', ' ', 'F', 'o', 'u', 'n', 'd'],
                body: None,
                ..old
            }),
        },
        Handler::CreateFile => if req.root_dir is None {
            None
        } else {
            match file {
                FileResult::Written(true) => Some(ResponseView {
                    status_code: 201,
                    status_description: seq!['C', 'r', 'e', 'a', 't', 'e', 'd'],
                    ..old
                }),
                _ => Some(ResponseView {
                    status_code: 500,
                    status_description: internal_server_error_text(),
                    body: None,
                    ..old
                }),
            }
        },
    }
}

/// Is `out` what is sent for handler `h`, given the request, the response as it
/// stood, and the file outcome?
pub open spec fn replies(h: Handler, req: Request, old: ResponseView, file: FileResult, out: Seq<u8>) -> bool {
    if handler_reply(h, req, old, file) is Some {
        exists|fin: ResponseView| flushes(handler_reply(h, req, old, file).unwrap(), req.headers@, fin, out)
    } else {
        out.len() == 0
    }
}

/// A file that cannot be read is not found: on a response with no headers,
/// the file route sends exactly the 404 status line and the empty line.
pub proof fn lemma_unreadable_file_not_found(req: Request, old: ResponseView, out: Seq<u8>)
    requires
        old.headers.len() == 0,
        replies(Handler::File, req, old, FileResult::Read(None), out),
    ensures
        out == encode_utf8(
            status_line(404, seq!['N', 'o', 't', ' ', 'F', 'o', 'u', 'n', 'd']) + seq!['\r', '\n'],
        ),
{
    let mid = handler_reply(Handler::File, req, old, FileResult::Read(None)).unwrap();
    let fin = choose|fin: ResponseView| flushes(mid, req.headers@, fin, out);
    assert(fin.headers.len() == 0);
    assert(header_lines(fin.headers) =~= Seq::<char>::empty());
    assert(head_text(fin) =~= status_line(404, seq!['N', 'o', 't', ' ', 'F', 'o', 'u', 'n', 'd'])
        + seq!['\r', '\n']);
    assert(out =~= encode_utf8(head_text(fin)));
}

/// The reply 200 OK with a `Content-Type` and a body.
fn ok_with_type(request: Request, response: Response, content_type: String, body: String) -> (r: Vec<u8>)
    requires
        request.wf(),
        response.wf(),
    ensures
        exists|fin: ResponseView|
            flushes(
                ResponseView {
                    status_code: 200,
                    status_description: seq!['O', 'K'],
                    headers: assoc_set(response@.headers, "Content-Type"@, content_type@),
                    body: Some(body@),
                },
                request.headers@,
                fin,
                r@,
            ),
{
    let mut response = response;
    response.set_header("Content-Type".to_owned(), content_type);
    let r = response.ok(request, Some(body));
    r
}

impl Handler {
    /// Builds and writes the reply of this handler to the request, from the
    /// outcome of its file operation. The file creation route sends nothing
    /// without a root directory.
    pub fn respond(&self, request: Request, response: Response, file: FileResult) -> (r: Vec<u8>)
        requires
            request.wf(),
            response.wf(),
        ensures
            replies(*self, request, response@, file, r@),
    {
        let ghost old_view = response@;
        let ghost req = request;
        let ghost fl = file;
        let mut response = response;
        match self {
            Handler::Root => {
                let r = response.ok(request, None);
                assert(flushes(handler_reply(*self, req, old_view, fl).unwrap(), req.headers@, response@, r@));
                r
            },
            Handler::Echo => {
                let key = ":text".to_owned();
                let v = match request.path_vars.get(&key) {
                    Some(v) => {
                        assert(lookup(req.path_vars@, ":text"@) == Some(v@));
                        v.clone()
                    },
                    None => {
                        proof {
                            reveal_strlit("");
                        }
                        "".to_owned()
                    },
                };
                {
                    let ghost bv = v@;
                    assert(bv == or_empty(lookup(req.path_vars@, ":text"@)));
                    let r = ok_with_type(request, response, "text/plain".to_owned(), v);
                    assert(handler_reply(*self, req, old_view, fl).unwrap() == (ResponseView {
                        status_code: 200,
                        status_description: seq!['O', 'K'],
                        headers: assoc_set(old_view.headers, "Content-Type"@, "text/plain"@),
                        body: Some(bv),
                    }));
                    r
                }
            },
            Handler::UserAgent => {
                let key = "User-Agent".to_owned();
                let v = match request.headers.get(&key) {
                    Some(v) => {
                        assert(lookup(req.headers@, "User-Agent"@) == Some(v@));
                        v.clone()
                    },
                    None => {
                        proof {
                            reveal_strlit("");
                        }
                        "".to_owned()
                    },
                };
                {
                    let ghost bv = v@;
                    assert(bv == or_empty(lookup(req.headers@, "User-Agent"@)));
                    let r = ok_with_type(request, response, "text/plain".to_owned(), v);
                    assert(handler_reply(*self, req, old_view, fl).unwrap() == (ResponseView {
                        status_code: 200,
                        status_description: seq!['O', 'K'],
                        headers: assoc_set(old_view.headers, "Content-Type"@, "text/plain"@),
                        body: Some(bv),
                    }));
                    r
                }
            },
            Handler::File => {
                match file {
                    FileResult::Read(Some(content)) => {
                        if request.root_dir.is_some() {
                            {
                    let ghost bv = content@;
                    let r = ok_with_type(request, response, "application/octet-stream".to_owned(), content);
                    assert(handler_reply(*self, req, old_view, fl).unwrap() == (ResponseView {
                        status_code: 200,
                        status_description: seq!['O', 'K'],
                        headers: assoc_set(old_view.headers, "Content-Type"@, "application/octet-stream"@),
                        body: Some(bv),
                    }));
                    r
                }
                        } else {
                            let r = response.not_found(request);
                            assert(flushes(handler_reply(*self, req, old_view, fl).unwrap(), req.headers@, response@, r@));
                            r
                        }
                    },
                    _ => {
                        let r = response.not_found(request);
                        assert(flushes(handler_reply(*self, req, old_view, fl).unwrap(), req.headers@, response@, r@));
                        r
                    },
                }
            },
            Handler::CreateFile => {
                if request.root_dir.is_none() {
                    return Vec::new();
                }
                match file {
                    FileResult::Written(true) => {
                        let r = response.no_content(request);
                        assert(flushes(handler_reply(*self, req, old_view, fl).unwrap(), req.headers@, response@, r@));
                        r
                    },
                    _ => {
                        let r = response.internal_server_error(request, None);
                        assert(flushes(handler_reply(*self, req, old_view, fl).unwrap(), req.headers@, response@, r@));
                        r
                    },
                }
            },
        }
    }

    /// The file operation this handler needs for the request: a read for the
    /// file route, a write of the body (empty where there is none) for the
    /// file creation route; none for the others, or without a root directory.
    pub fn file_op(&self, request: &Request) -> (r: Option<FileOp>)
        requires
            request.wf(),
        ensures
            match r {
                None => !(*self == Handler::File || *self == Handler::CreateFile) || request.root_dir is None,
                Some(FileOp::Read(p)) => *self == Handler::File && request.root_dir is Some && p@ == file_path_of(*request),
                Some(FileOp::Write(p, c)) => *self == Handler::CreateFile && request.root_dir is Some && p@
                    == file_path_of(*request) && c@ == or_empty(opt_view(request.body)),
            },
    {
        match self {
            Handler::File | Handler::CreateFile => {
                match &request.root_dir {
                    None => None,
                    Some(dir) => {
                        let mut p = chars_of(dir.as_str());
                        let key = ":file_name".to_owned();
                        match request.path_vars.get(&key) {
                            Some(name) => {
                                let n = chars_of(name.as_str());
                                push_all(&mut p, &n);
                            },
                            None => {},
                        }
                        assert(p@ =~= file_path_of(*request));
                        let path = string_of(&p);
                        if *self == Handler::File {
                            Some(FileOp::Read(path))
                        } else {
                            let contents = match &request.body {
                                Some(b) => b.clone(),
                                None => {
                                    proof {
                                        reveal_strlit("");
                                    }
                                    "".to_owned()
                                },
                            };
                            Some(FileOp::Write(path, contents))
                        }
                    },
                }
            },
            _ => None,
        }
    }
}

} // verus!
