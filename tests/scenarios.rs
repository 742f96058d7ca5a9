use flate2::read::GzDecoder;
use flate2::write::GzEncoder;
use flate2::Compression;
use http_server::encode::{Encoder, Gzip};
use http_server::handler::{FileOp, FileResult};
use http_server::http::create_request;
use http_server::response::create_response;
use http_server::router::{new_router, Handler};
use std::io::{Read, Write};

/// Serves one request text the way a connection does, with `file` standing in
/// for the file system.
fn serve(raw: &str, root: Option<&str>, file: impl Fn(&FileOp) -> FileResult) -> Vec<u8> {
    let router = new_router(root.map(|r| r.to_string()));
    let mut request = create_request(raw.to_string());
    let mut response = create_response();
    match router.resolve_route(&mut request) {
        None => response.not_found(request),
        Some(handler) => {
            let outcome = match handler.file_op(&request) {
                Some(op) => file(&op),
                None => FileResult::NotUsed,
            };
            handler.respond(request, response, outcome)
        }
    }
}

fn no_files(_: &FileOp) -> FileResult {
    panic!("no file operation expected")
}

fn split_response(bytes: &[u8]) -> (String, Vec<u8>) {
    let pos = bytes
        .windows(4)
        .position(|w| w == b"\r\n\r\n")
        .expect("a head");
    (
        String::from_utf8(bytes[..pos + 4].to_vec()).unwrap(),
        bytes[pos + 4..].to_vec(),
    )
}

fn gzip(data: &[u8]) -> Vec<u8> {
    let mut e = GzEncoder::new(Vec::new(), Compression::default());
    e.write_all(data).unwrap();
    e.finish().unwrap()
}

fn gunzip(data: &[u8]) -> Vec<u8> {
    let mut d = GzDecoder::new(data);
    let mut out = Vec::new();
    d.read_to_end(&mut out).unwrap();
    out
}

#[test]
fn echo_without_encoding() {
    let out = serve("GET /echo/abc HTTP/1.1\r\nHost: localhost\r\n\r\n", None, no_files);
    assert_eq!(
        String::from_utf8(out).unwrap(),
        "HTTP/1.1 200 OK\r\nContent-Type: text/plain\r\nContent-Length: 3\r\n\r\nabc"
    );
}

#[test]
fn echo_with_gzip() {
    let out = serve(
        "GET /echo/abc HTTP/1.1\r\nAccept-Encoding: gzip\r\n\r\n",
        None,
        no_files,
    );
    let (head, body) = split_response(&out);
    let expected = gzip(b"abc");
    assert_eq!(
        head,
        format!(
            "HTTP/1.1 200 OK\r\nContent-Type: text/plain\r\nContent-Encoding: gzip\r\nContent-Length: {}\r\n\r\n",
            expected.len()
        )
    );
    assert_eq!(body, expected);
    assert_eq!(body, Gzip {}.encode("abc".to_string()));
    assert_eq!(gunzip(&body), b"abc".to_vec());
}

#[test]
fn encoding_picks_first_supported_candidate() {
    let out = serve(
        "GET /echo/hello HTTP/1.1\r\nAccept-Encoding: br,  gzip , deflate\r\n\r\n",
        None,
        no_files,
    );
    let (head, body) = split_response(&out);
    assert!(head.contains("Content-Encoding: gzip\r\n"));
    assert!(head.contains(&format!("Content-Length: {}\r\n", body.len())));
    assert_eq!(gunzip(&body), b"hello".to_vec());
}

#[test]
fn unsupported_encoding_leaves_body_plain() {
    let out = serve(
        "GET /echo/hello HTTP/1.1\r\nAccept-Encoding: br, deflate\r\n\r\n",
        None,
        no_files,
    );
    assert_eq!(
        String::from_utf8(out).unwrap(),
        "HTTP/1.1 200 OK\r\nContent-Type: text/plain\r\nContent-Length: 5\r\n\r\nhello"
    );
}

#[test]
fn create_file_replies_created() {
    let raw = "POST /files/test.txt HTTP/1.1\r\nContent-Length: 5\r\n\r\nhello";
    let out = serve(raw, Some("/tmp/"), |op| match op {
        FileOp::Write(path, contents) => {
            assert_eq!(path, "/tmp/test.txt");
            assert_eq!(contents, "hello");
            FileResult::Written(true)
        }
        FileOp::Read(_) => panic!("a write expected"),
    });
    assert_eq!(String::from_utf8(out).unwrap(), "HTTP/1.1 201 Created\r\n\r\n");
}

#[test]
fn create_file_failure_replies_500() {
    let raw = "POST /files/test.txt HTTP/1.1\r\n\r\nhello";
    let out = serve(raw, Some("/tmp/"), |_| FileResult::Written(false));
    assert_eq!(
        String::from_utf8(out).unwrap(),
        "HTTP/1.1 500 Internal Server Error\r\n\r\n"
    );
}

#[test]
fn create_file_without_root_sends_nothing() {
    let raw = "POST /files/test.txt HTTP/1.1\r\n\r\nhello";
    let out = serve(raw, None, no_files);
    assert!(out.is_empty());
}

#[test]
fn missing_file_replies_404() {
    let out = serve(
        "GET /files/missing.txt HTTP/1.1\r\n\r\n",
        Some("/tmp/"),
        |op| match op {
            FileOp::Read(path) => {
                assert_eq!(path, "/tmp/missing.txt");
                FileResult::Read(None)
            }
            FileOp::Write(_, _) => panic!("a read expected"),
        },
    );
    assert_eq!(String::from_utf8(out).unwrap(), "HTTP/1.1 404 Not Found\r\n\r\n");
}

#[test]
fn existing_file_is_sent() {
    let out = serve("GET /files/a.txt HTTP/1.1\r\n\r\n", Some("/srv/"), |_| {
        FileResult::Read(Some("data".to_string()))
    });
    assert_eq!(
        String::from_utf8(out).unwrap(),
        "HTTP/1.1 200 OK\r\nContent-Type: application/octet-stream\r\nContent-Length: 4\r\n\r\ndata"
    );
}

#[test]
fn file_without_root_is_not_found() {
    let out = serve("GET /files/a.txt HTTP/1.1\r\n\r\n", None, no_files);
    assert_eq!(String::from_utf8(out).unwrap(), "HTTP/1.1 404 Not Found\r\n\r\n");
}

#[test]
fn unregistered_path_replies_404() {
    let out = serve("GET /nope HTTP/1.1\r\n\r\n", None, no_files);
    assert_eq!(String::from_utf8(out).unwrap(), "HTTP/1.1 404 Not Found\r\n\r\n");
}

#[test]
fn root_replies_ok_without_body() {
    let out = serve("GET / HTTP/1.1\r\n\r\n", None, no_files);
    assert_eq!(String::from_utf8(out).unwrap(), "HTTP/1.1 200 OK\r\n\r\n");
}

#[test]
fn user_agent_is_echoed() {
    let out = serve(
        "GET /user-agent HTTP/1.1\r\nUser-Agent: curl/7.64.1\r\n\r\n",
        None,
        no_files,
    );
    assert_eq!(
        String::from_utf8(out).unwrap(),
        "HTTP/1.1 200 OK\r\nContent-Type: text/plain\r\nContent-Length: 11\r\n\r\ncurl/7.64.1"
    );
}

#[test]
fn missing_user_agent_gives_empty_body() {
    let out = serve("GET /user-agent HTTP/1.1\r\n\r\n", None, no_files);
    assert_eq!(
        String::from_utf8(out).unwrap(),
        "HTTP/1.1 200 OK\r\nContent-Type: text/plain\r\n\r\n"
    );
}

#[test]
fn resolution_binds_parameters() {
    let router = new_router(Some("/d/".to_string()));
    let mut request = create_request("GET /echo/xyz HTTP/1.1\r\n\r\n".to_string());
    assert_eq!(router.resolve_route(&mut request), Some(Handler::Echo));
    assert_eq!(
        request.path_vars.get(&":text".to_string()),
        Some(&"xyz".to_string())
    );
    assert_eq!(request.path_vars.len(), 1);
    assert_eq!(request.root_dir, Some("/d/".to_string()));

    let mut request = create_request("POST /files/n.bin HTTP/1.1\r\n\r\n".to_string());
    assert_eq!(router.resolve_route(&mut request), Some(Handler::CreateFile));
    assert_eq!(
        request.path_vars.get(&":file_name".to_string()),
        Some(&"n.bin".to_string())
    );
}

#[test]
fn resolution_mismatches_are_not_found() {
    let router = new_router(None);
    for raw in [
        "GET /echo/a/b HTTP/1.1\r\n\r\n",
        "GET /echo HTTP/1.1\r\n\r\n",
        "PUT /echo/abc HTTP/1.1\r\n\r\n",
        "GET /ecko/abc HTTP/1.1\r\n\r\n",
        "DELETE /files/a HTTP/1.1\r\n\r\n",
        "GET /user-agent/ HTTP/1.1\r\n\r\n",
    ] {
        let mut request = create_request(raw.to_string());
        assert_eq!(router.resolve_route(&mut request), None, "{raw}");
        assert_eq!(request.path_vars.len(), 0);
    }
}
