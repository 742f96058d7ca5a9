use flate2::read::GzDecoder;
use http_server::connection::{has_reached_request_end, is_request_complete};
use http_server::encode::{new_encoder, Encoder, Gzip};
use http_server::http::{
    create_request, extract_body_from_request, extract_headers_from_request,
    extract_request_path, extract_request_verb,
};
use http_server::response::create_response;
use http_server::server::new_server;
use http_server::strmap::StringMap;
use std::io::Read;

fn s(x: &str) -> String {
    x.to_string()
}

#[test]
fn gzip_round_trip() {
    for text in ["hello world", "a", "x".repeat(1000).as_str(), "héllo ünïcode"] {
        let encoded = Gzip {}.encode(s(text));
        assert_ne!(encoded, text.as_bytes().to_vec());
        let mut d = GzDecoder::new(&encoded[..]);
        let mut out = Vec::new();
        d.read_to_end(&mut out).unwrap();
        assert_eq!(out, text.as_bytes().to_vec());
    }
}

#[test]
fn encoder_registry() {
    assert!(new_encoder("gzip").is_ok());
    assert_eq!(new_encoder("br").err(), Some("encoder not supported"));
    assert_eq!(new_encoder("deflate").err(), Some("encoder not supported"));
    assert!(new_encoder(" gzip").is_err());
    assert!(new_encoder("").is_err());
}

#[test]
fn request_line_is_read_leniently() {
    let raw = "GET /echo/abc HTTP/1.1\r\nHost: x\r\n\r\n";
    assert_eq!(extract_request_verb(s(raw)), "GET");
    assert_eq!(extract_request_path(s(raw)), "/echo/abc");
    assert_eq!(extract_request_verb(s("FETCH /a HTTP/1.1\r\n\r\n")), "");
    assert_eq!(extract_request_path(s("GET HTTP/1.1\r\n\r\n")), "");
    assert_eq!(extract_request_verb(s("x OPTIONS y")), "OPTIONS");
    assert_eq!(extract_request_verb(s("")), "");
    let mut r = create_request(s("PATCH /p HTTP/1.1\r\n\r\n"));
    assert_eq!(r.route(), "PATCH /p");
}

#[test]
fn headers_are_trimmed_and_last_wins() {
    let raw = "GET / HTTP/1.1\r\n  Host :  example \r\nX: 1\r\nNoColon\r\nX: 2\r\nA: b:c\r\n\r\nBody: no\r\n";
    let h = extract_headers_from_request(s(raw));
    assert_eq!(h.get(&s("Host")), Some(&s("example")));
    assert_eq!(h.get(&s("X")), Some(&s("2")));
    assert_eq!(h.get(&s("NoColon")), Some(&s("")));
    assert_eq!(h.get(&s("A")), Some(&s("b:c")));
    assert_eq!(h.get(&s("Body")), None);
    assert_eq!(h.len(), 4);
    assert_eq!(h.entry(0), (&s("Host"), &s("example")));
    assert_eq!(h.entry(1), (&s("X"), &s("2")));
}

#[test]
fn body_is_the_second_piece() {
    assert_eq!(
        extract_body_from_request(s("POST / HTTP/1.1\r\n\r\nhello")),
        Some(s("hello"))
    );
    assert_eq!(
        extract_body_from_request(s("POST / HTTP/1.1\r\n\r\n")),
        Some(s(""))
    );
    assert_eq!(extract_body_from_request(s("POST / HTTP/1.1\r\nA: b")), None);
    assert_eq!(
        extract_body_from_request(s("POST / HTTP/1.1\r\n\r\none\r\n\r\ntwo")),
        Some(s("one\r\n\r\ntwo"))
    );
    let r = create_request(s("GET / HTTP/1.1\r\n"));
    assert_eq!(r.body, None);
    assert_eq!(r.root_dir, None);
    assert_eq!(r.path_vars.len(), 0);
}

#[test]
fn completion_follows_content_length() {
    assert!(has_reached_request_end(s("GET / HTTP/1.1\r\n\r\n")));
    assert!(!has_reached_request_end(s("POST / HTTP/1.1\r\nContent-Length: 5\r\n\r\nhel")));
    assert!(has_reached_request_end(s("POST / HTTP/1.1\r\nContent-Length: 5\r\n\r\nhello")));
    assert!(has_reached_request_end(s("POST / HTTP/1.1\r\nContent-Length: +3\r\n\r\nabc")));
    assert!(has_reached_request_end(s("POST / HTTP/1.1\r\nContent-Length: abc\r\n\r\n")));
    assert!(has_reached_request_end(s(
        "POST / HTTP/1.1\r\nContent-Length: 99999999999999999999999\r\n\r\n"
    )));
    // two characters, four bytes
    assert!(has_reached_request_end(s("POST / HTTP/1.1\r\nContent-Length: 4\r\n\r\néé")));
    assert!(!has_reached_request_end(s("POST / HTTP/1.1\r\nContent-Length: 5\r\n\r\néé")));
}

#[test]
fn completion_needs_the_blank_line() {
    assert!(!is_request_complete(&s("GET / HTTP/1.1\r\nHost: x\r\n")));
    assert!(is_request_complete(&s("GET / HTTP/1.1\r\nHost: x\r\n\r\n")));
    assert!(!is_request_complete(&s("POST / HTTP/1.1\r\nContent-Length: 2\r\n\r\n")));
    assert!(is_request_complete(&s("POST / HTTP/1.1\r\nContent-Length: 2\r\n\r\nok")));
    assert!(!is_request_complete(&s("")));
}

#[test]
fn content_length_counts_encoded_bytes() {
    let request = create_request(s("GET / HTTP/1.1\r\nAccept-Encoding: gzip\r\n\r\n"));
    let mut response = create_response();
    let body = "z".repeat(500);
    let out = response.ok(request, Some(body.clone()));
    let pos = out.windows(4).position(|w| w == b"\r\n\r\n").unwrap();
    let head = String::from_utf8(out[..pos].to_vec()).unwrap();
    let sent = out.len() - pos - 4;
    assert!(sent < body.len());
    assert!(head.ends_with(&format!("Content-Length: {sent}")));
}

#[test]
fn empty_body_has_no_length() {
    let request = create_request(s("GET / HTTP/1.1\r\nAccept-Encoding: gzip\r\n\r\n"));
    let mut response = create_response();
    response.set_header(s("X-A"), s("1"));
    let out = response.ok(request, Some(s("")));
    assert_eq!(String::from_utf8(out).unwrap(), "HTTP/1.1 200 OK\r\nX-A: 1\r\n\r\n");
}

#[test]
fn status_and_headers_are_written_in_order() {
    let request = create_request(s("GET / HTTP/1.1\r\n\r\n"));
    let mut response = create_response();
    response.set_header(s("B"), s("1"));
    response.set_header(s("A"), s("2"));
    response.set_header(s("B"), s("3"));
    response.set_status_code(418);
    response.set_status_description(s("I'm a teapot"));
    response.set_body(Some(s("tea")));
    let out = response.flush(request);
    assert_eq!(
        String::from_utf8(out).unwrap(),
        "HTTP/1.1 418 I'm a teapot\r\nB: 3\r\nA: 2\r\nContent-Length: 3\r\n\r\ntea"
    );
}

#[test]
fn internal_error_carries_its_body() {
    let request = create_request(s("GET / HTTP/1.1\r\n\r\n"));
    let mut response = create_response();
    let out = response.internal_server_error(request, Some(s("oops")));
    assert_eq!(
        String::from_utf8(out).unwrap(),
        "HTTP/1.1 500 Internal Server Error\r\nContent-Length: 4\r\n\r\noops"
    );
}

#[test]
fn server_directory_is_normalized() {
    assert_eq!(new_server(s("/tmp")).router().root_dir(), &Some(s("/tmp/")));
    assert_eq!(new_server(s("/tmp/")).router().root_dir(), &Some(s("/tmp/")));
    assert_eq!(new_server(s("")).router().root_dir(), &None);
}

#[test]
fn string_map_replaces_in_place() {
    let mut m = StringMap::new();
    m.insert(s("a"), s("1"));
    m.insert(s("b"), s("2"));
    m.insert(s("a"), s("3"));
    assert_eq!(m.len(), 2);
    assert_eq!(m.entry(0), (&s("a"), &s("3")));
    assert_eq!(m.get(&s("b")), Some(&s("2")));
    assert_eq!(m.get(&s("c")), None);
}

#[test]
fn write_out_records_the_length_of_the_bytes_given() {
    let mut response = create_response();
    response.set_body(Some(s("ignored here")));
    let out = response.write_out(Some(vec![1u8, 2, 3]));
    let mut expected = b"HTTP/1.1 200 OK\r\nContent-Length: 3\r\n\r\n".to_vec();
    expected.extend_from_slice(&[1, 2, 3]);
    assert_eq!(out, expected);

    let mut response = create_response();
    response.set_status_code(204);
    response.set_status_description(s("No Content"));
    assert_eq!(response.write_out(None), b"HTTP/1.1 204 No Content\r\n\r\n".to_vec());
}

#[test]
fn body_may_hold_blank_lines() {
    let raw = "POST / HTTP/1.1\r\nContent-Length: 8\r\n\r\nab\r\n\r\ncd";
    assert!(has_reached_request_end(s(raw)));
    assert!(is_request_complete(&s(raw)));
    assert_eq!(create_request(s(raw)).body, Some(s("ab\r\n\r\ncd")));
    assert_eq!(
        extract_body_from_request(s("GET / HTTP/1.1\r\n\r\n\r\n\r\n")),
        Some(s("\r\n\r\n"))
    );
}

#[test]
fn completion_is_kept_as_bytes_arrive() {
    let first = s("POST / HTTP/1.1\r\nContent-Length: 3\r\n\r\nab\r");
    assert!(is_request_complete(&first));
    let more = format!("{first}\n\r\n");
    assert!(is_request_complete(&more));
}

#[test]
fn gzip_encoding_is_deterministic() {
    assert_eq!(Gzip {}.encode(s("abc")), Gzip {}.encode(s("abc")));
}
