use minihttp::handler::{plan, Plan, file_read_response, file_write_response, join_path};
use minihttp::request::parse_request;
use std::io::Read;

fn respond_bytes(buf: &[u8]) -> Vec<u8> {
    match plan(buf) {
        Plan::Respond(r) => r,
        _ => panic!("expected a finished response"),
    }
}

fn split_response(resp: &[u8]) -> (&[u8], &[u8]) {
    for i in 0..resp.len().saturating_sub(3) {
        if &resp[i..i + 4] == b"\r\n\r\n" {
            return (&resp[..i + 4], &resp[i + 4..]);
        }
    }
    panic!("no header terminator in response");
}

fn contains(haystack: &[u8], needle: &[u8]) -> bool {
    haystack.windows(needle.len()).any(|w| w == needle)
}

#[test]
fn get_root_yields_200_empty_body() {
    let resp = respond_bytes(b"GET / HTTP/1.1\r\nHost: localhost\r\n\r\n");
    assert_eq!(resp, b"HTTP/1.1 200 OK\r\n\r\n".to_vec());
}

#[test]
fn echo_plain_yields_exact_frame() {
    let resp = respond_bytes(b"GET /echo/abc123 HTTP/1.1\r\nHost: localhost\r\n\r\n");
    assert_eq!(
        resp,
        b"HTTP/1.1 200 OK\r\nContent-Type: text/plain\r\nContent-Length: 6\r\n\r\nabc123".to_vec()
    );
}

#[test]
fn echo_gzip_decompresses_to_value() {
    let resp = respond_bytes(
        b"GET /echo/abc123 HTTP/1.1\r\nHost: localhost\r\nAccept-Encoding: gzip\r\n\r\n",
    );
    let (headers, body) = split_response(&resp);
    assert!(headers.starts_with(b"HTTP/1.1 200 OK\r\n"));
    assert!(contains(headers, b"Content-Encoding: gzip\r\n"));
    let expected_len = format!("Content-Length: {}\r\n", body.len());
    assert!(contains(headers, expected_len.as_bytes()));
    assert_ne!(body, b"abc123", "the body must actually be compressed");
    let mut decoder = flate2::read::GzDecoder::new(body);
    let mut decompressed = Vec::new();
    decoder.read_to_end(&mut decompressed).unwrap();
    assert_eq!(decompressed, b"abc123".to_vec());
}

#[test]
fn post_then_get_file_round_trip() {
    let post = plan(b"POST /files/test.txt HTTP/1.1\r\nContent-Length: 5\r\n\r\nhello");
    let (name, body, close) = match post {
        Plan::FileWrite { name, body, close } => (name, body, close),
        _ => panic!("expected a file write"),
    };
    assert_eq!(name, b"test.txt".to_vec());
    assert_eq!(body, b"hello".to_vec());
    let created = file_write_response(true, close);
    assert_eq!(created, b"HTTP/1.1 201 Created\r\n\r\n".to_vec());

    let get = plan(b"GET /files/test.txt HTTP/1.1\r\n\r\n");
    let read_name = match get {
        Plan::FileRead { name, close: false } => name,
        _ => panic!("expected a file read"),
    };
    assert_eq!(read_name, b"test.txt".to_vec());
    let ok = file_read_response(Some(&body), false);
    assert_eq!(
        ok,
        b"HTTP/1.1 200 OK\r\nContent-Type: application/octet-stream\r\nContent-Length: 5\r\n\r\nhello"
            .to_vec()
    );
}

#[test]
fn missing_file_yields_404_empty_body() {
    let get = plan(b"GET /files/does-not-exist HTTP/1.1\r\n\r\n");
    match get {
        Plan::FileRead { name, close } => {
            assert_eq!(name, b"does-not-exist".to_vec());
            assert!(!close);
        }
        _ => panic!("expected a file read"),
    }
    let resp = file_read_response(None, false);
    assert_eq!(resp, b"HTTP/1.1 404 Not Found\r\n\r\n".to_vec());
}

#[test]
fn failed_write_yields_500_empty_body() {
    let resp = file_write_response(false, false);
    assert_eq!(resp, b"HTTP/1.1 500 Internal Server Error\r\n\r\n".to_vec());
}

#[test]
fn unknown_route_yields_404_regardless_of_method() {
    for req in [
        b"GET /unknown/route HTTP/1.1\r\n\r\n".to_vec(),
        b"DELETE /unknown/route HTTP/1.1\r\n\r\n".to_vec(),
        b"PUT / HTTP/1.1\r\n\r\n".to_vec(),
        b"POST /echo/abc HTTP/1.1\r\n\r\n".to_vec(),
    ] {
        let resp = respond_bytes(&req);
        assert_eq!(resp, b"HTTP/1.1 404 Not Found\r\n\r\n".to_vec());
    }
}

#[test]
fn repeated_post_plans_identically() {
    let req = b"POST /files/x HTTP/1.1\r\nContent-Length: 4\r\n\r\ndata";
    let first = plan(req);
    let second = plan(req);
    let (n1, b1) = match first {
        Plan::FileWrite { name, body, .. } => (name, body),
        _ => panic!("expected a file write"),
    };
    let (n2, b2) = match second {
        Plan::FileWrite { name, body, .. } => (name, body),
        _ => panic!("expected a file write"),
    };
    assert_eq!(n1, n2);
    assert_eq!(b1, b2);
    assert_eq!(file_write_response(true, false), file_write_response(true, false));
    assert_eq!(file_write_response(true, false), b"HTTP/1.1 201 Created\r\n\r\n".to_vec());
}

#[test]
fn connection_close_header_is_echoed() {
    let resp = respond_bytes(b"GET / HTTP/1.1\r\nConnection: close\r\n\r\n");
    assert_eq!(resp, b"HTTP/1.1 200 OK\r\nConnection: close\r\n\r\n".to_vec());
    let resp = respond_bytes(b"GET /echo/hi HTTP/1.1\r\nCONNECTION: CLOSE\r\n\r\n");
    assert!(contains(&resp, b"Connection: close\r\n"));
    let resp = respond_bytes(b"GET / HTTP/1.1\r\n\r\n");
    assert!(!contains(&resp, b"Connection: close\r\n"));
    let resp = file_read_response(None, true);
    assert_eq!(resp, b"HTTP/1.1 404 Not Found\r\nConnection: close\r\n\r\n".to_vec());
}

#[test]
fn user_agent_is_extracted_and_trimmed() {
    let resp = respond_bytes(b"GET /user-agent HTTP/1.1\r\nUser-Agent:  foobar/1.2.3 \r\n\r\n");
    assert_eq!(
        resp,
        b"HTTP/1.1 200 OK\r\nContent-Type: text/plain\r\nContent-Length: 12\r\n\r\nfoobar/1.2.3"
            .to_vec()
    );
}

#[test]
fn missing_user_agent_yields_empty_value() {
    let resp = respond_bytes(b"GET /user-agent HTTP/1.1\r\n\r\n");
    assert_eq!(
        resp,
        b"HTTP/1.1 200 OK\r\nContent-Type: text/plain\r\nContent-Length: 0\r\n\r\n".to_vec()
    );
}

#[test]
fn body_is_truncated_to_available_bytes() {
    let req = parse_request(b"POST /files/a HTTP/1.1\r\nContent-Length: 100\r\n\r\nabc");
    assert_eq!(req.body, b"abc".to_vec());
    assert_eq!(req.content_length, 100);
}

#[test]
fn body_is_truncated_to_declared_length() {
    let req = parse_request(b"POST /files/a HTTP/1.1\r\nContent-Length: 3\r\n\r\nabcdef");
    assert_eq!(req.body, b"abc".to_vec());
}

#[test]
fn unparsable_content_length_defaults_to_zero() {
    let req = parse_request(b"POST /files/a HTTP/1.1\r\nContent-Length: ten\r\n\r\nabcdef");
    assert_eq!(req.content_length, 0);
    assert_eq!(req.body, b"".to_vec());
}

#[test]
fn content_length_accepts_a_leading_plus_sign() {
    let req = parse_request(b"POST /files/a HTTP/1.1\r\nContent-Length: +3\r\n\r\nabcdef");
    assert_eq!(req.content_length, 3);
    assert_eq!(req.body, b"abc".to_vec());
}

#[test]
fn overflowing_content_length_defaults_to_zero() {
    let req = parse_request(
        b"POST /files/a HTTP/1.1\r\nContent-Length: 99999999999999999999999999\r\n\r\nabc",
    );
    assert_eq!(req.content_length, 0);
    assert_eq!(req.body, b"".to_vec());
}

#[test]
fn only_the_first_content_length_line_counts() {
    let req = parse_request(
        b"POST /files/a HTTP/1.1\r\nContent-Length: bad\r\nContent-Length: 3\r\n\r\nabcdef",
    );
    assert_eq!(req.content_length, 0);
}

#[test]
fn missing_tokens_default_to_empty_method_and_root_path() {
    let req = parse_request(b"");
    assert_eq!(req.method, b"".to_vec());
    assert_eq!(req.path, b"/".to_vec());
    assert!(!req.wants_close);
    assert!(!req.wants_gzip);
    let resp = respond_bytes(b"");
    assert_eq!(resp, b"HTTP/1.1 404 Not Found\r\n\r\n".to_vec());
}

#[test]
fn empty_echo_value_is_allowed() {
    let resp = respond_bytes(b"GET /echo/ HTTP/1.1\r\n\r\n");
    assert_eq!(
        resp,
        b"HTTP/1.1 200 OK\r\nContent-Type: text/plain\r\nContent-Length: 0\r\n\r\n".to_vec()
    );
}

#[test]
fn accept_encoding_is_matched_case_insensitively() {
    let resp = respond_bytes(b"GET /echo/zz HTTP/1.1\r\nACCEPT-ENCODING: GZIP\r\n\r\n");
    let (headers, _) = split_response(&resp);
    assert!(contains(headers, b"Content-Encoding: gzip\r\n"));
}

#[test]
fn join_path_places_one_separator() {
    assert_eq!(join_path(b"/tmp/store", b"a.txt"), b"/tmp/store/a.txt".to_vec());
    assert_eq!(join_path(b"", b"a.txt"), b"/a.txt".to_vec());
}
