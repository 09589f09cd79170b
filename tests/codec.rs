use http_proxy::http::{
    body_length_of, response_body_length_of, should_keep_alive, HttpRequest, HttpResponse, ParseError,
};

fn s(x: &str) -> String {
    x.to_string()
}

fn pairs(list: &[(&str, &str)]) -> Vec<(String, String)> {
    list.iter().map(|(n, v)| (s(n), s(v))).collect()
}

fn sample_request() -> HttpRequest {
    HttpRequest {
        method: s("POST"),
        path: s("/api/users?id=7"),
        version: 1,
        headers: pairs(&[("Host", "example.com"), ("X-Tag", "a b"), ("X-Tag", "c"), ("Content-Length", "5")]),
        body: b"hello".to_vec(),
    }
}

#[test]
fn to_bytes_writes_start_line_headers_and_body() {
    let bytes = sample_request().to_bytes();
    assert_eq!(
        bytes,
        b"POST /api/users?id=7 HTTP/1.1\r\nHost: example.com\r\nX-Tag: a b\r\nX-Tag: c\r\nContent-Length: 5\r\n\r\nhello".to_vec()
    );
}

#[test]
fn to_bytes_adds_no_header() {
    let req = HttpRequest { method: s("GET"), path: s("/"), version: 0, headers: vec![], body: vec![] };
    assert_eq!(req.to_bytes(), b"GET / HTTP/1.0\r\n\r\n".to_vec());
}

#[test]
fn parse_of_serialized_request_gives_it_back() {
    let bytes = sample_request().to_bytes();
    let (req, n) = HttpRequest::parse(&bytes).unwrap();
    let want = sample_request();
    assert_eq!(n, bytes.len());
    assert_eq!(req.method, want.method);
    assert_eq!(req.path, want.path);
    assert_eq!(req.version, want.version);
    assert_eq!(req.headers, want.headers);
    assert_eq!(req.body, want.body);
}

#[test]
fn every_strict_prefix_is_incomplete() {
    let bytes = sample_request().to_bytes();
    for k in 0..bytes.len() {
        assert_eq!(HttpRequest::parse(&bytes[..k]).unwrap_err(), ParseError::Incomplete, "prefix {}", k);
    }
}

#[test]
fn parse_stops_after_content_length_bytes() {
    let buf = b"POST /u HTTP/1.1\r\nContent-Length: 5\r\n\r\nhelloGET";
    let (req, n) = HttpRequest::parse(buf).unwrap();
    assert_eq!(req.body, b"hello".to_vec());
    assert_eq!(n, buf.len() - 3);
}

#[test]
fn parse_without_content_length_has_empty_body() {
    let buf = b"GET /x HTTP/1.1\r\nHost: a\r\n\r\nrest";
    let (req, n) = HttpRequest::parse(buf).unwrap();
    assert!(req.body.is_empty());
    assert_eq!(n, buf.len() - 4);
    assert_eq!(req.headers, pairs(&[("Host", "a")]));
}

#[test]
fn first_content_length_counts_case_insensitively() {
    let buf = b"POST / HTTP/1.1\r\ncontent-LENGTH: 2\r\nContent-Length: 4\r\n\r\nabcd";
    let (req, n) = HttpRequest::parse(buf).unwrap();
    assert_eq!(req.body, b"ab".to_vec());
    assert_eq!(n, buf.len() - 2);
}

#[test]
fn unparsable_content_length_is_malformed() {
    let buf = b"POST / HTTP/1.1\r\nContent-Length: abc\r\n\r\n";
    assert_eq!(HttpRequest::parse(buf).unwrap_err(), ParseError::MalformedHeader);
    let buf = b"POST / HTTP/1.1\r\nContent-Length: -1\r\n\r\n";
    assert_eq!(HttpRequest::parse(buf).unwrap_err(), ParseError::MalformedHeader);
    let buf = b"POST / HTTP/1.1\r\nContent-Length: 99999999999999999999999\r\n\r\n";
    assert_eq!(HttpRequest::parse(buf).unwrap_err(), ParseError::MalformedHeader);
}

#[test]
fn chunked_body_is_unsupported() {
    let buf = b"POST / HTTP/1.1\r\nTransfer-Encoding: chunked\r\n\r\n0\r\n\r\n";
    assert_eq!(HttpRequest::parse(buf).unwrap_err(), ParseError::UnsupportedFraming);
}

#[test]
fn bad_start_line_is_malformed() {
    assert_eq!(HttpRequest::parse(b"GET /x HTTP/2.0\r\n\r\n").unwrap_err(), ParseError::MalformedStartLine);
    assert_eq!(HttpRequest::parse(b"G(T /x HTTP/1.1\r\n\r\n").unwrap_err(), ParseError::MalformedStartLine);
}

#[test]
fn header_without_colon_is_malformed() {
    assert_eq!(HttpRequest::parse(b"GET / HTTP/1.1\r\nHost a\r\n\r\n").unwrap_err(), ParseError::MalformedHeader);
}

#[test]
fn more_than_sixty_four_headers_are_refused() {
    let mut buf = b"GET / HTTP/1.1\r\n".to_vec();
    for i in 0..65 {
        buf.extend_from_slice(format!("X-{}: v\r\n", i).as_bytes());
    }
    buf.extend_from_slice(b"\r\n");
    assert_eq!(HttpRequest::parse(&buf).unwrap_err(), ParseError::TooManyHeaders);
}

#[test]
fn sixty_four_headers_are_accepted() {
    let mut buf = b"GET / HTTP/1.1\r\n".to_vec();
    for i in 0..64 {
        buf.extend_from_slice(format!("X-{}: v\r\n", i).as_bytes());
    }
    buf.extend_from_slice(b"\r\n");
    let (req, n) = HttpRequest::parse(&buf).unwrap();
    assert_eq!(req.headers.len(), 64);
    assert_eq!(n, buf.len());
}

#[test]
fn keep_alive_policy_cases() {
    assert!(should_keep_alive(1, &vec![]));
    assert!(!should_keep_alive(0, &vec![]));
    assert!(!should_keep_alive(1, &pairs(&[("Connection", "close")])));
    assert!(should_keep_alive(0, &pairs(&[("Connection", "keep-alive")])));
    assert!(!should_keep_alive(1, &pairs(&[("connection", "CLOSE")])));
    assert!(should_keep_alive(1, &pairs(&[("Connection", "upgrade")])));
}

#[test]
fn set_header_replaces_in_place_and_drops_duplicates() {
    let mut req = HttpRequest {
        method: s("GET"),
        path: s("/"),
        version: 1,
        headers: pairs(&[("Host", "a"), ("x-id", "1"), ("Accept", "*/*"), ("X-ID", "2")]),
        body: vec![],
    };
    req.set_header("X-Id", "9");
    assert_eq!(req.headers, pairs(&[("Host", "a"), ("x-id", "9"), ("Accept", "*/*")]));
}

#[test]
fn set_header_appends_when_absent() {
    let mut resp = HttpResponse { version: 1, code: 200, reason: s("OK"), headers: pairs(&[("Host", "a")]), body: vec![] };
    resp.set_header("Connection", "close");
    assert_eq!(resp.headers, pairs(&[("Host", "a"), ("Connection", "close")]));
}

#[test]
fn set_header_twice_is_set_header_once() {
    let mut once = sample_request();
    once.set_header("x-tag", "z");
    let mut twice = sample_request();
    twice.set_header("x-tag", "z");
    twice.set_header("x-tag", "z");
    assert_eq!(once.headers, twice.headers);
    assert_eq!(once.headers, pairs(&[("Host", "example.com"), ("X-Tag", "z"), ("Content-Length", "5")]));
}

#[test]
fn response_round_trip() {
    let resp = HttpResponse {
        version: 1,
        code: 404,
        reason: s("Not Found"),
        headers: pairs(&[("Content-Length", "3")]),
        body: b"nah".to_vec(),
    };
    let bytes = resp.to_bytes();
    assert_eq!(bytes, b"HTTP/1.1 404 Not Found\r\nContent-Length: 3\r\n\r\nnah".to_vec());
    let (back, n) = HttpResponse::parse(&bytes).unwrap();
    assert_eq!(n, bytes.len());
    assert_eq!((back.version, back.code, back.reason.as_str()), (1, 404, "Not Found"));
    assert_eq!(back.body, b"nah".to_vec());
    for k in 0..bytes.len() {
        assert_eq!(HttpResponse::parse(&bytes[..k]).unwrap_err(), ParseError::Incomplete);
    }
}

#[test]
fn close_delimited_response_is_unsupported() {
    assert_eq!(HttpResponse::parse(b"HTTP/1.0 200 OK\r\n\r\nbody").unwrap_err(), ParseError::UnsupportedFraming);
    assert_eq!(
        HttpResponse::parse(b"HTTP/1.1 200 OK\r\nConnection: close\r\n\r\nbody").unwrap_err(),
        ParseError::UnsupportedFraming
    );
    let (resp, n) = HttpResponse::parse(b"HTTP/1.1 204 No Content\r\n\r\n").unwrap();
    assert_eq!((resp.code, resp.body.len(), n), (204, 0, 27));
}

#[test]
fn bad_status_line_is_malformed() {
    assert_eq!(HttpResponse::parse(b"HTTP/1.1 2x0 OK\r\n\r\n").unwrap_err(), ParseError::MalformedStartLine);
}

#[test]
fn take_body_reads_announced_bytes_after_head() {
    let head = HttpRequest {
        method: s("PUT"),
        path: s("/f"),
        version: 1,
        headers: pairs(&[("Content-Length", "3")]),
        body: vec![],
    };
    let (req, n) = head.take_body(2, b"..abcdef").unwrap();
    assert_eq!((req.body, n), (b"abc".to_vec(), 5));
    let short = HttpRequest { method: s("PUT"), path: s("/f"), version: 1, headers: pairs(&[("Content-Length", "3")]), body: vec![] };
    assert_eq!(short.take_body(2, b"..ab").unwrap_err(), ParseError::Incomplete);
}

#[test]
fn body_lengths_follow_the_headers() {
    assert_eq!(body_length_of(&pairs(&[("Content-Length", "42")])), Ok(42));
    assert_eq!(body_length_of(&vec![]), Ok(0));
    assert_eq!(body_length_of(&pairs(&[("Content-Length", "4x")])), Err(ParseError::MalformedHeader));
    assert_eq!(response_body_length_of(1, &vec![]), Ok(0));
    assert_eq!(response_body_length_of(0, &vec![]), Err(ParseError::UnsupportedFraming));
    assert_eq!(response_body_length_of(0, &pairs(&[("Content-Length", "7")])), Ok(7));
}
