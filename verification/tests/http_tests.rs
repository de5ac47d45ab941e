use docker_guard::body::{
    body_framing, read_http_content, write_http_content_chunked, write_http_headers, BodyOutcome,
    Framing,
};
use docker_guard::errors::{log_error_chain, ErrorKind, ProxyError};
use docker_guard::http::{find_in_headers, parse_http, read_until, Http};
use docker_guard::num::{format_dec, format_hex, parse_dec, parse_hex};

#[test]
fn parse_request_head() {
    let head = b"GET /v1.37/containers/json?all=1 HTTP/1.1\r\nHost: d\r\nAccept: */*\r\n\r\n"
        .to_vec();
    match parse_http(&head).unwrap() {
        Http::Req(q) => {
            assert_eq!(q.method, b"GET".to_vec());
            assert_eq!(q.path, b"/v1.37/containers/json?all=1".to_vec());
            assert_eq!(q.version, 1);
            assert_eq!(q.headers.len(), 2);
            assert_eq!(q.headers[0].name, b"Host".to_vec());
            assert_eq!(q.headers[0].value, b"d".to_vec());
        }
        Http::Res(_) => panic!("expected a request"),
    }
}

#[test]
fn parse_response_head() {
    let head = b"HTTP/1.0 404 Not Found\r\nContent-Type: text/plain\r\n\r\n".to_vec();
    match parse_http(&head).unwrap() {
        Http::Res(p) => {
            assert_eq!(p.version, 0);
            assert_eq!(p.code, 404);
            assert_eq!(p.reason, b"Not Found".to_vec());
            assert_eq!(p.headers.len(), 1);
        }
        Http::Req(_) => panic!("expected a response"),
    }
}

#[test]
fn parse_response_without_reason() {
    let head = b"HTTP/1.1 204\r\n\r\n".to_vec();
    match parse_http(&head).unwrap() {
        Http::Res(p) => {
            assert_eq!(p.code, 204);
            assert!(p.reason.is_empty());
        }
        Http::Req(_) => panic!("expected a response"),
    }
}

#[test]
fn parse_trims_header_value_blanks() {
    let head = b"GET / HTTP/1.1\r\nX-Pad:   v a l  \r\n\r\n".to_vec();
    match parse_http(&head).unwrap() {
        Http::Req(q) => {
            assert_eq!(q.headers[0].value, b"v a l".to_vec());
        }
        Http::Res(_) => panic!("expected a request"),
    }
}

#[test]
fn parse_rejects_garbage() {
    let head = b"NOT AN HTTP HEAD AT ALL\r\n\r\n".to_vec();
    let err = parse_http(&head).unwrap_err();
    assert_eq!(err.kind, ErrorKind::Protocol);
}

#[test]
fn read_until_finds_least_prefix() {
    let buf = b"aa\r\n\r\nbb\r\n\r\n".to_vec();
    let pat = b"\r\n\r\n".to_vec();
    assert_eq!(read_until(&buf, &pat), Some(6));
    let none = b"aa\r\nbb".to_vec();
    assert_eq!(read_until(&none, &pat), None);
}

#[test]
fn find_in_headers_takes_first_match() {
    let head = b"GET / HTTP/1.1\r\nX-A: one\r\nX-A: two\r\nX-B: three\r\n\r\n".to_vec();
    let http = parse_http(&head).unwrap();
    let v = find_in_headers(http.headers(), b"X-A").unwrap();
    assert_eq!(*v, b"one".to_vec());
    assert!(find_in_headers(http.headers(), b"X-C").is_none());
}

#[test]
fn framing_selection() {
    let chunked = parse_http(&b"HTTP/1.1 200 OK\r\nTransfer-Encoding: chunked\r\n\r\n".to_vec())
        .unwrap();
    assert_eq!(body_framing(&chunked).unwrap(), Framing::Chunked);

    let gzip = parse_http(&b"HTTP/1.1 200 OK\r\nTransfer-Encoding: gzip\r\n\r\n".to_vec())
        .unwrap();
    let err = body_framing(&gzip).unwrap_err();
    assert_eq!(err.kind, ErrorKind::UnsupportedFraming);
    assert_eq!(err.messages[0], "Transfer-Encoding `gzip` is not supported");

    let sized = parse_http(&b"HTTP/1.1 200 OK\r\nContent-Length: 12\r\n\r\n".to_vec()).unwrap();
    assert_eq!(body_framing(&sized).unwrap(), Framing::Length(12));

    let bad = parse_http(&b"HTTP/1.1 200 OK\r\nContent-Length: nope\r\n\r\n".to_vec()).unwrap();
    assert_eq!(body_framing(&bad).unwrap(), Framing::Empty);

    let none = parse_http(&b"HTTP/1.1 200 OK\r\nHost: d\r\n\r\n".to_vec()).unwrap();
    assert_eq!(body_framing(&none).unwrap(), Framing::Empty);
}

#[test]
fn identity_body_needs_exact_length() {
    let head = parse_http(&b"HTTP/1.1 200 OK\r\nContent-Length: 5\r\n\r\n".to_vec()).unwrap();
    let buf = b"hello trailing".to_vec();
    match read_http_content(&head, &buf, 0, false).unwrap() {
        BodyOutcome::Done { content, consumed } => {
            assert_eq!(content, b"hello".to_vec());
            assert_eq!(consumed, 5);
        }
        BodyOutcome::NeedMore => panic!("expected a complete body"),
    }
    let short = b"hel".to_vec();
    match read_http_content(&head, &short, 0, false).unwrap() {
        BodyOutcome::NeedMore => {}
        _ => panic!("expected a request for more bytes"),
    }
    let err = read_http_content(&head, &short, 0, true).unwrap_err();
    assert_eq!(err.kind, ErrorKind::Protocol);
}

#[test]
fn chunked_body_reassembly() {
    let head = parse_http(&b"HTTP/1.1 200 OK\r\nTransfer-Encoding: chunked\r\n\r\n".to_vec())
        .unwrap();
    let buf = b"4\r\nwiki\r\n5\r\npedia\r\n0\r\n\r\nrest".to_vec();
    match read_http_content(&head, &buf, 0, false).unwrap() {
        BodyOutcome::Done { content, consumed } => {
            assert_eq!(content, b"wikipedia".to_vec());
            assert_eq!(consumed, buf.len() - 4);
        }
        BodyOutcome::NeedMore => panic!("expected a complete body"),
    }
}

#[test]
fn chunked_missing_crlf_is_malformed() {
    let head = parse_http(&b"HTTP/1.1 200 OK\r\nTransfer-Encoding: chunked\r\n\r\n".to_vec())
        .unwrap();
    let buf = b"4\r\nwikiXX0\r\n\r\n".to_vec();
    let err = read_http_content(&head, &buf, 0, true).unwrap_err();
    assert_eq!(err.kind, ErrorKind::Protocol);
}

#[test]
fn head_emission_rewrites_framing() {
    let head = parse_http(
        &b"HTTP/1.1 200 OK\r\nContent-Length: 99\r\nX-K: v\r\nTransfer-Encoding: chunked\r\n\r\n"
            .to_vec(),
    )
    .unwrap();
    let mut out = Vec::new();
    write_http_headers(&mut out, &head, Some(5));
    assert_eq!(
        out,
        b"HTTP/1.1 200 OK\r\nX-K: v\r\nContent-Length: 5\r\n\r\n".to_vec()
    );

    let mut out = Vec::new();
    write_http_headers(&mut out, &head, Some(0));
    assert_eq!(out, b"HTTP/1.1 200 OK\r\nX-K: v\r\n\r\n".to_vec());

    let mut out = Vec::new();
    write_http_headers(&mut out, &head, None);
    assert_eq!(
        out,
        b"HTTP/1.1 200 OK\r\nX-K: v\r\nTransfer-Encoding: chunked\r\n\r\n".to_vec()
    );
}

#[test]
fn chunked_emission_hex_sizes() {
    let mut out = Vec::new();
    let content: Vec<u8> = vec![120; 255];
    write_http_content_chunked(&mut out, &content);
    assert!(out.starts_with(b"ff\r\n"));
    assert!(out.ends_with(b"\r\n0\r\n\r\n"));
    assert_eq!(out.len(), 2 + 2 + 255 + 2 + 5);

    let mut empty_out = Vec::new();
    write_http_content_chunked(&mut empty_out, &[]);
    assert_eq!(empty_out, b"0\r\n\r\n".to_vec());
}

#[test]
fn numeral_roundtrips() {
    assert_eq!(format_dec(0), b"0".to_vec());
    assert_eq!(format_dec(2375), b"2375".to_vec());
    assert_eq!(format_hex(11), b"b".to_vec());
    assert_eq!(format_hex(255), b"ff".to_vec());
    assert_eq!(parse_dec(b"2375"), Some(2375));
    assert_eq!(parse_dec(b""), None);
    assert_eq!(parse_dec(b"12a"), None);
    assert_eq!(parse_hex(b"ff"), Some(255));
    assert_eq!(parse_hex(b"FF"), Some(255));
    assert_eq!(parse_hex(b"0"), Some(0));
    assert_eq!(parse_hex(b"g"), None);
}

#[test]
fn error_chain_lines() {
    let err = ProxyError::new(ErrorKind::Protocol, "Not an HTTP request")
        .wrap("HTTP request was expected");
    let lines = log_error_chain(&err);
    assert_eq!(lines.len(), 2);
    assert_eq!(lines[0], "Error: HTTP request was expected");
    assert_eq!(lines[1], "Caused by: Not an HTTP request");
}
