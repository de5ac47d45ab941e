use docker_guard::forward::{
    forward_data, is_http_upgraded, request_body_step, request_head_step, response_body_step,
    response_head_step, LegBodyOutcome, ReqHeadOutcome, ResHeadOutcome,
};
use docker_guard::errors::ErrorKind;
use docker_guard::http::Http;
use docker_guard::policy::{install_reference_policy, Config, FilterKind};
use docker_guard::upstream::UpstreamAddr;

fn test_config(env: Vec<Vec<u8>>) -> Config {
    let mut config = Config::new(UpstreamAddr::Unix(b"/var/run/docker.sock".to_vec()), env);
    install_reference_policy(&mut config).unwrap();
    config
}

fn run_request_leg(config: &Config, buf: &Vec<u8>) -> (Http, FilterKind, Vec<u8>, Vec<u8>) {
    match request_head_step(config, buf, false).unwrap() {
        ReqHeadOutcome::Allowed { http, filter, out, consumed, log, .. } => {
            let mut sent = out;
            match request_body_step(&http, buf, consumed, true).unwrap() {
                LegBodyOutcome::Done { out, suppressed, .. } => {
                    assert!(!suppressed);
                    sent.extend_from_slice(&out);
                }
                LegBodyOutcome::NeedMore => panic!("request body incomplete"),
            }
            (http, filter, sent, log)
        }
        ReqHeadOutcome::Deny { .. } => panic!("request denied"),
        ReqHeadOutcome::NeedMore => panic!("request head incomplete"),
    }
}

fn run_response_leg(
    config: &Config,
    filter: FilterKind,
    req: &Http,
    buf: &Vec<u8>,
) -> (Http, Vec<u8>, bool) {
    match response_head_step(buf, false).unwrap() {
        ResHeadOutcome::Proceed { http, out, consumed, .. } => {
            let mut sent = out;
            let req_head = req.req().unwrap();
            match response_body_step(config, filter, req_head, &http, buf, consumed, true).unwrap()
            {
                LegBodyOutcome::Done { out, suppressed, .. } => {
                    sent.extend_from_slice(&out);
                    (http, sent, suppressed)
                }
                LegBodyOutcome::NeedMore => panic!("response body incomplete"),
            }
        }
        ResHeadOutcome::NeedMore => panic!("response head incomplete"),
    }
}

#[test]
fn ping_passthrough_roundtrip() {
    let config = test_config(vec![]);
    let req_bytes = b"GET /_ping HTTP/1.1\r\nHost: d\r\n\r\n".to_vec();
    let (req, filter, sent_upstream, log) = run_request_leg(&config, &req_bytes);
    assert_eq!(filter, FilterKind::PassThrough);
    assert_eq!(log, b"Allow: GET /_ping".to_vec());
    let sent = String::from_utf8(sent_upstream).unwrap();
    assert!(sent.starts_with("GET /_ping HTTP/1.1\r\n"));
    assert!(sent.contains("Host: d\r\n"));
    assert!(sent.ends_with("\r\n\r\n"));

    let res_bytes = b"HTTP/1.1 200 OK\r\nContent-Length: 2\r\n\r\nOK".to_vec();
    let (res, to_client, suppressed) = run_response_leg(&config, filter, &req, &res_bytes);
    assert!(!suppressed);
    assert_eq!(to_client, b"HTTP/1.1 200 OK\r\nContent-Length: 2\r\n\r\nOK".to_vec());
    assert!(!is_http_upgraded(&req, &res).unwrap());
}

#[test]
fn denied_path_sends_nothing() {
    let config = test_config(vec![]);
    let req_bytes = b"POST /containers/create HTTP/1.1\r\nHost: d\r\nContent-Length: 4\r\n\r\nbody"
        .to_vec();
    match request_head_step(&config, &req_bytes, false).unwrap() {
        ReqHeadOutcome::Deny { out, log } => {
            assert!(out.is_empty());
            assert_eq!(log, b"Deny: POST /containers/create".to_vec());
        }
        _ => panic!("expected a deny"),
    }
}

#[test]
fn chunked_streaming() {
    let config = test_config(vec![]);
    let req_bytes = b"GET /_ping HTTP/1.1\r\nHost: d\r\n\r\n".to_vec();
    let (req, filter, _, _) = run_request_leg(&config, &req_bytes);

    let res_bytes =
        b"HTTP/1.1 200 OK\r\nTransfer-Encoding: chunked\r\n\r\n5\r\nhello\r\n6\r\n world\r\n0\r\n\r\n"
            .to_vec();
    match response_head_step(&res_bytes, false).unwrap() {
        ResHeadOutcome::Proceed { http, chunked, out, consumed } => {
            assert!(chunked);
            // the head goes out before the body is read
            assert_eq!(
                out,
                b"HTTP/1.1 200 OK\r\nTransfer-Encoding: chunked\r\n\r\n".to_vec()
            );
            let req_head = req.req().unwrap();
            match response_body_step(&config, filter, req_head, &http, &res_bytes, consumed, true)
                .unwrap()
            {
                LegBodyOutcome::Done { out, suppressed, .. } => {
                    assert!(!suppressed);
                    // one data chunk holding the reassembled payload, then the zero chunk
                    assert_eq!(out, b"b\r\nhello world\r\n0\r\n\r\n".to_vec());
                }
                LegBodyOutcome::NeedMore => panic!("incomplete"),
            }
        }
        ResHeadOutcome::NeedMore => panic!("incomplete head"),
    }
}

#[test]
fn chunked_head_needs_more_bytes() {
    let config = test_config(vec![]);
    let partial = b"GET /_ping HTTP/1.1\r\nHost".to_vec();
    match request_head_step(&config, &partial, false).unwrap() {
        ReqHeadOutcome::NeedMore => {}
        _ => panic!("expected a request for more bytes"),
    }
}

#[test]
fn eof_before_terminator_is_protocol_error() {
    let config = test_config(vec![]);
    let partial = b"GET /_ping HTTP/1.1\r\nHost".to_vec();
    let err = request_head_step(&config, &partial, true).unwrap_err();
    assert_eq!(err.kind, ErrorKind::Protocol);
}

#[test]
fn unsupported_transfer_encoding() {
    let config = test_config(vec![]);
    let req_bytes = b"GET /_ping HTTP/1.1\r\nHost: d\r\n\r\n".to_vec();
    let (req, filter, _, _) = run_request_leg(&config, &req_bytes);
    let res_bytes = b"HTTP/1.1 200 OK\r\nTransfer-Encoding: gzip\r\n\r\n".to_vec();
    match response_head_step(&res_bytes, false).unwrap() {
        ResHeadOutcome::Proceed { http, consumed, .. } => {
            let req_head = req.req().unwrap();
            let err = response_body_step(
                &config,
                filter,
                req_head,
                &http,
                &res_bytes,
                consumed,
                true,
            )
            .unwrap_err();
            assert_eq!(err.kind, ErrorKind::UnsupportedFraming);
        }
        ResHeadOutcome::NeedMore => panic!("incomplete head"),
    }
}

#[test]
fn malformed_chunk_size_is_protocol_error() {
    let config = test_config(vec![]);
    let req_bytes = b"GET /_ping HTTP/1.1\r\nHost: d\r\n\r\n".to_vec();
    let (req, filter, _, _) = run_request_leg(&config, &req_bytes);
    let res_bytes =
        b"HTTP/1.1 200 OK\r\nTransfer-Encoding: chunked\r\n\r\nxyz\r\nhello\r\n0\r\n\r\n".to_vec();
    match response_head_step(&res_bytes, false).unwrap() {
        ResHeadOutcome::Proceed { http, consumed, .. } => {
            let req_head = req.req().unwrap();
            let err = response_body_step(
                &config,
                filter,
                req_head,
                &http,
                &res_bytes,
                consumed,
                true,
            )
            .unwrap_err();
            assert_eq!(err.kind, ErrorKind::Protocol);
        }
        ResHeadOutcome::NeedMore => panic!("incomplete head"),
    }
}

#[test]
fn request_expected_on_request_leg() {
    let config = test_config(vec![]);
    let res_bytes = b"HTTP/1.1 200 OK\r\nContent-Length: 0\r\n\r\n".to_vec();
    let err = request_head_step(&config, &res_bytes, false).unwrap_err();
    assert_eq!(err.kind, ErrorKind::Protocol);
}

#[test]
fn response_expected_on_response_leg() {
    let req_bytes = b"GET /_ping HTTP/1.1\r\n\r\n".to_vec();
    let err = response_head_step(&req_bytes, false).unwrap_err();
    assert_eq!(err.kind, ErrorKind::Protocol);
}

#[test]
fn upgrade_detection() {
    let config = test_config(vec![]);
    let req_bytes =
        b"GET /_ping HTTP/1.1\r\nConnection: Upgrade\r\nUpgrade: tcp\r\n\r\n".to_vec();
    let (req, filter, _, _) = run_request_leg(&config, &req_bytes);
    let res_bytes = b"HTTP/1.1 101 Switching Protocols\r\nContent-Length: 0\r\n\r\n".to_vec();
    let (res, _, _) = run_response_leg(&config, filter, &req, &res_bytes);
    assert!(is_http_upgraded(&req, &res).unwrap());

    let res2_bytes = b"HTTP/1.1 200 OK\r\nContent-Length: 0\r\n\r\n".to_vec();
    let (res2, _, _) = run_response_leg(&config, filter, &req, &res2_bytes);
    assert!(!is_http_upgraded(&req, &res2).unwrap());
}

#[test]
fn tunnel_copies_bytes_and_reports_closure() {
    let mut out = Vec::new();
    let n = forward_data(b"abc", &mut out);
    assert_eq!(n, 3);
    assert_eq!(out, b"abc".to_vec());
    let n = forward_data(b"", &mut out);
    assert_eq!(n, 0);
    assert_eq!(out, b"abc".to_vec());
}
