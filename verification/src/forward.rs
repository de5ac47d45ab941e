//! The forwarder: one leg of an exchange as pure decision steps.  The
//! caller reads bytes from one socket into a buffer, hands it in, and
//! writes out exactly the bytes a step returns; every decision in
//! between — policy, framing, filtering, re-emission — is made and
//! verified here.
//!
//! A leg runs in two steps.  The head step consumes the head: it can
//! ask for more bytes, deny (request leg), or proceed, handing back the
//! head bytes to send at once when the body is chunked (so the peer
//! sees the head before a long-lived body arrives).  The body step
//! consumes the body and returns the remaining bytes to send.

use vstd::prelude::*;
use vstd::string::StringSliceAdditionalSpecFns;

use crate::body::{
    read_http_content, spec_chunked_bytes, spec_framing, spec_head_bytes, spec_parse_chunks,
    spec_te, spec_version_ok, write_http_content, write_http_content_chunked, write_http_headers,
    BodyOutcome, Framing, SpecChunkResult,
};
use crate::bytes::{bytes_eq, copy_range, push_all, push_str_bytes, str_bytes};
use crate::errors::{ErrorKind, ProxyError};
use crate::filters::{apply_filter, json_valid, spec_filter_output, Decision};
use crate::http::{
    ends_with_at, find_in_headers, parse_http, read_until, spec_find_header, spec_headers_of,
    spec_parse_http, Http, Request, SpecHttp,
};
use crate::policy::{re_matches, spec_match_at, Config, FilterKind};

verus! {

/// The head terminator.
pub open spec fn spec_term() -> Seq<u8> {
    seq![13u8, 10u8, 13u8, 10u8]
}

/// Where the head ends: the least prefix of `s` ending with CRLFCRLF,
/// if any prefix does.
pub open spec fn spec_head_split(s: Seq<u8>) -> Option<int> {
    if exists|i: int|
        ends_with_at(s, spec_term(), i) && (forall|j: int|
            0 <= j < i ==> !ends_with_at(s, spec_term(), j)) {
        Some(
            choose|i: int|
                ends_with_at(s, spec_term(), i) && (forall|j: int|
                    0 <= j < i ==> !ends_with_at(s, spec_term(), j)),
        )
    } else {
        None
    }
}

/// One `Allow:` or `Deny:` log line.
pub open spec fn spec_decision_line(allow: bool, method: Seq<u8>, path: Seq<u8>) -> Seq<u8> {
    (if allow {
        "Allow: ".spec_bytes()
    } else {
        "Deny: ".spec_bytes()
    }) + method + seq![32u8] + path
}

fn decision_line(allow: bool, method: &[u8], path: &[u8]) -> (r: Vec<u8>)
    ensures
        r@ == spec_decision_line(allow, method@, path@),
{
    let mut out: Vec<u8> = Vec::new();
    if allow {
        push_str_bytes(&mut out, "Allow: ");
    } else {
        push_str_bytes(&mut out, "Deny: ");
    }
    push_all(&mut out, method);
    out.push(32);
    push_all(&mut out, path);
    assert(out@ =~= spec_decision_line(allow, method@, path@));
    out
}

/// Whether the head declares `Transfer-Encoding: chunked`.
pub open spec fn spec_is_chunked(h: SpecHttp) -> bool {
    spec_te(h) == Some("chunked".spec_bytes())
}

fn is_chunked(h: &Http) -> (r: bool)
    ensures
        r == spec_is_chunked(h@),
{
    let te_name = str_bytes("Transfer-Encoding");
    match find_in_headers(h.headers(), te_name.as_slice()) {
        Some(v) => {
            let chunked = str_bytes("chunked");
            bytes_eq(v.as_slice(), chunked.as_slice())
        },
        None => false,
    }
}

/// Every head the parser accepts can be re-emitted: its version is one
/// digit.
pub proof fn lemma_parse_version_ok(s: Seq<u8>)
    ensures
        spec_parse_http(s) matches Some(h) ==> spec_version_ok(h),
{
    if spec_parse_http(s) is Some {
        if crate::http::spec_parse_response(s) is Some {
            let j = crate::http::spec_find_eol(s, 0);
            let line = s.subrange(0, j);
            assert(crate::num::is_dec_digit(line[7]));
        } else {
            let j = crate::http::spec_find_eol(s, 0);
            let line = s.subrange(0, j);
            let m = crate::http::spec_scan_tchar(line, 0);
            let p1 = crate::http::spec_scan_vchar(line, m + 1);
            assert(crate::num::is_dec_digit(line[p1 + 8]));
        }
    }
}

/// The outcome of the request-leg head step.
#[derive(Debug)]
pub enum ReqHeadOutcome {
    /// The head is not complete yet: read more and call again.
    NeedMore,
    /// The path is not allowed: close the client connection.  `out` is
    /// what may be sent — nothing — and `log` the `Deny:` line.
    Deny { out: Vec<u8>, log: Vec<u8> },
    /// The request is allowed.  `out` holds head bytes to send upstream
    /// at once (only in chunked framing), `consumed` where the body
    /// starts, `filter` the response filter the policy selected.
    Allowed { http: Http, filter: FilterKind, chunked: bool, out: Vec<u8>, consumed: usize, log: Vec<u8> },
}

/// Reads and screens the request head out of `buf`: parse, match the
/// path against the policy, and for a chunked request emit the
/// rewritten head at once.  A denied request produces no bytes at all.
pub fn request_head_step(config: &Config, buf: &Vec<u8>, eof: bool) -> (r: Result<
    ReqHeadOutcome,
    ProxyError,
>)
    ensures
        match spec_head_split(buf@) {
            None => if eof {
                r matches Err(e) && e.kind == ErrorKind::Protocol
            } else {
                r matches Ok(o) && o is NeedMore
            },
            Some(e) => match spec_parse_http(buf@.take(e)) {
                None => r matches Err(er) && er.kind == ErrorKind::Protocol,
                Some(SpecHttp::Res(_)) => r matches Err(er) && er.kind == ErrorKind::Protocol,
                Some(SpecHttp::Req(q)) => {
                    if forall|i: int|
                        0 <= i < config.spec_table().len() ==> !re_matches(
                            (#[trigger] config.spec_table()[i]).spec_pattern(),
                            q.path,
                        ) {
                        r matches Ok(o) && (o matches ReqHeadOutcome::Deny { out, log } ==> out@
                            == Seq::<u8>::empty() && log@ == spec_decision_line(
                            false,
                            q.method,
                            q.path,
                        )) && o is Deny
                    } else {
                        r matches Ok(o) && (o matches ReqHeadOutcome::Allowed {
                            http,
                            filter,
                            chunked,
                            out,
                            consumed,
                            log,
                        } ==> {
                            &&& http@ == SpecHttp::Req(q)
                            &&& chunked == spec_is_chunked(SpecHttp::Req(q))
                            &&& out@ == (if chunked {
                                spec_head_bytes(SpecHttp::Req(q), None)
                            } else {
                                Seq::<u8>::empty()
                            })
                            &&& consumed == e
                            &&& log@ == spec_decision_line(true, q.method, q.path)
                            &&& exists|i: int|
                                spec_match_at(config.spec_table(), q.path, i)
                                    && config.spec_table()[i].spec_filter() == filter
                        }) && o is Allowed
                    }
                },
            },
        },
{
    let mut term: Vec<u8> = Vec::new();
    term.push(13);
    term.push(10);
    term.push(13);
    term.push(10);
    assert(term@ =~= spec_term());
    match read_until(buf, &term) {
        None => {
            assert(spec_head_split(buf@) is None);
            if eof {
                Err(ProxyError::new(ErrorKind::Protocol, "Failed to read http header"))
            } else {
                Ok(ReqHeadOutcome::NeedMore)
            }
        },
        Some(e) => {
            assert(spec_head_split(buf@) == Some(e as int));
            let head = copy_range(buf, 0, e);
            assert(head@ == buf@.take(e as int));
            let http = match parse_http(&head) {
                Ok(h) => h,
                Err(er) => {
                    return Err(er);
                },
            };
            proof {
                lemma_parse_version_ok(head@);
            }
            let q = match http.req() {
                Ok(q) => q,
                Err(er) => {
                    return Err(er.wrap("HTTP request was expected"));
                },
            };
            let method = copy_range(&q.method, 0, q.method.len());
            let path = copy_range(&q.path, 0, q.path.len());
            proof {
                assert(method@ =~= q.method@);
                assert(path@ =~= q.path@);
            }
            match config.match_http_path(path.as_slice()) {
                None => {
                    let log = decision_line(false, method.as_slice(), path.as_slice());
                    Ok(ReqHeadOutcome::Deny { out: Vec::new(), log })
                },
                Some(filter) => {
                    let log = decision_line(true, method.as_slice(), path.as_slice());
                    let chunked = is_chunked(&http);
                    let mut out: Vec<u8> = Vec::new();
                    if chunked {
                        write_http_headers(&mut out, &http, None);
                    }
                    Ok(ReqHeadOutcome::Allowed { http, filter, chunked, out, consumed: e, log })
                },
            }
        },
    }
}

/// The outcome of a body step.
#[derive(Debug)]
pub enum LegBodyOutcome {
    /// The body is not complete yet: read more and call again.
    NeedMore,
    /// The leg is done: send `out`; `consumed` is the buffer position
    /// just past the body; `suppressed` says the filter withheld the
    /// body.
    Done { out: Vec<u8>, consumed: usize, suppressed: bool },
}

/// Reads the request body out of `buf[start..]` and emits it (request
/// bodies are never filtered): in chunked framing the body alone (the
/// head went out with the head step), otherwise the head with an exact
/// `Content-Length` followed by the body.
pub fn request_body_step(http: &Http, buf: &Vec<u8>, start: usize, eof: bool) -> (r: Result<
    LegBodyOutcome,
    ProxyError,
>)
    requires
        start <= buf@.len(),
        spec_version_ok(http@),
    ensures
        match spec_framing(http@) {
            None => r matches Err(e) && e.kind == ErrorKind::UnsupportedFraming,
            Some(Framing::Chunked) => match spec_parse_chunks(buf@, start as int) {
                SpecChunkResult::Done { data, end } => r matches Ok(LegBodyOutcome::Done {
                    out,
                    consumed,
                    suppressed,
                }) && out@ == spec_chunked_bytes(data) && consumed == end && !suppressed,
                SpecChunkResult::Incomplete => if eof {
                    r matches Err(e) && e.kind == ErrorKind::Protocol
                } else {
                    r matches Ok(o) && o is NeedMore
                },
                SpecChunkResult::Malformed => r matches Err(e) && e.kind == ErrorKind::Protocol,
            },
            Some(Framing::Length(n)) => if buf@.len() - start >= n {
                r matches Ok(LegBodyOutcome::Done { out, consumed, suppressed }) && out@
                    == spec_head_bytes(http@, Some(n as int)) + buf@.subrange(
                    start as int,
                    start + n,
                ) && consumed == start + n && !suppressed
            } else if eof {
                r matches Err(e) && e.kind == ErrorKind::Protocol
            } else {
                r matches Ok(o) && o is NeedMore
            },
            Some(Framing::Empty) => r matches Ok(LegBodyOutcome::Done { out, consumed, suppressed })
                && out@ == spec_head_bytes(http@, Some(0)) && consumed == start && !suppressed,
        },
{
    let chunked = is_chunked(http);
    match read_http_content(http, buf, start, eof)? {
        BodyOutcome::NeedMore => Ok(LegBodyOutcome::NeedMore),
        BodyOutcome::Done { content, consumed } => {
            let mut out: Vec<u8> = Vec::new();
            if chunked {
                write_http_content_chunked(&mut out, content.as_slice());
            } else {
                write_http_headers(&mut out, http, Some(content.len()));
                write_http_content(&mut out, content.as_slice());
            }
            Ok(LegBodyOutcome::Done { out, consumed, suppressed: false })
        },
    }
}

/// The outcome of the response-leg head step.
#[derive(Debug)]
pub enum ResHeadOutcome {
    /// The head is not complete yet: read more and call again.
    NeedMore,
    /// The head parsed as a response.  `out` holds head bytes to send
    /// to the client at once (only in chunked framing), `consumed`
    /// where the body starts.
    Proceed { http: Http, chunked: bool, out: Vec<u8>, consumed: usize },
}

/// Reads the response head out of `buf`; anything but a response head
/// is a `Protocol` error.  For a chunked response the rewritten head is
/// emitted at once, so the client sees it before a long-lived body.
pub fn response_head_step(buf: &Vec<u8>, eof: bool) -> (r: Result<ResHeadOutcome, ProxyError>)
    ensures
        match spec_head_split(buf@) {
            None => if eof {
                r matches Err(e) && e.kind == ErrorKind::Protocol
            } else {
                r matches Ok(o) && o is NeedMore
            },
            Some(e) => match spec_parse_http(buf@.take(e)) {
                None => r matches Err(er) && er.kind == ErrorKind::Protocol,
                Some(SpecHttp::Req(_)) => r matches Err(er) && er.kind == ErrorKind::Protocol,
                Some(SpecHttp::Res(p)) => r matches Ok(o) && (o matches ResHeadOutcome::Proceed {
                    http,
                    chunked,
                    out,
                    consumed,
                } ==> {
                    &&& http@ == SpecHttp::Res(p)
                    &&& chunked == spec_is_chunked(SpecHttp::Res(p))
                    &&& out@ == (if chunked {
                        spec_head_bytes(SpecHttp::Res(p), None)
                    } else {
                        Seq::<u8>::empty()
                    })
                    &&& consumed == e
                }) && o is Proceed,
            },
        },
{
    let mut term: Vec<u8> = Vec::new();
    term.push(13);
    term.push(10);
    term.push(13);
    term.push(10);
    assert(term@ =~= spec_term());
    match read_until(buf, &term) {
        None => {
            assert(spec_head_split(buf@) is None);
            if eof {
                Err(ProxyError::new(ErrorKind::Protocol, "Failed to read http header"))
            } else {
                Ok(ResHeadOutcome::NeedMore)
            }
        },
        Some(e) => {
            assert(spec_head_split(buf@) == Some(e as int));
            let head = copy_range(buf, 0, e);
            assert(head@ == buf@.take(e as int));
            let http = match parse_http(&head) {
                Ok(h) => h,
                Err(er) => {
                    return Err(er);
                },
            };
            proof {
                lemma_parse_version_ok(head@);
            }
            match http.res() {
                Ok(_) => {},
                Err(er) => {
                    return Err(er.wrap("HTTP response was expected"));
                },
            }
            let chunked = is_chunked(&http);
            let mut out: Vec<u8> = Vec::new();
            if chunked {
                write_http_headers(&mut out, &http, None);
            }
            Ok(ResHeadOutcome::Proceed { http, chunked, out, consumed: e })
        },
    }
}

/// Reads the response body out of `buf[start..]`, runs the selected
/// filter over it, and emits what the client gets: on `Forward` the
/// (possibly rewritten) body in the leg's framing; on `Suppress`
/// nothing for identity framing, and the bare zero chunk for chunked
/// framing (the head is already out).  A response that is not `200`
/// passes through the filters untouched.
pub fn response_body_step(
    config: &Config,
    filter: FilterKind,
    req: &Request,
    http: &Http,
    buf: &Vec<u8>,
    start: usize,
    eof: bool,
) -> (r: Result<LegBodyOutcome, ProxyError>)
    requires
        start <= buf@.len(),
        spec_version_ok(http@),
        http is Res,
    ensures
        r matches Err(e) ==> e.kind == ErrorKind::UnsupportedFraming || e.kind
            == ErrorKind::Protocol || e.kind == ErrorKind::Filter,
        match spec_framing(http@) {
            None => r matches Err(e) && e.kind == ErrorKind::UnsupportedFraming,
            Some(Framing::Chunked) => match spec_parse_chunks(buf@, start as int) {
                SpecChunkResult::Done { data, end } => ((filter == FilterKind::PassThrough
                    || spec_res_code(http@) != 200 || json_valid(data)) ==> r is Ok) && (r
                    matches Ok(o) ==> (o matches LegBodyOutcome::Done { out, consumed, suppressed }
                    && consumed == end && ((filter == FilterKind::PassThrough || spec_res_code(
                    http@,
                ) != 200) ==> !suppressed) && (suppressed ==> out@ == spec_chunked_bytes(
                    Seq::empty(),
                )) && (!suppressed ==> out@ == spec_chunked_bytes(
                    spec_filter_output(filter, config.spec_env(), spec_res_code(http@), data),
                )))),
                SpecChunkResult::Incomplete => if eof {
                    r matches Err(e) && e.kind == ErrorKind::Protocol
                } else {
                    r matches Ok(o) && o is NeedMore
                },
                SpecChunkResult::Malformed => r matches Err(e) && e.kind == ErrorKind::Protocol,
            },
            Some(Framing::Length(n)) => if buf@.len() - start >= n {
                ((filter == FilterKind::PassThrough || spec_res_code(http@) != 200 || json_valid(
                    buf@.subrange(start as int, start + n),
                )) ==> r is Ok) && (r matches Ok(o) ==> (o matches LegBodyOutcome::Done {
                    out,
                    consumed,
                    suppressed,
                } && consumed == start + n && ((filter == FilterKind::PassThrough || spec_res_code(
                    http@,
                ) != 200) ==> !suppressed) && (suppressed ==> out@ == Seq::<u8>::empty()) && (
                !suppressed ==> out@ == spec_head_bytes(
                    http@,
                    Some(
                        spec_filter_output(
                            filter,
                            config.spec_env(),
                            spec_res_code(http@),
                            buf@.subrange(start as int, start + n),
                        ).len() as int,
                    ),
                ) + spec_filter_output(
                    filter,
                    config.spec_env(),
                    spec_res_code(http@),
                    buf@.subrange(start as int, start + n),
                ))))
            } else if eof {
                r matches Err(e) && e.kind == ErrorKind::Protocol
            } else {
                r matches Ok(o) && o is NeedMore
            },
            Some(Framing::Empty) => ((filter == FilterKind::PassThrough || spec_res_code(http@)
                != 200 || json_valid(Seq::<u8>::empty())) ==> r is Ok) && (r matches Ok(o) ==> (o
                matches LegBodyOutcome::Done { out, consumed, suppressed } && consumed == start && (
            (filter == FilterKind::PassThrough || spec_res_code(http@) != 200) ==> !suppressed) && (
            suppressed ==> out@ == Seq::<u8>::empty()) && (!suppressed ==> out@ == spec_head_bytes(
                http@,
                Some(
                    spec_filter_output(
                        filter,
                        config.spec_env(),
                        spec_res_code(http@),
                        Seq::<u8>::empty(),
                    ).len() as int,
                ),
            ) + spec_filter_output(
                filter,
                config.spec_env(),
                spec_res_code(http@),
                Seq::<u8>::empty(),
            )))),
        },
{
    let chunked = is_chunked(http);
    match read_http_content(http, buf, start, eof)? {
        BodyOutcome::NeedMore => Ok(LegBodyOutcome::NeedMore),
        BodyOutcome::Done { mut content, consumed } => {
            let res = match http.res() {
                Ok(p) => p,
                Err(er) => {
                    return Err(er);
                },
            };
            let decision = apply_filter(filter, config, req, res, &mut content)?;
            match decision {
                Decision::Suppress => {
                    let mut out: Vec<u8> = Vec::new();
                    if chunked {
                        write_http_content_chunked(&mut out, &[]);
                        assert(out@ =~= spec_chunked_bytes(Seq::empty()));
                    }
                    Ok(LegBodyOutcome::Done { out, consumed, suppressed: true })
                },
                Decision::Forward => {
                    let mut out: Vec<u8> = Vec::new();
                    if chunked {
                        write_http_content_chunked(&mut out, content.as_slice());
                    } else {
                        write_http_headers(&mut out, http, Some(content.len()));
                        write_http_content(&mut out, content.as_slice());
                    }
                    Ok(LegBodyOutcome::Done { out, consumed, suppressed: false })
                },
            }
        },
    }
}

/// The status code of a response head.
pub open spec fn spec_res_code(h: SpecHttp) -> u16 {
    match h {
        SpecHttp::Res(p) => p.code,
        SpecHttp::Req(_) => 0,
    }
}

/// Whether the exchange switches protocols: the request asked for
/// `Connection: Upgrade` and the response is `101`.
pub fn is_http_upgraded(http_req: &Http, http_res: &Http) -> (r: Result<bool, ProxyError>)
    ensures
        r is Ok <==> http_req is Req && http_res is Res,
        r matches Err(e) ==> e.kind == ErrorKind::Protocol,
        r matches Ok(b) ==> b == (spec_find_header(
            spec_headers_of(http_req@),
            "Connection".spec_bytes(),
        ) == Some("Upgrade".spec_bytes()) && spec_res_code(http_res@) == 101),
{
    let req = http_req.req()?;
    let res = http_res.res()?;
    let conn_name = str_bytes("Connection");
    let upgraded = match find_in_headers(&req.headers, conn_name.as_slice()) {
        Some(v) => {
            let upgrade = str_bytes("Upgrade");
            bytes_eq(v.as_slice(), upgrade.as_slice())
        },
        None => false,
    };
    proof {
        assert(crate::http::hdrs_view(req.headers@) == spec_headers_of(http_req@));
    }
    Ok(upgraded && res.code == 101)
}

/// One tunnel step: the bytes read from one side are appended to the
/// other side's output unchanged; a zero-length read means that side
/// closed.
pub fn forward_data(chunk: &[u8], out: &mut Vec<u8>) -> (n: usize)
    ensures
        final(out)@ == old(out)@ + chunk@,
        n == chunk@.len(),
{
    push_all(out, chunk);
    chunk.len()
}

} // verus!
