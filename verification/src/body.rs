//! Message bodies: choosing the framing a head declares, reassembling a
//! body out of buffered bytes (identity and chunked framing), and
//! re-emitting heads and bodies with framing that matches what is
//! actually sent.

use vstd::prelude::*;
use vstd::string::{StringExecFns, StringSliceAdditionalSpecFns};

use crate::bytes::{bytes_eq, copy_range, push_all, push_str_bytes, str_bytes};
use crate::errors::{ErrorKind, ProxyError};
use crate::http::{
    hdrs_view, spec_find_header, spec_headers_of, Header, Http, SpecHeader, SpecHttp,
    SpecResponse,
};
use crate::num::{
    all_dec_digits, all_hex_digits, dec_val_of, format_dec, format_hex, hex_val_of, parse_dec,
    parse_hex, spec_dec_bytes, spec_hex_bytes,
};

verus! {

/// How a head frames its body.
#[derive(Clone, Copy, PartialEq, Eq, Structural, Debug)]
pub enum Framing {
    /// `Transfer-Encoding: chunked`.
    Chunked,
    /// `Content-Length` with this many bytes.
    Length(usize),
    /// Neither header: no body.
    Empty,
}

/// The first `Transfer-Encoding` value of a head, if any.
pub open spec fn spec_te(h: SpecHttp) -> Option<Seq<u8>> {
    spec_find_header(spec_headers_of(h), "Transfer-Encoding".spec_bytes())
}

/// The first `Content-Length` value of a head, if any.
pub open spec fn spec_cl(h: SpecHttp) -> Option<Seq<u8>> {
    spec_find_header(spec_headers_of(h), "Content-Length".spec_bytes())
}

/// The framing a head declares: `chunked` wins, any other
/// `Transfer-Encoding` is unsupported (`None`), then a parseable
/// `Content-Length`, then no body.
pub open spec fn spec_framing(h: SpecHttp) -> Option<Framing> {
    match spec_te(h) {
        Some(v) => if v == "chunked".spec_bytes() {
            Some(Framing::Chunked)
        } else {
            None
        },
        None => match spec_cl(h) {
            Some(v) => if v.len() > 0 && all_dec_digits(v) && dec_val_of(v) <= usize::MAX {
                Some(Framing::Length(dec_val_of(v) as usize))
            } else {
                Some(Framing::Empty)
            },
            None => Some(Framing::Empty),
        },
    }
}

/// Resolves the framing of `h`; an `UnsupportedFraming` error on a
/// `Transfer-Encoding` other than `chunked`.
pub fn body_framing(h: &Http) -> (r: Result<Framing, ProxyError>)
    ensures
        r matches Ok(f) ==> spec_framing(h@) == Some(f),
        r is Err <==> spec_framing(h@) is None,
        r matches Err(e) ==> e.kind == ErrorKind::UnsupportedFraming,
{
    let te_name = str_bytes("Transfer-Encoding");
    let headers = h.headers();
    match crate::http::find_in_headers(headers, te_name.as_slice()) {
        Some(v) => {
            let chunked = str_bytes("chunked");
            if bytes_eq(v.as_slice(), chunked.as_slice()) {
                Ok(Framing::Chunked)
            } else {
                let mut msg = String::from_str("Transfer-Encoding `");
                msg.append(crate::errors::lossy_string(v.as_slice()).as_str());
                msg.append("` is not supported");
                Err(ProxyError::new(ErrorKind::UnsupportedFraming, msg.as_str()))
            }
        },
        None => {
            let cl_name = str_bytes("Content-Length");
            match crate::http::find_in_headers(headers, cl_name.as_slice()) {
                Some(v) => match parse_dec(v.as_slice()) {
                    Some(n) => Ok(Framing::Length(n)),
                    None => Ok(Framing::Empty),
                },
                None => Ok(Framing::Empty),
            }
        },
    }
}

// ---------------------------------------------------------------------
// Chunked decoding
// ---------------------------------------------------------------------

/// What parsing a chunked body out of buffered bytes can yield.
#[verifier::ext_equal]
pub enum SpecChunkResult {
    /// More bytes are needed before the outcome is known.
    Incomplete,
    /// The bytes cannot be a chunked body.
    Malformed,
    /// A complete body: the chunk data, and the position just past the
    /// terminating zero chunk.
    Done { data: Seq<u8>, end: int },
}

/// The least `j >= i` with CRLF at `j`, if any.
pub open spec fn spec_find_crlf(s: Seq<u8>, i: int) -> Option<int>
    decreases s.len() - i,
    when 0 <= i <= s.len()
{
    if i + 2 > s.len() {
        None
    } else if s[i] == 13 && s[i + 1] == 10 {
        Some(i)
    } else {
        spec_find_crlf(s, i + 1)
    }
}

/// Parses chunks from position `i` of `s` until the zero chunk: each
/// chunk is a CRLF-terminated hexadecimal size line (blanks around the
/// numeral allowed), that many data bytes, and a trailing CRLF.
pub open spec fn spec_parse_chunks(s: Seq<u8>, i: int) -> SpecChunkResult
    decreases s.len() - i,
    when 0 <= i <= s.len()
{
    match spec_find_crlf(s, i) {
        None => SpecChunkResult::Incomplete,
        Some(j) => if j < i || j + 2 > s.len() {
            SpecChunkResult::Malformed
        } else {
            let line = s.subrange(i, j);
            let a = crate::http::spec_skip_ows(line, 0);
            let b = crate::http::spec_trim_ows(line, a, line.len() as int);
            let digits = line.subrange(a, b);
            if !(b > a && all_hex_digits(digits) && 0 <= hex_val_of(digits) <= usize::MAX) {
                SpecChunkResult::Malformed
            } else {
                let n = hex_val_of(digits);
                let d0 = j + 2;
                if d0 + n + 2 > s.len() {
                    SpecChunkResult::Incomplete
                } else if !(s[d0 + n] == 13 && s[d0 + n + 1] == 10) {
                    SpecChunkResult::Malformed
                } else if n == 0 {
                    SpecChunkResult::Done { data: Seq::empty(), end: d0 + 2 }
                } else {
                    match spec_parse_chunks(s, d0 + n + 2) {
                        SpecChunkResult::Incomplete => SpecChunkResult::Incomplete,
                        SpecChunkResult::Malformed => SpecChunkResult::Malformed,
                        SpecChunkResult::Done { data, end } => SpecChunkResult::Done {
                            data: s.subrange(d0, d0 + n) + data,
                            end,
                        },
                    }
                }
            }
        },
    }
}

fn skip_ows_slice(s: &[u8], from: usize) -> (r: usize)
    requires
        from <= s@.len(),
    ensures
        from <= r <= s@.len(),
        r == crate::http::spec_skip_ows(s@, from as int),
{
    let mut j = from;
    while j < s.len() && (s[j] == 32 || s[j] == 9)
        invariant
            from <= j <= s@.len(),
            crate::http::spec_skip_ows(s@, from as int) == crate::http::spec_skip_ows(
                s@,
                j as int,
            ),
        decreases s@.len() - j,
    {
        j += 1;
    }
    j
}

fn trim_ows_slice(s: &[u8], from: usize, to: usize) -> (r: usize)
    requires
        from <= to <= s@.len(),
    ensures
        from <= r <= to,
        r == crate::http::spec_trim_ows(s@, from as int, to as int),
{
    let mut j = to;
    while j > from && (s[j - 1] == 32 || s[j - 1] == 9)
        invariant
            from <= j <= to <= s@.len(),
            crate::http::spec_trim_ows(s@, from as int, to as int) == crate::http::spec_trim_ows(
                s@,
                from as int,
                j as int,
            ),
        decreases j,
    {
        j -= 1;
    }
    j
}

fn find_crlf(buf: &Vec<u8>, from: usize) -> (r: Option<usize>)
    requires
        from <= buf@.len(),
    ensures
        match spec_find_crlf(buf@, from as int) {
            Some(j) => r matches Some(x) && x == j && from <= x && x + 2 <= buf@.len(),
            None => r is None,
        },
{
    let mut i = from;
    while buf.len() - i >= 2 && !(buf[i] == 13 && buf[i + 1] == 10)
        invariant
            from <= i <= buf@.len(),
            spec_find_crlf(buf@, from as int) == spec_find_crlf(buf@, i as int),
        decreases buf@.len() - i,
    {
        i += 1;
    }
    if buf.len() - i >= 2 {
        Some(i)
    } else {
        None
    }
}

/// The outcome of reassembling a body out of buffered bytes.
#[derive(Debug)]
pub enum BodyOutcome {
    /// More bytes must be read before the body is complete.
    NeedMore,
    /// The whole body, and the absolute buffer position just past it.
    Done { content: Vec<u8>, consumed: usize },
}

fn read_chunked(buf: &Vec<u8>, start: usize, eof: bool) -> (r: Result<BodyOutcome, ProxyError>)
    requires
        start <= buf@.len(),
    ensures
        match spec_parse_chunks(buf@, start as int) {
            SpecChunkResult::Done { data, end } => r matches Ok(
                BodyOutcome::Done { content, consumed },
            ) && content@ == data && consumed == end,
            SpecChunkResult::Incomplete => if eof {
                r matches Err(e) && e.kind == ErrorKind::Protocol
            } else {
                r matches Ok(o) && o is NeedMore
            },
            SpecChunkResult::Malformed => r matches Err(e) && e.kind == ErrorKind::Protocol,
        },
{
    let ghost s = buf@;
    let mut acc: Vec<u8> = Vec::new();
    let mut i = start;
    loop
        invariant
            start <= i <= s.len(),
            s == buf@,
            (spec_parse_chunks(s, i as int) matches SpecChunkResult::Done { data, end }
                ==> spec_parse_chunks(s, start as int) == SpecChunkResult::Done {
                data: acc@ + data,
                end,
            }),
            (spec_parse_chunks(s, i as int) is Incomplete ==> spec_parse_chunks(s, start as int)
                is Incomplete),
            (spec_parse_chunks(s, i as int) is Malformed ==> spec_parse_chunks(s, start as int)
                is Malformed),
        decreases s.len() - i,
    {
        let j = match find_crlf(buf, i) {
            None => {
                if eof {
                    return Err(ProxyError::new(ErrorKind::Protocol, "Malformed chunked encoding"));
                }
                return Ok(BodyOutcome::NeedMore);
            },
            Some(j) => j,
        };
        let buflen = buf.len();
        assert(j + 2 <= buflen);
        let ghost line = s.subrange(i as int, j as int);
        let line_slice = &buf.as_slice()[i..j];
        assert(line_slice@ == line);
        let a = skip_ows_slice(line_slice, 0);
        let b = trim_ows_slice(line_slice, a, line_slice.len());
        let n = if b > a {
            let digits = &line_slice[a..b];
            assert(digits@ =~= line.subrange(a as int, b as int));
            match parse_hex(digits) {
                Some(n) => {
                    proof {
                        crate::num::lemma_hex_val_nonneg(digits@);
                    }
                    n
                },
                None => {
                    return Err(ProxyError::new(ErrorKind::Protocol, "Invalid chunk size"));
                },
            }
        } else {
            return Err(ProxyError::new(ErrorKind::Protocol, "Invalid chunk size"));
        };
        let d0 = j + 2;
        if n > buf.len() || d0 > buf.len() - n || buf.len() - (d0 + n) < 2 {
            if eof {
                return Err(ProxyError::new(ErrorKind::Protocol, "Malformed chunked encoding"));
            }
            return Ok(BodyOutcome::NeedMore);
        }
        if !(buf[d0 + n] == 13 && buf[d0 + n + 1] == 10) {
            return Err(ProxyError::new(ErrorKind::Protocol, "Malformed chunked encoding"));
        }
        if n == 0 {
            proof {
                assert(acc@ + Seq::<u8>::empty() =~= acc@);
            }
            return Ok(BodyOutcome::Done { content: acc, consumed: d0 + 2 });
        }
        let ghost acc0 = acc@;
        let data = &buf.as_slice()[d0..d0 + n];
        assert(data@ =~= s.subrange(d0 as int, d0 + n));
        push_all(&mut acc, data);
        proof {
            match spec_parse_chunks(s, (d0 + n + 2) as int) {
                SpecChunkResult::Done { data: dd, end } => {
                    assert(acc0 + (s.subrange(d0 as int, d0 + n) + dd) =~= (acc0 + s.subrange(
                        d0 as int,
                        d0 + n,
                    )) + dd);
                },
                _ => {},
            }
        }
        i = d0 + n + 2;
    }
}

/// Reassembles the body that `h` declares out of `buf[start..]`.
/// `eof` says the byte source has ended: an incomplete body then fails
/// with a `Protocol` error instead of asking for more bytes.
pub fn read_http_content(h: &Http, buf: &Vec<u8>, start: usize, eof: bool) -> (r: Result<
    BodyOutcome,
    ProxyError,
>)
    requires
        start <= buf@.len(),
    ensures
        match spec_framing(h@) {
            None => r matches Err(e) && e.kind == ErrorKind::UnsupportedFraming,
            Some(Framing::Empty) => r matches Ok(BodyOutcome::Done { content, consumed })
                && content@ == Seq::<u8>::empty() && consumed == start,
            Some(Framing::Length(n)) => if buf@.len() - start >= n {
                r matches Ok(BodyOutcome::Done { content, consumed }) && content@ == buf@.subrange(
                    start as int,
                    start + n,
                ) && consumed == start + n
            } else if eof {
                r matches Err(e) && e.kind == ErrorKind::Protocol
            } else {
                r matches Ok(o) && o is NeedMore
            },
            Some(Framing::Chunked) => match spec_parse_chunks(buf@, start as int) {
                SpecChunkResult::Done { data, end } => r matches Ok(
                    BodyOutcome::Done { content, consumed },
                ) && content@ == data && consumed == end,
                SpecChunkResult::Incomplete => if eof {
                    r matches Err(e) && e.kind == ErrorKind::Protocol
                } else {
                    r matches Ok(o) && o is NeedMore
                },
                SpecChunkResult::Malformed => r matches Err(e) && e.kind == ErrorKind::Protocol,
            },
        },
{
    match body_framing(h)? {
        Framing::Chunked => read_chunked(buf, start, eof),
        Framing::Length(n) => {
            if buf.len() - start >= n {
                let content = copy_range(buf, start, start + n);
                Ok(BodyOutcome::Done { content, consumed: start + n })
            } else if eof {
                Err(ProxyError::new(ErrorKind::Protocol, "Short read of message body"))
            } else {
                Ok(BodyOutcome::NeedMore)
            }
        },
        Framing::Empty => {
            Ok(BodyOutcome::Done { content: Vec::new(), consumed: start })
        },
    }
}

// ---------------------------------------------------------------------
// Emission
// ---------------------------------------------------------------------

/// The line terminator.
pub open spec fn crlf() -> Seq<u8> {
    seq![13u8, 10u8]
}

/// A body in chunked framing: one data chunk when non-empty, then the
/// zero chunk.
pub open spec fn spec_chunked_bytes(c: Seq<u8>) -> Seq<u8> {
    if c.len() > 0 {
        spec_hex_bytes(c.len()) + crlf() + c + crlf() + seq![48u8] + crlf() + crlf()
    } else {
        seq![48u8] + crlf() + crlf()
    }
}

pub open spec fn spec_version_byte(v: u8) -> u8 {
    (48 + v) as u8
}

/// The start line: `METHOD PATH HTTP/1.V` for requests,
/// `HTTP/1.V CODE REASON` for responses.
pub open spec fn spec_start_line_bytes(h: SpecHttp) -> Seq<u8> {
    match h {
        SpecHttp::Req(q) => q.method + seq![32u8] + q.path + seq![32u8] + "HTTP/1.".spec_bytes()
            + seq![spec_version_byte(q.version)] + crlf(),
        SpecHttp::Res(p) => "HTTP/1.".spec_bytes() + seq![spec_version_byte(p.version)]
            + seq![32u8] + spec_dec_bytes(p.code as nat) + seq![32u8] + p.reason + crlf(),
    }
}

/// The two framing headers, which are never copied through: the emitter
/// appends its own.
pub open spec fn is_framing_header(name: Seq<u8>) -> bool {
    name == "Content-Length".spec_bytes() || name == "Transfer-Encoding".spec_bytes()
}

pub open spec fn spec_header_bytes(h: SpecHeader) -> Seq<u8> {
    h.name + seq![58u8, 32u8] + h.value + crlf()
}

/// All headers in order, with the framing headers left out.
pub open spec fn spec_headers_emit(hs: Seq<SpecHeader>) -> Seq<u8>
    decreases hs.len(),
{
    if hs.len() == 0 {
        Seq::empty()
    } else {
        (if is_framing_header(hs[0].name) {
            Seq::<u8>::empty()
        } else {
            spec_header_bytes(hs[0])
        }) + spec_headers_emit(hs.drop_first())
    }
}

/// The framing header the emitter appends: `Content-Length: N` for a
/// known non-zero length, nothing for a zero length, and
/// `Transfer-Encoding: chunked` when the length is not yet known.
pub open spec fn spec_framing_line(cl: Option<int>) -> Seq<u8> {
    match cl {
        Some(n) => if n > 0 {
            "Content-Length: ".spec_bytes() + spec_dec_bytes(n as nat) + crlf()
        } else {
            Seq::empty()
        },
        None => "Transfer-Encoding: chunked".spec_bytes() + crlf(),
    }
}

/// A whole emitted head.
pub open spec fn spec_head_bytes(h: SpecHttp, cl: Option<int>) -> Seq<u8> {
    spec_start_line_bytes(h) + spec_headers_emit(spec_headers_of(h)) + spec_framing_line(cl)
        + crlf()
}

pub open spec fn spec_cl_opt(cl: Option<usize>) -> Option<int> {
    match cl {
        Some(n) => Some(n as int),
        None => None,
    }
}

/// An emittable head: the minor version is a single digit.
pub open spec fn spec_version_ok(h: SpecHttp) -> bool {
    match h {
        SpecHttp::Req(q) => q.version <= 9,
        SpecHttp::Res(p) => p.version <= 9,
    }
}

pub proof fn lemma_headers_emit_concat(a: Seq<SpecHeader>, b: Seq<SpecHeader>)
    ensures
        spec_headers_emit(a + b) == spec_headers_emit(a) + spec_headers_emit(b),
    decreases a.len(),
{
    if a.len() == 0 {
        assert(a + b =~= b);
        assert(spec_headers_emit(a) + spec_headers_emit(b) =~= spec_headers_emit(b));
    } else {
        assert((a + b).drop_first() =~= a.drop_first() + b);
        assert((a + b)[0] == a[0]);
        lemma_headers_emit_concat(a.drop_first(), b);
        let e0 = if is_framing_header(a[0].name) {
            Seq::<u8>::empty()
        } else {
            spec_header_bytes(a[0])
        };
        assert(e0 + (spec_headers_emit(a.drop_first()) + spec_headers_emit(b)) =~= (e0
            + spec_headers_emit(a.drop_first())) + spec_headers_emit(b));
    }
}

/// Emits the head of `h`: start line, every header but the framing
/// headers, then framing per `content_len` (`Some(n)` for identity with
/// `n` known, `None` for chunked), then the blank line.
#[verifier::rlimit(100)]
pub fn write_http_headers(out: &mut Vec<u8>, h: &Http, content_len: Option<usize>)
    requires
        spec_version_ok(h@),
    ensures
        final(out)@ == old(out)@ + spec_head_bytes(h@, spec_cl_opt(content_len)),
{
    let ghost base = out@;
    match h {
        Http::Req(q) => {
            push_all(out, q.method.as_slice());
            out.push(32);
            assert(out@ =~= base + (q.method@ + seq![32u8]));
            push_all(out, q.path.as_slice());
            out.push(32);
            assert(out@ =~= base + (q.method@ + seq![32u8] + q.path@ + seq![32u8]));
            push_str_bytes(out, "HTTP/1.");
            assert(out@ =~= base + (q.method@ + seq![32u8] + q.path@ + seq![32u8]
                + "HTTP/1.".spec_bytes()));
            out.push(48 + q.version);
            assert(out@ =~= base + (q.method@ + seq![32u8] + q.path@ + seq![32u8]
                + "HTTP/1.".spec_bytes() + seq![spec_version_byte(q.version)]));
            out.push(13);
            out.push(10);
            assert(out@ =~= base + (q.method@ + seq![32u8] + q.path@ + seq![32u8]
                + "HTTP/1.".spec_bytes() + seq![spec_version_byte(q.version)] + crlf()));
            assert(h@ == SpecHttp::Req(q@));
            assert(out@ =~= base + spec_start_line_bytes(h@));
        },
        Http::Res(p) => {
            push_str_bytes(out, "HTTP/1.");
            out.push(48 + p.version);
            assert(out@ =~= base + ("HTTP/1.".spec_bytes() + seq![spec_version_byte(p.version)]));
            out.push(32);
            assert(out@ =~= base + ("HTTP/1.".spec_bytes() + seq![spec_version_byte(p.version)]
                + seq![32u8]));
            let code_bytes = format_dec(p.code as usize);
            assert((p.code as usize) as nat == p.code as nat);
            assert(code_bytes@ == spec_dec_bytes(p.code as nat));
            push_all(out, code_bytes.as_slice());
            assert(out@ =~= base + ("HTTP/1.".spec_bytes() + seq![spec_version_byte(p.version)]
                + seq![32u8] + spec_dec_bytes(p.code as nat)));
            out.push(32);
            push_all(out, p.reason.as_slice());
            assert(out@ =~= base + ("HTTP/1.".spec_bytes() + seq![spec_version_byte(p.version)]
                + seq![32u8] + spec_dec_bytes(p.code as nat) + seq![32u8] + p.reason@));
            out.push(13);
            out.push(10);
            assert(out@ =~= base + ("HTTP/1.".spec_bytes() + seq![spec_version_byte(p.version)]
                + seq![32u8] + spec_dec_bytes(p.code as nat) + seq![32u8] + p.reason@ + crlf()));
            assert(h@ == SpecHttp::Res(p@));
            assert(out@ =~= base + spec_start_line_bytes(h@));
        },
    }
    let ghost base2 = out@;
    let headers = h.headers();
    let ghost hs = spec_headers_of(h@);
    let cl_name = str_bytes("Content-Length");
    let te_name = str_bytes("Transfer-Encoding");
    let mut i: usize = 0;
    assert(hs.take(0) =~= Seq::<SpecHeader>::empty());
    while i < headers.len()
        invariant
            0 <= i <= headers@.len(),
            hs == hdrs_view(headers@),
            cl_name@ == "Content-Length".spec_bytes(),
            te_name@ == "Transfer-Encoding".spec_bytes(),
            out@ == base2 + spec_headers_emit(hs.take(i as int)),
        decreases headers@.len() - i,
    {
        let ghost pre = out@;
        let skip = bytes_eq(headers[i].name.as_slice(), cl_name.as_slice()) || bytes_eq(
            headers[i].name.as_slice(),
            te_name.as_slice(),
        );
        if !skip {
            push_all(out, headers[i].name.as_slice());
            out.push(58);
            out.push(32);
            assert(out@ =~= pre + (headers@[i as int].name@ + seq![58u8, 32u8]));
            push_all(out, headers[i].value.as_slice());
            out.push(13);
            out.push(10);
            assert(out@ =~= pre + (headers@[i as int].name@ + seq![58u8, 32u8]
                + headers@[i as int].value@ + crlf()));
        }
        proof {
            assert(hs[i as int] == headers@[i as int]@);
            assert(skip == is_framing_header(hs[i as int].name));
            let e0 = if is_framing_header(hs[i as int].name) {
                Seq::<u8>::empty()
            } else {
                spec_header_bytes(hs[i as int])
            };
            if !skip {
                assert(out@ =~= pre + spec_header_bytes(hs[i as int]));
            } else {
                assert(pre + e0 =~= pre);
            }
            assert(out@ == pre + e0);
            assert(hs.take(i + 1) =~= hs.take(i as int) + seq![hs[i as int]]);
            lemma_headers_emit_concat(hs.take(i as int), seq![hs[i as int]]);
            assert(seq![hs[i as int]].drop_first() =~= Seq::<SpecHeader>::empty());
            assert(spec_headers_emit(Seq::<SpecHeader>::empty()) == Seq::<u8>::empty());
            assert(spec_headers_emit(seq![hs[i as int]]) == e0 + Seq::<u8>::empty());
            assert(e0 + Seq::<u8>::empty() =~= e0);
            assert(base2 + spec_headers_emit(hs.take(i + 1)) =~= (base2 + spec_headers_emit(
                hs.take(i as int),
            )) + e0);
        }
        i += 1;
    }
    proof {
        assert(hs.take(headers@.len() as int) =~= hs);
    }
    let ghost base3 = out@;
    match content_len {
        Some(n) => {
            if n > 0 {
                push_str_bytes(out, "Content-Length: ");
                let d = format_dec(n);
                push_all(out, d.as_slice());
                out.push(13);
                out.push(10);
                assert(out@ =~= base3 + ("Content-Length: ".spec_bytes() + spec_dec_bytes(
                    n as nat,
                ) + crlf()));
            } else {
                assert(out@ =~= base3 + spec_framing_line(spec_cl_opt(content_len)));
            }
        },
        None => {
            push_str_bytes(out, "Transfer-Encoding: chunked");
            out.push(13);
            out.push(10);
            assert(out@ =~= base3 + ("Transfer-Encoding: chunked".spec_bytes() + crlf()));
        },
    }
    assert(out@ == base3 + spec_framing_line(spec_cl_opt(content_len)));
    let ghost base4 = out@;
    out.push(13);
    out.push(10);
    proof {
        assert(out@ =~= base4 + crlf());
        assert(out@ =~= base + (spec_start_line_bytes(h@) + spec_headers_emit(hs)
            + spec_framing_line(spec_cl_opt(content_len)) + crlf()));
        assert(out@ =~= base + spec_head_bytes(h@, spec_cl_opt(content_len)));
    }
}

/// Emits an identity-framed body: the bytes as they are.
pub fn write_http_content(out: &mut Vec<u8>, content: &[u8])
    ensures
        final(out)@ == old(out)@ + content@,
{
    push_all(out, content);
}

/// Emits a body in chunked framing: one data chunk when non-empty, then
/// the zero chunk.
pub fn write_http_content_chunked(out: &mut Vec<u8>, content: &[u8])
    ensures
        final(out)@ == old(out)@ + spec_chunked_bytes(content@),
{
    let ghost base = out@;
    if content.len() > 0 {
        let hx = format_hex(content.len());
        push_all(out, hx.as_slice());
        out.push(13);
        out.push(10);
        push_all(out, content);
        out.push(13);
        out.push(10);
    }
    out.push(48);
    out.push(13);
    out.push(10);
    out.push(13);
    out.push(10);
    assert(out@ =~= base + spec_chunked_bytes(content@));
}

// ---------------------------------------------------------------------
// Framing laws
// ---------------------------------------------------------------------

/// Law: an identity emission declares in `Content-Length` exactly the
/// number of body bytes that follow the head — the emitted numeral
/// parses back to the body's length.
pub proof fn lemma_content_length_exact(h: SpecHttp, b: Seq<u8>)
    requires
        spec_version_ok(h),
        0 < b.len() <= usize::MAX,
    ensures
        (spec_head_bytes(h, Some(b.len() as int)) + b).len() == spec_head_bytes(
            h,
            Some(b.len() as int),
        ).len() + b.len(),
        spec_framing_line(Some(b.len() as int)) == "Content-Length: ".spec_bytes()
            + spec_dec_bytes(b.len() as nat) + crlf(),
        dec_val_of(spec_dec_bytes(b.len() as nat)) == b.len(),
{
    crate::num::lemma_dec_roundtrip(b.len() as nat);
}

/// Law (round trip): an identity re-emission keeps the start line and
/// every non-framing header byte-for-byte and in order, appends the
/// framing header at the end of the head, and is followed by the body
/// unchanged.
pub proof fn lemma_passthrough_roundtrip(p: SpecResponse, b: Seq<u8>)
    requires
        spec_version_ok(SpecHttp::Res(p)),
        b.len() <= usize::MAX,
    ensures
        spec_head_bytes(SpecHttp::Res(p), Some(b.len() as int)) + b == spec_start_line_bytes(
            SpecHttp::Res(p),
        ) + spec_headers_emit(p.headers) + spec_framing_line(Some(b.len() as int)) + crlf() + b,
{
    assert(spec_head_bytes(SpecHttp::Res(p), Some(b.len() as int)) + b =~= spec_start_line_bytes(
        SpecHttp::Res(p),
    ) + spec_headers_emit(p.headers) + spec_framing_line(Some(b.len() as int)) + crlf() + b);
}

proof fn lemma_find_crlf_skip(s: Seq<u8>, i: int, j: int)
    requires
        0 <= i <= j <= s.len(),
        forall|k: int| i <= k < j ==> s[k] != 13,
    ensures
        spec_find_crlf(s, i) == spec_find_crlf(s, j),
    decreases j - i,
{
    if i < j {
        if i + 2 > s.len() {
            assert(j + 2 > s.len());
        } else {
            assert(s[i] != 13);
            lemma_find_crlf_skip(s, i + 1, j);
        }
    }
}

/// Law (chunked round trip): what the chunked emitter writes parses
/// back as a complete chunked body whose data is exactly the buffer
/// that was emitted, consuming the whole emission.
pub proof fn lemma_chunked_roundtrip(c: Seq<u8>)
    requires
        c.len() <= usize::MAX,
    ensures
        spec_parse_chunks(spec_chunked_bytes(c), 0) == (SpecChunkResult::Done {
            data: c,
            end: spec_chunked_bytes(c).len() as int,
        }),
{
    let e = spec_chunked_bytes(c);
    if c.len() == 0 {
        assert(e =~= seq![48u8, 13u8, 10u8, 13u8, 10u8]);
        assert(e[0] == 48 && e[1] == 13 && e[2] == 10 && e[3] == 13 && e[4] == 10);
        assert(spec_find_crlf(e, 0) == spec_find_crlf(e, 1));
        assert(spec_find_crlf(e, 1) == Some(1int));
        let line = e.subrange(0, 1);
        assert(line =~= seq![48u8]);
        assert(!crate::http::is_ows(line[0]));
        assert(crate::http::spec_skip_ows(line, 0) == 0);
        assert(crate::http::spec_trim_ows(line, 0, 1) == 1);
        let digits = line.subrange(0, 1);
        assert(digits =~= seq![48u8]);
        assert(digits.drop_last() =~= Seq::<u8>::empty());
        assert(hex_val_of(Seq::<u8>::empty()) == 0);
        assert(digits.last() == 48 && crate::num::hex_digit_val(48) == 0);
        assert(hex_val_of(digits) == 0);
        assert(all_hex_digits(digits));
        assert(spec_parse_chunks(e, 0) == (SpecChunkResult::Done {
            data: Seq::<u8>::empty(),
            end: 5,
        }));
        assert(Seq::<u8>::empty() =~= c);
    } else {
        let n = c.len() as int;
        let hx = spec_hex_bytes(c.len() as nat);
        crate::num::lemma_hex_bytes_digits(c.len() as nat);
        crate::num::lemma_hex_roundtrip(c.len() as nat);
        let hl = hx.len() as int;
        assert(e.len() == hl + n + 9);
        assert(forall|k: int| 0 <= k < hl ==> e[k] == hx[k]);
        assert forall|k: int| 0 <= k < hl implies e[k] != 13 by {
            assert(crate::num::is_hex_digit(hx[k]));
        }
        lemma_find_crlf_skip(e, 0, hl);
        assert(e[hl] == 13 && e[hl + 1] == 10);
        assert(spec_find_crlf(e, hl) == Some(hl));
        let line = e.subrange(0, hl);
        assert(line =~= hx);
        assert(crate::num::is_hex_digit(line[0]) && !crate::http::is_ows(line[0]));
        assert(crate::http::spec_skip_ows(line, 0) == 0);
        assert(crate::num::is_hex_digit(line[hl - 1]) && !crate::http::is_ows(line[hl - 1]));
        assert(crate::http::spec_trim_ows(line, 0, hl) == hl);
        assert(line.subrange(0, hl) =~= hx);
        assert(hex_val_of(hx) == n);
        let d0 = hl + 2;
        assert(e[d0 + n] == 13 && e[d0 + n + 1] == 10);
        let z0 = hl + n + 4;
        assert(e[z0] == 48 && e[z0 + 1] == 13 && e[z0 + 2] == 10 && e[z0 + 3] == 13 && e[z0 + 4]
            == 10);
        assert(spec_find_crlf(e, z0) == spec_find_crlf(e, z0 + 1));
        assert(spec_find_crlf(e, z0 + 1) == Some(z0 + 1));
        let line2 = e.subrange(z0, z0 + 1);
        assert(line2 =~= seq![48u8]);
        assert(!crate::http::is_ows(line2[0]));
        assert(crate::http::spec_skip_ows(line2, 0) == 0);
        assert(crate::http::spec_trim_ows(line2, 0, 1) == 1);
        let digits2 = line2.subrange(0, 1);
        assert(digits2 =~= seq![48u8]);
        assert(digits2.drop_last() =~= Seq::<u8>::empty());
        assert(hex_val_of(Seq::<u8>::empty()) == 0);
        assert(digits2.last() == 48 && crate::num::hex_digit_val(48) == 0);
        assert(hex_val_of(digits2) == 0);
        assert(all_hex_digits(digits2));
        assert(z0 + 5 == e.len());
        assert(spec_parse_chunks(e, z0) == (SpecChunkResult::Done {
            data: Seq::<u8>::empty(),
            end: e.len() as int,
        }));
        assert(e.subrange(d0, d0 + n) =~= c);
        assert(c + Seq::<u8>::empty() =~= c);
        assert(spec_parse_chunks(e, 0) == (SpecChunkResult::Done {
            data: c,
            end: e.len() as int,
        }));
    }
}

} // verus!
