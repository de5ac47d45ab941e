//! HTTP/1.x message heads: the parsed representation, the head grammar
//! as specification functions, and a verified parser that reads a head
//! (request-line or status-line plus headers) out of a byte buffer.
//!
//! The grammar: a start line, then header lines `name: value`, then an
//! empty line, every line terminated by CRLF.  Header names and methods
//! are built from token characters; paths from printable non-space
//! bytes; header values may hold any byte but CR and LF, with
//! surrounding blanks trimmed.

use vstd::prelude::*;

use crate::bytes::{bytes_eq, copy_range};
use crate::errors::{ErrorKind, ProxyError};

verus! {

/// One header: a name and the raw value bytes.
#[derive(Debug)]
pub struct Header {
    pub name: Vec<u8>,
    pub value: Vec<u8>,
}

#[verifier::ext_equal]
pub struct SpecHeader {
    pub name: Seq<u8>,
    pub value: Seq<u8>,
}

impl View for Header {
    type V = SpecHeader;

    open spec fn view(&self) -> SpecHeader {
        SpecHeader { name: self.name@, value: self.value@ }
    }
}

/// The view of a header list.
pub open spec fn hdrs_view(hs: Seq<Header>) -> Seq<SpecHeader> {
    hs.map_values(|h: Header| h@)
}

/// A parsed request head.
#[derive(Debug)]
pub struct Request {
    pub method: Vec<u8>,
    pub path: Vec<u8>,
    /// The HTTP minor version (the `V` of `HTTP/1.V`).
    pub version: u8,
    pub headers: Vec<Header>,
}

#[verifier::ext_equal]
pub struct SpecRequest {
    pub method: Seq<u8>,
    pub path: Seq<u8>,
    pub version: u8,
    pub headers: Seq<SpecHeader>,
}

impl View for Request {
    type V = SpecRequest;

    open spec fn view(&self) -> SpecRequest {
        SpecRequest {
            method: self.method@,
            path: self.path@,
            version: self.version,
            headers: hdrs_view(self.headers@),
        }
    }
}

/// A parsed response head.
#[derive(Debug)]
pub struct Response {
    /// The HTTP minor version (the `V` of `HTTP/1.V`).
    pub version: u8,
    pub code: u16,
    pub reason: Vec<u8>,
    pub headers: Vec<Header>,
}

#[verifier::ext_equal]
pub struct SpecResponse {
    pub version: u8,
    pub code: u16,
    pub reason: Seq<u8>,
    pub headers: Seq<SpecHeader>,
}

impl View for Response {
    type V = SpecResponse;

    open spec fn view(&self) -> SpecResponse {
        SpecResponse {
            version: self.version,
            code: self.code,
            reason: self.reason@,
            headers: hdrs_view(self.headers@),
        }
    }
}

/// A parsed message head: either a request or a response.
#[derive(Debug)]
pub enum Http {
    Req(Request),
    Res(Response),
}

#[verifier::ext_equal]
pub enum SpecHttp {
    Req(SpecRequest),
    Res(SpecResponse),
}

impl View for Http {
    type V = SpecHttp;

    open spec fn view(&self) -> SpecHttp {
        match self {
            Http::Req(q) => SpecHttp::Req(q@),
            Http::Res(p) => SpecHttp::Res(p@),
        }
    }
}

/// The header list of either kind of head.
pub open spec fn spec_headers_of(h: SpecHttp) -> Seq<SpecHeader> {
    match h {
        SpecHttp::Req(q) => q.headers,
        SpecHttp::Res(p) => p.headers,
    }
}

impl Http {
    /// The request head, or a `Protocol` error on a response.
    pub fn req(&self) -> (r: Result<&Request, ProxyError>)
        ensures
            r is Ok <==> self is Req,
            r matches Ok(q) ==> self@ == SpecHttp::Req(q@),
            r matches Err(e) ==> e.kind == ErrorKind::Protocol,
    {
        match self {
            Http::Req(q) => Ok(q),
            Http::Res(_) => Err(ProxyError::new(ErrorKind::Protocol, "Not an HTTP request")),
        }
    }

    /// The response head, or a `Protocol` error on a request.
    pub fn res(&self) -> (r: Result<&Response, ProxyError>)
        ensures
            r is Ok <==> self is Res,
            r matches Ok(p) ==> self@ == SpecHttp::Res(p@),
            r matches Err(e) ==> e.kind == ErrorKind::Protocol,
    {
        match self {
            Http::Res(p) => Ok(p),
            Http::Req(_) => Err(ProxyError::new(ErrorKind::Protocol, "Not an HTTP response")),
        }
    }

    /// The headers of either kind of head.
    pub fn headers(&self) -> (r: &Vec<Header>)
        ensures
            hdrs_view(r@) == spec_headers_of(self@),
    {
        match self {
            Http::Req(q) => &q.headers,
            Http::Res(p) => &p.headers,
        }
    }
}

// ---------------------------------------------------------------------
// Character classes
// ---------------------------------------------------------------------

/// RFC 7230 token characters: what methods and header names are made of.
pub open spec fn is_tchar(b: u8) -> bool {
    (48 <= b <= 57) || (65 <= b <= 90) || (97 <= b <= 122) || b == 33 || (35 <= b <= 39) || b == 42
        || b == 43 || b == 45 || b == 46 || b == 94 || b == 95 || b == 96 || b == 124 || b == 126
}

/// Printable non-space bytes: what a request path is made of.
pub open spec fn is_vchar(b: u8) -> bool {
    33 <= b <= 126
}

/// Blank bytes around a header value: space and horizontal tab.
pub open spec fn is_ows(b: u8) -> bool {
    b == 32 || b == 9
}

/// A line-ending byte.
pub open spec fn is_eol(b: u8) -> bool {
    b == 13 || b == 10
}

fn tchar(b: u8) -> (r: bool)
    ensures
        r == is_tchar(b),
{
    (48 <= b && b <= 57) || (65 <= b && b <= 90) || (97 <= b && b <= 122) || b == 33 || (35 <= b
        && b <= 39) || b == 42 || b == 43 || b == 45 || b == 46 || b == 94 || b == 95 || b == 96
        || b == 124 || b == 126
}

// ---------------------------------------------------------------------
// Scanning
// ---------------------------------------------------------------------

/// The least `j >= i` at which `s` stops being token characters (or the
/// length of `s`).
pub open spec fn spec_scan_tchar(s: Seq<u8>, i: int) -> int
    decreases s.len() - i,
    when 0 <= i <= s.len()
{
    if i >= s.len() {
        i
    } else if !is_tchar(s[i]) {
        i
    } else {
        spec_scan_tchar(s, i + 1)
    }
}

/// The least `j >= i` at which `s` stops being printable non-space
/// bytes (or the length of `s`).
pub open spec fn spec_scan_vchar(s: Seq<u8>, i: int) -> int
    decreases s.len() - i,
    when 0 <= i <= s.len()
{
    if i >= s.len() {
        i
    } else if !is_vchar(s[i]) {
        i
    } else {
        spec_scan_vchar(s, i + 1)
    }
}

/// The least `j >= i` at which `s` stops being blanks (or the length of
/// `s`).
pub open spec fn spec_skip_ows(s: Seq<u8>, i: int) -> int
    decreases s.len() - i,
    when 0 <= i <= s.len()
{
    if i >= s.len() {
        i
    } else if !is_ows(s[i]) {
        i
    } else {
        spec_skip_ows(s, i + 1)
    }
}

/// The least `j >= i` holding CR or LF (or the length of `s`).
pub open spec fn spec_find_eol(s: Seq<u8>, i: int) -> int
    decreases s.len() - i,
    when 0 <= i <= s.len()
{
    if i >= s.len() {
        i
    } else if is_eol(s[i]) {
        i
    } else {
        spec_find_eol(s, i + 1)
    }
}

/// `to`, moved down past any trailing blanks of `s[from..to]`.
pub open spec fn spec_trim_ows(s: Seq<u8>, from: int, to: int) -> int
    decreases to - from,
    when 0 <= from <= to <= s.len()
{
    if to > from && is_ows(s[to - 1]) {
        spec_trim_ows(s, from, to - 1)
    } else {
        to
    }
}

fn scan_tchar(buf: &Vec<u8>, from: usize, end: usize) -> (r: usize)
    requires
        from <= end <= buf@.len(),
    ensures
        from <= r <= end,
        r == spec_scan_tchar(buf@.subrange(0, end as int), from as int),
{
    let ghost line = buf@.subrange(0, end as int);
    let mut j = from;
    while j < end && tchar(buf[j])
        invariant
            from <= j <= end <= buf@.len(),
            line == buf@.subrange(0, end as int),
            spec_scan_tchar(line, from as int) == spec_scan_tchar(line, j as int),
        decreases end - j,
    {
        j += 1;
    }
    j
}

fn scan_vchar(buf: &Vec<u8>, from: usize, end: usize) -> (r: usize)
    requires
        from <= end <= buf@.len(),
    ensures
        from <= r <= end,
        r == spec_scan_vchar(buf@.subrange(0, end as int), from as int),
{
    let ghost line = buf@.subrange(0, end as int);
    let mut j = from;
    while j < end && 33 <= buf[j] && buf[j] <= 126
        invariant
            from <= j <= end <= buf@.len(),
            line == buf@.subrange(0, end as int),
            spec_scan_vchar(line, from as int) == spec_scan_vchar(line, j as int),
        decreases end - j,
    {
        j += 1;
    }
    j
}

fn skip_ows(buf: &Vec<u8>, from: usize, end: usize) -> (r: usize)
    requires
        from <= end <= buf@.len(),
    ensures
        from <= r <= end,
        r == spec_skip_ows(buf@.subrange(0, end as int), from as int),
{
    let ghost line = buf@.subrange(0, end as int);
    let mut j = from;
    while j < end && (buf[j] == 32 || buf[j] == 9)
        invariant
            from <= j <= end <= buf@.len(),
            line == buf@.subrange(0, end as int),
            spec_skip_ows(line, from as int) == spec_skip_ows(line, j as int),
        decreases end - j,
    {
        j += 1;
    }
    j
}

fn find_eol(buf: &Vec<u8>, from: usize, end: usize) -> (r: usize)
    requires
        from <= end <= buf@.len(),
    ensures
        from <= r <= end,
        r == spec_find_eol(buf@.subrange(0, end as int), from as int),
{
    let ghost line = buf@.subrange(0, end as int);
    let mut j = from;
    while j < end && buf[j] != 13 && buf[j] != 10
        invariant
            from <= j <= end <= buf@.len(),
            line == buf@.subrange(0, end as int),
            spec_find_eol(line, from as int) == spec_find_eol(line, j as int),
        decreases end - j,
    {
        j += 1;
    }
    j
}

fn trim_ows(buf: &Vec<u8>, from: usize, to: usize) -> (r: usize)
    requires
        from <= to <= buf@.len(),
    ensures
        from <= r <= to,
        r == spec_trim_ows(buf@, from as int, to as int),
{
    let mut j = to;
    while j > from && (buf[j - 1] == 32 || buf[j - 1] == 9)
        invariant
            from <= j <= to <= buf@.len(),
            spec_trim_ows(buf@, from as int, to as int) == spec_trim_ows(buf@, from as int, j as int),
        decreases j,
    {
        j -= 1;
    }
    j
}

// ---------------------------------------------------------------------
// Start lines
// ---------------------------------------------------------------------

/// `HTTP/1.` at position `i` of `s`.
pub open spec fn is_http_prefix(s: Seq<u8>, i: int) -> bool {
    &&& 0 <= i
    &&& i + 7 <= s.len()
    &&& s[i] == 72  // H
    &&& s[i + 1] == 84  // T
    &&& s[i + 2] == 84  // T
    &&& s[i + 3] == 80  // P
    &&& s[i + 4] == 47  // /
    &&& s[i + 5] == 49  // 1
    &&& s[i + 6] == 46  // .
}

fn http_prefix_at(buf: &Vec<u8>, i: usize, end: usize) -> (r: bool)
    requires
        i <= end <= buf@.len(),
    ensures
        r == is_http_prefix(buf@.subrange(0, end as int), i as int),
{
    end - i >= 7 && buf[i] == 72 && buf[i + 1] == 84 && buf[i + 2] == 84 && buf[i + 3] == 80
        && buf[i + 4] == 47 && buf[i + 5] == 49 && buf[i + 6] == 46
}

/// Parses `line` as a status line `HTTP/1.V CODE [SP REASON]`; the code
/// is exactly three decimal digits.
pub open spec fn spec_parse_status_line(line: Seq<u8>) -> Option<(u8, u16, Seq<u8>)> {
    if line.len() < 12 {
        None
    } else if !is_http_prefix(line, 0) {
        None
    } else if !crate::num::is_dec_digit(line[7]) {
        None
    } else if line[8] != 32 {
        None
    } else if !(crate::num::is_dec_digit(line[9]) && crate::num::is_dec_digit(line[10])
        && crate::num::is_dec_digit(line[11])) {
        None
    } else {
        let version = (line[7] - 48) as u8;
        let code = (100 * (line[9] - 48) + 10 * (line[10] - 48) + (line[11] - 48)) as u16;
        if line.len() == 12 {
            Some((version, code, Seq::empty()))
        } else if line[12] != 32 {
            None
        } else {
            Some((version, code, line.subrange(13, line.len() as int)))
        }
    }
}

fn parse_status_line(buf: &Vec<u8>, end: usize) -> (r: Option<(u8, u16, Vec<u8>)>)
    requires
        end <= buf@.len(),
    ensures
        match spec_parse_status_line(buf@.subrange(0, end as int)) {
            Some(p) => r matches Some(x) && x.0 == p.0 && x.1 == p.1 && x.2@ == p.2,
            None => r is None,
        },
{
    let ghost line = buf@.subrange(0, end as int);
    if end < 12 {
        return None;
    }
    if !http_prefix_at(buf, 0, end) {
        return None;
    }
    let d = buf[7];
    if !(48 <= d && d <= 57) {
        return None;
    }
    if buf[8] != 32 {
        return None;
    }
    let c1 = buf[9];
    let c2 = buf[10];
    let c3 = buf[11];
    if !(48 <= c1 && c1 <= 57 && 48 <= c2 && c2 <= 57 && 48 <= c3 && c3 <= 57) {
        return None;
    }
    let version = d - 48;
    let code: u16 = 100 * ((c1 - 48) as u16) + 10 * ((c2 - 48) as u16) + ((c3 - 48) as u16);
    if end == 12 {
        let reason: Vec<u8> = Vec::new();
        return Some((version, code, reason));
    }
    if buf[12] != 32 {
        return None;
    }
    let reason = copy_range(buf, 13, end);
    assert(reason@ =~= line.subrange(13, line.len() as int));
    Some((version, code, reason))
}

/// Parses `line` as a request line `METHOD SP PATH SP HTTP/1.V`.
pub open spec fn spec_parse_request_line(line: Seq<u8>) -> Option<(Seq<u8>, Seq<u8>, u8)> {
    let m = spec_scan_tchar(line, 0);
    if m == 0 || m >= line.len() || line[m] != 32 {
        None
    } else {
        let p0 = m + 1;
        let p1 = spec_scan_vchar(line, p0);
        if p1 == p0 || p1 >= line.len() || line[p1] != 32 {
            None
        } else if line.len() != p1 + 9 {
            None
        } else if !is_http_prefix(line, p1 + 1) {
            None
        } else if !crate::num::is_dec_digit(line[p1 + 8]) {
            None
        } else {
            Some((line.subrange(0, m), line.subrange(p0 as int, p1), (line[p1 + 8] - 48) as u8))
        }
    }
}

fn parse_request_line(buf: &Vec<u8>, end: usize) -> (r: Option<(Vec<u8>, Vec<u8>, u8)>)
    requires
        end <= buf@.len(),
    ensures
        match spec_parse_request_line(buf@.subrange(0, end as int)) {
            Some(p) => r matches Some(x) && x.0@ == p.0 && x.1@ == p.1 && x.2 == p.2,
            None => r is None,
        },
{
    let ghost line = buf@.subrange(0, end as int);
    let m = scan_tchar(buf, 0, end);
    if m == 0 || m >= end || buf[m] != 32 {
        return None;
    }
    let p0 = m + 1;
    let p1 = scan_vchar(buf, p0, end);
    if p1 == p0 || p1 >= end || buf[p1] != 32 {
        return None;
    }
    if end - p1 != 9 {
        return None;
    }
    if !http_prefix_at(buf, p1 + 1, end) {
        return None;
    }
    let d = buf[p1 + 8];
    if !(48 <= d && d <= 57) {
        return None;
    }
    let method = copy_range(buf, 0, m);
    let path = copy_range(buf, p0, p1);
    assert(method@ =~= line.subrange(0, m as int));
    assert(path@ =~= line.subrange(p0 as int, p1 as int));
    Some((method, path, d - 48))
}

// ---------------------------------------------------------------------
// Header block
// ---------------------------------------------------------------------

/// Parses one header line `name: value CRLF` starting at `i`; gives the
/// header and the position after its CRLF.
pub open spec fn spec_parse_header_line(s: Seq<u8>, i: int) -> Option<(SpecHeader, int)> {
    let k = spec_scan_tchar(s, i);
    if k == i || k >= s.len() || s[k] != 58 {
        None
    } else {
        let v0 = spec_skip_ows(s, k + 1);
        let j = spec_find_eol(s, v0);
        if j + 1 >= s.len() || s[j] != 13 || s[j + 1] != 10 {
            None
        } else {
            let vend = spec_trim_ows(s, v0, j);
            Some((SpecHeader { name: s.subrange(i, k), value: s.subrange(v0, vend) }, j + 2))
        }
    }
}

fn parse_header_line(buf: &Vec<u8>, i: usize) -> (r: Option<(Header, usize)>)
    requires
        i <= buf@.len(),
    ensures
        match spec_parse_header_line(buf@, i as int) {
            Some(p) => r matches Some(x) && x.0@ == p.0 && x.1 == p.1 && i < x.1 <= buf@.len(),
            None => r is None,
        },
{
    let end = buf.len();
    assert(buf@.subrange(0, end as int) =~= buf@);
    let k = scan_tchar(buf, i, end);
    if k == i || k >= end || buf[k] != 58 {
        return None;
    }
    let v0 = skip_ows(buf, k + 1, end);
    let j = find_eol(buf, v0, end);
    if end - j < 2 || buf[j] != 13 || buf[j + 1] != 10 {
        return None;
    }
    let vend = trim_ows(buf, v0, j);
    let name = copy_range(buf, i, k);
    let value = copy_range(buf, v0, vend);
    Some((Header { name, value }, j + 2))
}

/// Parses the header block starting at `i` up to and including the
/// blank line; gives the headers and the position after the blank line.
pub open spec fn spec_parse_headers(s: Seq<u8>, i: int) -> Option<(Seq<SpecHeader>, int)>
    decreases s.len() - i,
    when 0 <= i <= s.len()
{
    if i + 2 <= s.len() && s[i] == 13 && s[i + 1] == 10 {
        Some((Seq::empty(), i + 2))
    } else {
        match spec_parse_header_line(s, i) {
            None => None,
            Some((h, j)) => if j <= i || j > s.len() {
                None
            } else {
                match spec_parse_headers(s, j) {
                    None => None,
                    Some((hs, e)) => Some((seq![h] + hs, e)),
                }
            },
        }
    }
}

fn parse_headers(buf: &Vec<u8>, start: usize) -> (r: Option<(Vec<Header>, usize)>)
    requires
        start <= buf@.len(),
    ensures
        match spec_parse_headers(buf@, start as int) {
            Some(p) => r matches Some(x) && hdrs_view(x.0@) == p.0 && x.1 == p.1 && x.1
                <= buf@.len(),
            None => r is None,
        },
{
    let ghost s = buf@;
    let mut acc: Vec<Header> = Vec::new();
    let mut i = start;
    loop
        invariant
            start <= i <= s.len(),
            s == buf@,
            (spec_parse_headers(s, i as int) matches Some(p) ==> spec_parse_headers(
                s,
                start as int,
            ) == Some::<(Seq<SpecHeader>, int)>((hdrs_view(acc@) + p.0, p.1))),
            (spec_parse_headers(s, i as int) is None ==> spec_parse_headers(s, start as int)
                is None),
        decreases s.len() - i,
    {
        if buf.len() - i > 1 && buf[i] == 13 && buf[i + 1] == 10 {
            proof {
                let p = spec_parse_headers(s, i as int).unwrap();
                assert(hdrs_view(acc@) + p.0 =~= hdrs_view(acc@));
            }
            return Some((acc, i + 2));
        }
        match parse_header_line(buf, i) {
            None => {
                return None;
            },
            Some((h, j)) => {
                proof {
                    let hl = spec_parse_header_line(s, i as int).unwrap();
                    if spec_parse_headers(s, j as int) is Some {
                        let rest = spec_parse_headers(s, j as int).unwrap();
                        assert(spec_parse_headers(s, i as int) == Some::<(Seq<SpecHeader>, int)>((
                            seq![hl.0] + rest.0,
                            rest.1,
                        )));
                        assert(hdrs_view(acc@.push(h)) =~= hdrs_view(acc@) + seq![h@]);
                        assert(hdrs_view(acc@) + (seq![hl.0] + rest.0) =~= (hdrs_view(acc@) + seq![
                            hl.0,
                        ]) + rest.0);
                    }
                }
                acc.push(h);
                i = j;
            },
        }
    }
}

// ---------------------------------------------------------------------
// Whole heads
// ---------------------------------------------------------------------

/// Parses `s` as a complete response head.
pub open spec fn spec_parse_response(s: Seq<u8>) -> Option<SpecResponse> {
    let j = spec_find_eol(s, 0);
    if j + 1 >= s.len() || s[j] != 13 || s[j + 1] != 10 {
        None
    } else {
        match spec_parse_status_line(s.subrange(0, j)) {
            None => None,
            Some(sl) => match spec_parse_headers(s, j + 2) {
                None => None,
                Some((hs, e)) => if e == s.len() {
                    Some(SpecResponse { version: sl.0, code: sl.1, reason: sl.2, headers: hs })
                } else {
                    None
                },
            },
        }
    }
}

/// Parses `s` as a complete request head.
pub open spec fn spec_parse_request(s: Seq<u8>) -> Option<SpecRequest> {
    let j = spec_find_eol(s, 0);
    if j + 1 >= s.len() || s[j] != 13 || s[j + 1] != 10 {
        None
    } else {
        match spec_parse_request_line(s.subrange(0, j)) {
            None => None,
            Some(rl) => match spec_parse_headers(s, j + 2) {
                None => None,
                Some((hs, e)) => if e == s.len() {
                    Some(SpecRequest { method: rl.0, path: rl.1, version: rl.2, headers: hs })
                } else {
                    None
                },
            },
        }
    }
}

/// Parses a complete head: first as a response, then (on failure) as a
/// request.
pub open spec fn spec_parse_http(s: Seq<u8>) -> Option<SpecHttp> {
    match spec_parse_response(s) {
        Some(p) => Some(SpecHttp::Res(p)),
        None => match spec_parse_request(s) {
            Some(q) => Some(SpecHttp::Req(q)),
            None => None,
        },
    }
}

fn try_parse_response(buf: &Vec<u8>) -> (r: Option<Response>)
    ensures
        match spec_parse_response(buf@) {
            Some(p) => r matches Some(x) && x@ == p,
            None => r is None,
        },
{
    let end = buf.len();
    assert(buf@.subrange(0, end as int) =~= buf@);
    let j = find_eol(buf, 0, end);
    if end - j < 2 || buf[j] != 13 || buf[j + 1] != 10 {
        return None;
    }
    let sl = match parse_status_line(buf, j) {
        None => {
            return None;
        },
        Some(sl) => sl,
    };
    let (hs, e) = match parse_headers(buf, j + 2) {
        None => {
            return None;
        },
        Some(p) => p,
    };
    if e != end {
        return None;
    }
    let res = Response { version: sl.0, code: sl.1, reason: sl.2, headers: hs };
    assert(res@ =~= spec_parse_response(buf@).unwrap());
    Some(res)
}

fn try_parse_request(buf: &Vec<u8>) -> (r: Option<Request>)
    ensures
        match spec_parse_request(buf@) {
            Some(q) => r matches Some(x) && x@ == q,
            None => r is None,
        },
{
    let end = buf.len();
    assert(buf@.subrange(0, end as int) =~= buf@);
    let j = find_eol(buf, 0, end);
    if end - j < 2 || buf[j] != 13 || buf[j + 1] != 10 {
        return None;
    }
    let rl = match parse_request_line(buf, j) {
        None => {
            return None;
        },
        Some(rl) => rl,
    };
    let (hs, e) = match parse_headers(buf, j + 2) {
        None => {
            return None;
        },
        Some(p) => p,
    };
    if e != end {
        return None;
    }
    let req = Request { method: rl.0, path: rl.1, version: rl.2, headers: hs };
    assert(req@ =~= spec_parse_request(buf@).unwrap());
    Some(req)
}

/// Parses a complete head out of `buf`: first as a response, then as a
/// request; a `Protocol` error if it is neither.
pub fn parse_http(buf: &Vec<u8>) -> (r: Result<Http, ProxyError>)
    ensures
        r is Ok <==> spec_parse_http(buf@) is Some,
        r matches Ok(h) ==> Some(h@) == spec_parse_http(buf@),
        r matches Err(e) ==> e.kind == ErrorKind::Protocol,
{
    match try_parse_response(buf) {
        Some(p) => Ok(Http::Res(p)),
        None => match try_parse_request(buf) {
            Some(q) => Ok(Http::Req(q)),
            None => Err(ProxyError::new(ErrorKind::Protocol, "Failed to parse HTTP headers")),
        },
    }
}

// ---------------------------------------------------------------------
// Terminator search and header lookup
// ---------------------------------------------------------------------

/// `s[..i]` ends with `pat`.
pub open spec fn ends_with_at(s: Seq<u8>, pat: Seq<u8>, i: int) -> bool {
    pat.len() <= i <= s.len() && s.subrange(i - pat.len(), i) == pat
}

/// The least prefix of `buf` that ends with `pat`: `Some(i)` where
/// `buf[..i]` is that prefix, `None` if no prefix of `buf` ends with
/// `pat`.  This is how far a head reader must consume its input.
pub fn read_until(buf: &Vec<u8>, pat: &Vec<u8>) -> (r: Option<usize>)
    requires
        pat@.len() > 0,
    ensures
        r matches Some(i) ==> ends_with_at(buf@, pat@, i as int) && (forall|j: int|
            0 <= j < i ==> !ends_with_at(buf@, pat@, j)),
        r is None ==> forall|j: int| 0 <= j <= buf@.len() ==> !ends_with_at(buf@, pat@, j),
{
    if buf.len() < pat.len() {
        assert forall|j: int| 0 <= j <= buf@.len() implies !ends_with_at(buf@, pat@, j) by {}
        return None;
    }
    let mut idx: usize = 0;
    while idx <= buf.len() - pat.len()
        invariant
            1 <= pat@.len() <= buf@.len(),
            0 <= idx <= buf@.len() - pat@.len() + 1,
            forall|j: int| 0 <= j < idx + pat@.len() ==> !ends_with_at(buf@, pat@, j),
        decreases buf@.len() - pat@.len() + 1 - idx,
    {
        let i = idx + pat.len();
        let window = &buf.as_slice()[idx..i];
        assert(window@ == buf@.subrange(idx as int, i as int));
        if bytes_eq(window, pat.as_slice()) {
            assert(ends_with_at(buf@, pat@, i as int));
            return Some(i);
        }
        assert(!ends_with_at(buf@, pat@, i as int));
        idx += 1;
    }
    None
}

/// The value of the first header named `name`, if any.
pub open spec fn spec_find_header(hs: Seq<SpecHeader>, name: Seq<u8>) -> Option<Seq<u8>>
    decreases hs.len(),
{
    if hs.len() == 0 {
        None
    } else if hs[0].name == name {
        Some(hs[0].value)
    } else {
        spec_find_header(hs.drop_first(), name)
    }
}

/// Finds the first header named `name` and returns its value bytes.
pub fn find_in_headers<'h>(headers: &'h Vec<Header>, name: &[u8]) -> (r: Option<&'h Vec<u8>>)
    ensures
        match spec_find_header(hdrs_view(headers@), name@) {
            Some(v) => r matches Some(x) && x@ == v,
            None => r is None,
        },
{
    let ghost hs = hdrs_view(headers@);
    assert(hs.skip(0) =~= hs);
    let mut i: usize = 0;
    while i < headers.len()
        invariant
            0 <= i <= headers@.len(),
            hs == hdrs_view(headers@),
            spec_find_header(hs, name@) == spec_find_header(hs.skip(i as int), name@),
        decreases headers@.len() - i,
    {
        proof {
            assert(hs.skip(i as int).len() == hs.len() - i);
            assert(hs.skip(i as int)[0] == hs[i as int]);
            assert(hs.skip(i as int).drop_first() =~= hs.skip(i + 1));
        }
        if bytes_eq(headers[i].name.as_slice(), name) {
            return Some(&headers[i].value);
        }
        i += 1;
    }
    proof {
        assert(hs.skip(i as int).len() == 0);
    }
    None
}

} // verus!
