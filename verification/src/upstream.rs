//! The upstream engine address: `unix://PATH` or `tcp://HOST:PORT`,
//! with the engine's defaults for a missing path, host or port.

use vstd::prelude::*;
use vstd::string::StringSliceAdditionalSpecFns;

use crate::bytes::{bytes_eq, str_bytes};
use crate::errors::{ErrorKind, ProxyError};

verus! {

broadcast use vstd::string::is_ascii_spec_bytes;

/// Where the upstream engine listens.
#[derive(Debug)]
pub enum UpstreamAddr {
    /// A filesystem stream socket at this path.
    Unix(Vec<u8>),
    /// A TCP endpoint: host and port.
    Tcp(Vec<u8>, u16),
}

#[verifier::ext_equal]
pub enum SpecUpstreamAddr {
    Unix(Seq<u8>),
    Tcp(Seq<u8>, u16),
}

impl View for UpstreamAddr {
    type V = SpecUpstreamAddr;

    open spec fn view(&self) -> SpecUpstreamAddr {
        match self {
            UpstreamAddr::Unix(p) => SpecUpstreamAddr::Unix(p@),
            UpstreamAddr::Tcp(h, p) => SpecUpstreamAddr::Tcp(h@, *p),
        }
    }
}

/// `s` starts with `p`.
pub open spec fn has_prefix(s: Seq<u8>, p: Seq<u8>) -> bool {
    s.len() >= p.len() && s.subrange(0, p.len() as int) == p
}

/// The least `j >= i` where `s` holds `b`, if any.
pub open spec fn spec_find_byte(s: Seq<u8>, b: u8, i: int) -> Option<int>
    decreases s.len() - i,
    when 0 <= i <= s.len()
{
    if i >= s.len() {
        None
    } else if s[i] == b {
        Some(i)
    } else {
        spec_find_byte(s, b, i + 1)
    }
}

/// The address `s` names: the scheme decides the form, an empty or `/`
/// unix path means the engine's default socket, an empty tcp host means
/// loopback, a missing port means the engine's default TCP port, and a
/// present port must be decimal and fit 16 bits.
pub open spec fn spec_parse_upstream(s: Seq<u8>) -> Option<SpecUpstreamAddr> {
    if has_prefix(s, "unix://".spec_bytes()) {
        let rest = s.subrange("unix://".spec_bytes().len() as int, s.len() as int);
        if rest.len() == 0 || rest == seq![47u8] {
            Some(SpecUpstreamAddr::Unix("/var/run/docker.sock".spec_bytes()))
        } else {
            Some(SpecUpstreamAddr::Unix(rest))
        }
    } else if has_prefix(s, "tcp://".spec_bytes()) {
        let rest = s.subrange("tcp://".spec_bytes().len() as int, s.len() as int);
        let host_of = |h: Seq<u8>| if h.len() == 0 {
            "127.0.0.1".spec_bytes()
        } else {
            h
        };
        if rest.len() > 0 && rest[0] == 91 {
            // a bracketed host, as IPv6 addresses are written
            match spec_find_byte(rest, 93, 0) {
                None => None,
                Some(b) => {
                    let host = rest.subrange(1, b);
                    if b + 1 == rest.len() {
                        Some(SpecUpstreamAddr::Tcp(host_of(host), 2375))
                    } else if rest[b + 1] == 58 {
                        let digits = rest.subrange(b + 2, rest.len() as int);
                        if digits.len() > 0 && crate::num::all_dec_digits(digits)
                            && crate::num::dec_val_of(digits) <= 65535 {
                            Some(SpecUpstreamAddr::Tcp(
                                host_of(host),
                                crate::num::dec_val_of(digits) as u16,
                            ))
                        } else {
                            None
                        }
                    } else {
                        None
                    }
                },
            }
        } else {
            match spec_find_byte(rest, 58, 0) {
                None => Some(SpecUpstreamAddr::Tcp(host_of(rest), 2375)),
                Some(c) => {
                    let digits = rest.subrange(c + 1, rest.len() as int);
                    if digits.len() > 0 && crate::num::all_dec_digits(digits)
                        && crate::num::dec_val_of(digits) <= 65535 {
                        Some(SpecUpstreamAddr::Tcp(
                            host_of(rest.subrange(0, c)),
                            crate::num::dec_val_of(digits) as u16,
                        ))
                    } else {
                        None
                    }
                },
            }
        }
    } else {
        None
    }
}

pub(crate) fn find_byte(s: &[u8], b: u8, from: usize) -> (r: Option<usize>)
    requires
        from <= s@.len(),
    ensures
        match spec_find_byte(s@, b, from as int) {
            Some(j) => r matches Some(x) && x == j && from <= x < s@.len() && s@[j] == b,
            None => r is None,
        },
{
    let mut i = from;
    while i < s.len() && s[i] != b
        invariant
            from <= i <= s@.len(),
            spec_find_byte(s@, b, from as int) == spec_find_byte(s@, b, i as int),
        decreases s@.len() - i,
    {
        i += 1;
    }
    if i < s.len() {
        Some(i)
    } else {
        None
    }
}

fn starts_with(s: &[u8], p: &Vec<u8>) -> (r: bool)
    ensures
        r == has_prefix(s@, p@),
{
    if s.len() < p.len() {
        return false;
    }
    let head = &s[0..p.len()];
    bytes_eq(head, p.as_slice())
}

/// Parses an upstream address; a `Config` error on any other scheme or
/// an unusable port.
pub fn parse_upstream_uri(s: &str) -> (r: Result<UpstreamAddr, ProxyError>)
    ensures
        r is Ok <==> spec_parse_upstream(s.spec_bytes()) is Some,
        r matches Ok(a) ==> Some(a@) == spec_parse_upstream(s.spec_bytes()),
        r matches Err(e) ==> e.kind == ErrorKind::Config,
{
    let bytes = s.as_bytes();
    let ghost sv = s.spec_bytes();
    let unix_pfx = str_bytes("unix://");
    let tcp_pfx = str_bytes("tcp://");
    if starts_with(bytes, &unix_pfx) {
        let rest = &bytes[unix_pfx.len()..bytes.len()];
        assert(rest@ == sv.subrange("unix://".spec_bytes().len() as int, sv.len() as int));
        let slash = str_bytes("/");
        proof {
            reveal_strlit("/");
            assert(vstd::string::is_ascii("/"));
            assert("/".spec_bytes() =~= seq![47u8]);
        }
        if rest.len() == 0 || bytes_eq(rest, slash.as_slice()) {
            assert(rest@.len() == 0 || rest@ == seq![47u8]);
            let p = str_bytes("/var/run/docker.sock");
            return Ok(UpstreamAddr::Unix(p));
        }
        assert(!(rest@.len() == 0 || rest@ == seq![47u8]));
        return Ok(UpstreamAddr::Unix(vstd::slice::slice_to_vec(rest)));
    }
    if starts_with(bytes, &tcp_pfx) {
        let rest = &bytes[tcp_pfx.len()..bytes.len()];
        assert(rest@ == sv.subrange("tcp://".spec_bytes().len() as int, sv.len() as int));
        if rest.len() > 0 && rest[0] == 91 {
            match find_byte(rest, 93, 0) {
                None => {
                    return Err(ProxyError::new(ErrorKind::Config, "Unsupported docker host uri"));
                },
                Some(b) => {
                    let hostb = &rest[1..b];
                    let host = if hostb.len() == 0 {
                        str_bytes("127.0.0.1")
                    } else {
                        vstd::slice::slice_to_vec(hostb)
                    };
                    if b + 1 == rest.len() {
                        return Ok(UpstreamAddr::Tcp(host, 2375));
                    }
                    if rest[b + 1] == 58 {
                        let digits = &rest[b + 2..rest.len()];
                        match crate::num::parse_dec(digits) {
                            Some(v) => {
                                if v <= 65535 {
                                    return Ok(UpstreamAddr::Tcp(host, v as u16));
                                }
                                return Err(ProxyError::new(ErrorKind::Config, "Invalid port"));
                            },
                            None => {
                                return Err(ProxyError::new(ErrorKind::Config, "Invalid port"));
                            },
                        }
                    }
                    return Err(ProxyError::new(ErrorKind::Config, "Unsupported docker host uri"));
                },
            }
        }
        match find_byte(rest, 58, 0) {
            None => {
                let host = if rest.len() == 0 {
                    str_bytes("127.0.0.1")
                } else {
                    vstd::slice::slice_to_vec(rest)
                };
                return Ok(UpstreamAddr::Tcp(host, 2375));
            },
            Some(c) => {
                let digits = &rest[c + 1..rest.len()];
                match crate::num::parse_dec(digits) {
                    Some(v) => {
                        if v <= 65535 {
                            let hostb = &rest[0..c];
                            let host = if hostb.len() == 0 {
                                str_bytes("127.0.0.1")
                            } else {
                                vstd::slice::slice_to_vec(hostb)
                            };
                            return Ok(UpstreamAddr::Tcp(host, v as u16));
                        }
                        return Err(ProxyError::new(ErrorKind::Config, "Invalid port"));
                    },
                    None => {
                        return Err(ProxyError::new(ErrorKind::Config, "Invalid port"));
                    },
                }
            },
        }
    }
    Err(ProxyError::new(ErrorKind::Config, "Unsupported docker host uri"))
}

} // verus!
