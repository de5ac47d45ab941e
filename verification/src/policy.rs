//! The allow-list policy: an ordered table of path patterns, each with
//! the response filter to apply, plus the environment-variable
//! allow-list.  The first entry whose pattern matches a request path
//! decides the outcome; no match means deny.
//!
//! Pattern matching itself is done by the `regex` crate behind trusted
//! wrappers; everything around it is verified against the named result
//! `re_matches`.

use vstd::prelude::*;
use vstd::string::StringExecFns;

use crate::bytes::bytes_eq;
use crate::errors::{ErrorKind, ProxyError};
use crate::upstream::UpstreamAddr;

verus! {

#[verifier::external_type_specification]
#[verifier::external_body]
pub struct ExRegex(regex::bytes::Regex);

/// Whether `pattern` is a pattern the regex engine accepts.
pub uninterp spec fn re_valid(pattern: Seq<char>) -> bool;

/// Whether the pattern matches (anywhere in) the input bytes.
pub uninterp spec fn re_matches(pattern: Seq<char>, input: Seq<u8>) -> bool;

/// The response-content filters the proxy knows, as tagged cases.
#[derive(Clone, Copy, PartialEq, Eq, Structural, Debug)]
pub enum FilterKind {
    /// Forward the body untouched.
    PassThrough,
    /// Redact engine-information responses.
    Info,
    /// Reduce container-list responses to a few fields.
    List,
    /// Redact container-inspect responses.
    Inspect,
}

/// One allow-list entry: a path pattern and the filter for matching
/// exchanges.  The compiled matcher always comes from `pattern`:
/// `compile_entry` is the type's only constructor.
pub struct PolicyEntry {
    pattern: String,
    filter: FilterKind,
    matcher: regex::bytes::Regex,
}

impl PolicyEntry {
    /// The entry's path pattern.
    pub closed spec fn spec_pattern(&self) -> Seq<char> {
        self.pattern@
    }

    /// The entry's response filter.
    pub closed spec fn spec_filter(&self) -> FilterKind {
        self.filter
    }

    /// The entry's path pattern.
    pub fn pattern(&self) -> (r: &String)
        ensures
            r@ == self.spec_pattern(),
    {
        &self.pattern
    }

    /// The entry's response filter.
    pub fn filter(&self) -> (r: FilterKind)
        ensures
            r == self.spec_filter(),
    {
        self.filter
    }
}

/// Relies on `regex::bytes::Regex::new`: compiling succeeds exactly
/// when the pattern is valid, and the matcher it returns decides
/// `re_matches` for that pattern.
#[verifier::external_body]
fn compile_entry(pattern: &str, filter: FilterKind) -> (r: Result<PolicyEntry, ProxyError>)
    ensures
        r is Ok <==> re_valid(pattern@),
        r matches Ok(e) ==> e.spec_pattern() == pattern@ && e.spec_filter() == filter,
        r matches Err(e) ==> e.kind == ErrorKind::Config,
{
    match regex::bytes::Regex::new(pattern) {
        Ok(matcher) => Ok(PolicyEntry { pattern: pattern.to_string(), filter, matcher }),
        Err(_) => {
            let mut messages = Vec::new();
            messages.push(format!("Invalid regex: {}", pattern));
            Err(ProxyError { kind: ErrorKind::Config, messages })
        },
    }
}

/// Relies on `regex::bytes::Regex::is_match`: whether the pattern
/// matches anywhere in `path`.  The entry's matcher is the compilation
/// of its `pattern` (see `compile_entry`), so the result is
/// `re_matches` of that pattern.
#[verifier::external_body]
fn entry_matches(e: &PolicyEntry, path: &[u8]) -> (r: bool)
    ensures
        r == re_matches(e.spec_pattern(), path@),
{
    e.matcher.is_match(path)
}

/// Entry `i` is the first of `table` to match `path`.
pub open spec fn spec_match_at(table: Seq<PolicyEntry>, path: Seq<u8>, i: int) -> bool {
    &&& 0 <= i < table.len()
    &&& re_matches(table[i].spec_pattern(), path)
    &&& forall|j: int| 0 <= j < i ==> !re_matches((#[trigger] table[j]).spec_pattern(), path)
}

/// The proxy's configuration: upstream address, state directory, the
/// policy table, and the environment allow-list.
pub struct Config {
    docker_host: UpstreamAddr,
    docker_guard_dir: String,
    http_path_whitelist: Vec<PolicyEntry>,
    env_whitelist: Vec<Vec<u8>>,
}

impl Config {
    /// The upstream address.
    pub closed spec fn spec_host(&self) -> crate::upstream::SpecUpstreamAddr {
        self.docker_host@
    }

    /// The state directory.
    pub closed spec fn spec_guard_dir(&self) -> Seq<char> {
        self.docker_guard_dir@
    }

    /// The upstream address, for the caller that opens the connection.
    pub fn host(&self) -> (r: &UpstreamAddr)
        ensures
            r@ == self.spec_host(),
    {
        &self.docker_host
    }

    /// The state directory, for the caller that creates the socket.
    pub fn guard_dir(&self) -> (r: &String)
        ensures
            r@ == self.spec_guard_dir(),
    {
        &self.docker_guard_dir
    }

    /// The policy table, in insertion order.
    pub closed spec fn spec_table(&self) -> Seq<PolicyEntry> {
        self.http_path_whitelist@
    }

    /// The environment allow-list as byte strings.
    pub closed spec fn spec_env(&self) -> Seq<Seq<u8>> {
        self.env_whitelist@.map_values(|v: Vec<u8>| v@)
    }

    /// A configuration with an empty policy table.
    pub fn new(docker_host: UpstreamAddr, env_whitelist: Vec<Vec<u8>>) -> (r: Config)
        ensures
            r.spec_host() == docker_host@,
            r.spec_guard_dir() == "/var/run/docker-guard"@,
            r.spec_table().len() == 0,
            r.spec_env() == env_whitelist@.map_values(|v: Vec<u8>| v@),
    {
        Config {
            docker_host,
            docker_guard_dir: String::from_str("/var/run/docker-guard"),
            http_path_whitelist: Vec::new(),
            env_whitelist,
        }
    }

    /// Appends a pass-through allow-list entry for `str_re`.
    pub fn allow_http_path(&mut self, str_re: &str) -> (r: Result<(), ProxyError>)
        ensures
            r is Ok <==> re_valid(str_re@),
            r matches Err(e) ==> e.kind == ErrorKind::Config && *final(self) == *old(self),
            r is Ok ==> ({
                &&& final(self).spec_table().len() == old(self).spec_table().len() + 1
                &&& final(self).spec_table().last().spec_pattern() == str_re@
                &&& final(self).spec_table().last().spec_filter() == FilterKind::PassThrough
                &&& final(self).spec_table().take(old(self).spec_table().len() as int)
                    == old(self).spec_table()
                &&& final(self).spec_env() == old(self).spec_env()
                &&& final(self).spec_host() == old(self).spec_host()
            }),
    {
        self.filter_http_path(str_re, FilterKind::PassThrough)
    }

    /// Appends an allow-list entry for `str_re` with filter `filter`.
    pub fn filter_http_path(&mut self, str_re: &str, filter: FilterKind) -> (r: Result<
        (),
        ProxyError,
    >)
        ensures
            r is Ok <==> re_valid(str_re@),
            r matches Err(e) ==> e.kind == ErrorKind::Config && *final(self) == *old(self),
            r is Ok ==> ({
                &&& final(self).spec_table().len() == old(self).spec_table().len() + 1
                &&& final(self).spec_table().last().spec_pattern() == str_re@
                &&& final(self).spec_table().last().spec_filter() == filter
                &&& final(self).spec_table().take(old(self).spec_table().len() as int)
                    == old(self).spec_table()
                &&& final(self).spec_env() == old(self).spec_env()
                &&& final(self).spec_host() == old(self).spec_host()
            }),
    {
        let entry = compile_entry(str_re, filter)?;
        self.http_path_whitelist.push(entry);
        proof {
            assert(self.spec_table().take(self.spec_table().len() - 1)
                =~= old(self).spec_table());
        }
        Ok(())
    }

    /// Resolves `path` against the table: the filter of the first
    /// matching entry, or `None` when no entry matches (deny).
    pub fn match_http_path(&self, path: &[u8]) -> (r: Option<FilterKind>)
        ensures
            r is None <==> (forall|i: int|
                0 <= i < self.spec_table().len() ==> !re_matches(
                    (#[trigger] self.spec_table()[i]).spec_pattern(),
                    path@,
                )),
            r matches Some(k) ==> exists|i: int|
                spec_match_at(self.spec_table(), path@, i) && self.spec_table()[i].spec_filter() == k,
    {
        let mut i: usize = 0;
        while i < self.http_path_whitelist.len()
            invariant
                0 <= i <= self.spec_table().len(),
                forall|j: int|
                    0 <= j < i ==> !re_matches((#[trigger] self.spec_table()[j]).spec_pattern(), path@),
            decreases self.spec_table().len() - i,
        {
            if entry_matches(&self.http_path_whitelist[i], path) {
                assert(spec_match_at(self.spec_table(), path@, i as int));
                return Some(self.http_path_whitelist[i].filter());
            }
            i += 1;
        }
        None
    }

    /// Whether `name` is on the environment allow-list.
    pub fn whitelisted_env(&self, name: &[u8]) -> (r: bool)
        ensures
            r == self.spec_env().contains(name@),
    {
        let mut i: usize = 0;
        while i < self.env_whitelist.len()
            invariant
                0 <= i <= self.spec_env().len(),
                forall|j: int| 0 <= j < i ==> self.spec_env()[j] != name@,
            decreases self.spec_env().len() - i,
        {
            if bytes_eq(self.env_whitelist[i].as_slice(), name) {
                assert(self.spec_env()[i as int] == name@);
                return true;
            }
            i += 1;
        }
        proof {
            if self.spec_env().contains(name@) {
                let j = choose|j: int|
                    0 <= j < self.spec_env().len() && self.spec_env()[j] == name@;
            }
        }
        false
    }
}

/// Installs the reference allow-list: ping and version pass through,
/// engine info, container list and container inspect run through their
/// filters.
pub fn install_reference_policy(config: &mut Config) -> (r: Result<(), ProxyError>)
    ensures
        r is Ok <==> (re_valid("^/_ping$"@) && re_valid("^(/v[0-9\\.]+)?/version$"@) && re_valid(
            "^(/v[0-9\\.]+)?/info$"@,
        ) && re_valid("^(/v[0-9\\.]+)?/containers/json(\\?.*)?$"@) && re_valid(
            "^(/v[0-9\\.]+)?/containers//?[a-zA-Z0-9][a-zA-Z0-9_\\.-]+/json(\\?.*)?$"@,
        )),
        r matches Err(e) ==> e.kind == ErrorKind::Config,
        r is Ok ==> final(config).spec_table().len() == old(config).spec_table().len() + 5,
        r is Ok ==> final(config).spec_table().take(old(config).spec_table().len() as int)
            == old(config).spec_table(),
        r is Ok ==> {
            let n = old(config).spec_table().len() as int;
            let t = final(config).spec_table();
            &&& t[n].spec_pattern() == "^/_ping$"@ && t[n].spec_filter()
                == FilterKind::PassThrough
            &&& t[n + 1].spec_pattern() == "^(/v[0-9\\.]+)?/version$"@ && t[n + 1].spec_filter()
                == FilterKind::PassThrough
            &&& t[n + 2].spec_pattern() == "^(/v[0-9\\.]+)?/info$"@ && t[n + 2].spec_filter()
                == FilterKind::Info
            &&& t[n + 3].spec_pattern() == "^(/v[0-9\\.]+)?/containers/json(\\?.*)?$"@ && t[n
                + 3].spec_filter() == FilterKind::List
            &&& t[n + 4].spec_pattern()
                == "^(/v[0-9\\.]+)?/containers//?[a-zA-Z0-9][a-zA-Z0-9_\\.-]+/json(\\?.*)?$"@ && t[
                n + 4].spec_filter() == FilterKind::Inspect
        },
        r is Ok ==> final(config).spec_env() == old(config).spec_env(),
        r is Ok ==> final(config).spec_host() == old(config).spec_host(),
{
    config.allow_http_path("^/_ping$")?;
    config.allow_http_path("^(/v[0-9\\.]+)?/version$")?;
    config.filter_http_path("^(/v[0-9\\.]+)?/info$", FilterKind::Info)?;
    config.filter_http_path("^(/v[0-9\\.]+)?/containers/json(\\?.*)?$", FilterKind::List)?;
    config.filter_http_path(
        "^(/v[0-9\\.]+)?/containers//?[a-zA-Z0-9][a-zA-Z0-9_\\.-]+/json(\\?.*)?$",
        FilterKind::Inspect,
    )?;
    Ok(())
}

} // verus!
