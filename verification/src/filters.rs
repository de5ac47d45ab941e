//! Response-content filters: the environment allow-list redaction at
//! their heart is verified byte-for-byte; the JSON values that are only
//! carried through (identifiers, state objects) pass through trusted
//! `serde_json` wrappers, and the output body is rebuilt by verified
//! rendering functions with exact byte contracts.

use vstd::prelude::*;
use vstd::string::StringSliceAdditionalSpecFns;

use crate::bytes::{push_all, push_str_bytes};
use crate::errors::{ErrorKind, ProxyError};
use crate::http::{Request, Response};
use crate::policy::{Config, FilterKind};
use crate::upstream::spec_find_byte;

verus! {

/// What a filter decides about a response body.
#[derive(Clone, Copy, PartialEq, Eq, Structural, Debug)]
pub enum Decision {
    /// Send the (possibly rewritten) body on.
    Forward,
    /// Send no body.
    Suppress,
}

// ---------------------------------------------------------------------
// Environment allow-list redaction (the verified core)
// ---------------------------------------------------------------------

/// An `NAME=VALUE` entry is kept when the name is non-empty, the value
/// is non-empty, and the name is on the allow-list.
pub open spec fn spec_env_keep(e: Seq<u8>, wl: Seq<Seq<u8>>) -> bool {
    match spec_find_byte(e, 61, 0) {
        None => false,
        Some(k) => k > 0 && k + 1 < e.len() && wl.contains(e.subrange(0, k)),
    }
}

/// The sublist of entries that are kept, in order.
pub open spec fn spec_filter_env(es: Seq<Seq<u8>>, wl: Seq<Seq<u8>>) -> Seq<Seq<u8>>
    decreases es.len(),
{
    if es.len() == 0 {
        Seq::empty()
    } else {
        (if spec_env_keep(es[0], wl) {
            seq![es[0]]
        } else {
            Seq::empty()
        }) + spec_filter_env(es.drop_first(), wl)
    }
}

/// Law: redacting an already-redacted list changes nothing.
pub proof fn lemma_filter_env_idempotent(es: Seq<Seq<u8>>, wl: Seq<Seq<u8>>)
    ensures
        spec_filter_env(spec_filter_env(es, wl), wl) == spec_filter_env(es, wl),
    decreases es.len(),
{
    if es.len() == 0 {
        assert(spec_filter_env(es, wl) =~= Seq::<Seq<u8>>::empty());
    } else {
        lemma_filter_env_idempotent(es.drop_first(), wl);
        let rest = spec_filter_env(es.drop_first(), wl);
        if spec_env_keep(es[0], wl) {
            let whole = seq![es[0]] + rest;
            assert(whole.len() > 0 && whole[0] == es[0]);
            assert(whole.drop_first() =~= rest);
            assert(spec_filter_env(whole, wl) == seq![es[0]] + spec_filter_env(rest, wl));
            assert(spec_filter_env(es, wl) =~= whole);
        } else {
            assert(Seq::<Seq<u8>>::empty() + rest =~= rest);
            assert(spec_filter_env(es, wl) =~= rest);
        }
    }
}

fn env_keep(config: &Config, e: &[u8]) -> (r: bool)
    ensures
        r == spec_env_keep(e@, config.spec_env()),
{
    match crate::upstream::find_byte(e, 61, 0) {
        None => false,
        Some(k) => {
            assert(k < e@.len());
            if k > 0 && e.len() - k > 1 {
                let name = &e[0..k];
                config.whitelisted_env(name)
            } else {
                false
            }
        },
    }
}

/// Keeps exactly the allow-listed `NAME=VALUE` entries, in order.
pub fn filter_env(config: &Config, entries: &Vec<Vec<u8>>) -> (r: Vec<Vec<u8>>)
    ensures
        r@.map_values(|v: Vec<u8>| v@) == spec_filter_env(
            entries@.map_values(|v: Vec<u8>| v@),
            config.spec_env(),
        ),
{
    let ghost es = entries@.map_values(|v: Vec<u8>| v@);
    let ghost wl = config.spec_env();
    let mut r: Vec<Vec<u8>> = Vec::new();
    let mut i: usize = 0;
    proof {
        assert(es.skip(0) =~= es);
        assert(r@.map_values(|v: Vec<u8>| v@) =~= Seq::<Seq<u8>>::empty());
        assert(Seq::<Seq<u8>>::empty() + spec_filter_env(es, wl) =~= spec_filter_env(es, wl));
    }
    while i < entries.len()
        invariant
            0 <= i <= es.len(),
            es == entries@.map_values(|v: Vec<u8>| v@),
            wl == config.spec_env(),
            r@.map_values(|v: Vec<u8>| v@) + spec_filter_env(es.skip(i as int), wl)
                == spec_filter_env(es, wl),
        decreases es.len() - i,
    {
        let ghost rv = r@.map_values(|v: Vec<u8>| v@);
        proof {
            assert(es.skip(i as int).len() == es.len() - i);
            assert(es.skip(i as int)[0] == es[i as int]);
            assert(es.skip(i as int).drop_first() =~= es.skip(i + 1));
        }
        if env_keep(config, entries[i].as_slice()) {
            let kept = entries[i].clone();
            assert(kept@ == es[i as int]);
            r.push(kept);
            proof {
                assert(r@.map_values(|v: Vec<u8>| v@) =~= rv + seq![es[i as int]]);
                assert((rv + seq![es[i as int]]) + spec_filter_env(es.skip(i + 1), wl) =~= rv + (
                seq![es[i as int]] + spec_filter_env(es.skip(i + 1), wl)));
            }
        } else {
            proof {
                assert(Seq::<Seq<u8>>::empty() + spec_filter_env(es.skip(i + 1), wl)
                    =~= spec_filter_env(es.skip(i + 1), wl));
            }
        }
        i += 1;
    }
    proof {
        assert(es.skip(es.len() as int).len() == 0);
        assert(r@.map_values(|v: Vec<u8>| v@) + Seq::<Seq<u8>>::empty() =~= r@.map_values(
            |v: Vec<u8>| v@,
        ));
    }
    r
}

// ---------------------------------------------------------------------
// JSON rendering (verified)
// ---------------------------------------------------------------------

/// One of 0..16 as a lower-case hexadecimal digit byte.
pub open spec fn spec_hex_digit(n: int) -> u8 {
    if n < 10 {
        (48 + n) as u8
    } else {
        (97 + (n - 10)) as u8
    }
}

/// How one byte appears inside a JSON string literal.
pub open spec fn spec_escape_byte(b: u8) -> Seq<u8> {
    if b == 34 {
        seq![92u8, 34u8]
    } else if b == 92 {
        seq![92u8, 92u8]
    } else if b == 10 {
        seq![92u8, 110u8]
    } else if b == 13 {
        seq![92u8, 114u8]
    } else if b == 9 {
        seq![92u8, 116u8]
    } else if b < 32 {
        seq![92u8, 117u8, 48u8, 48u8, spec_hex_digit((b / 16) as int), spec_hex_digit((b % 16) as int)]
    } else {
        seq![b]
    }
}

pub open spec fn spec_json_escape(s: Seq<u8>) -> Seq<u8>
    decreases s.len(),
{
    if s.len() == 0 {
        Seq::empty()
    } else {
        spec_escape_byte(s[0]) + spec_json_escape(s.drop_first())
    }
}

/// A JSON string literal for the UTF-8 bytes `s`.
pub open spec fn spec_json_string(s: Seq<u8>) -> Seq<u8> {
    seq![34u8] + spec_json_escape(s) + seq![34u8]
}

proof fn lemma_json_escape_concat(a: Seq<u8>, b: Seq<u8>)
    ensures
        spec_json_escape(a + b) == spec_json_escape(a) + spec_json_escape(b),
    decreases a.len(),
{
    if a.len() == 0 {
        assert(a + b =~= b);
        assert(spec_json_escape(a) + spec_json_escape(b) =~= spec_json_escape(b));
    } else {
        assert((a + b).drop_first() =~= a.drop_first() + b);
        assert((a + b)[0] == a[0]);
        lemma_json_escape_concat(a.drop_first(), b);
        assert(spec_escape_byte(a[0]) + (spec_json_escape(a.drop_first()) + spec_json_escape(b))
            =~= (spec_escape_byte(a[0]) + spec_json_escape(a.drop_first())) + spec_json_escape(b));
    }
}

/// Renders a JSON string literal for `s`.
pub fn render_json_string(s: &[u8]) -> (r: Vec<u8>)
    ensures
        r@ == spec_json_string(s@),
{
    let mut out: Vec<u8> = Vec::new();
    out.push(34);
    let ghost base = out@;
    assert(s@.take(0) =~= Seq::<u8>::empty());
    let mut i: usize = 0;
    while i < s.len()
        invariant
            0 <= i <= s@.len(),
            out@ == base + spec_json_escape(s@.take(i as int)),
        decreases s@.len() - i,
    {
        let ghost pre = out@;
        let b = s[i];
        if b == 34 {
            out.push(92);
            out.push(34);
        } else if b == 92 {
            out.push(92);
            out.push(92);
        } else if b == 10 {
            out.push(92);
            out.push(110);
        } else if b == 13 {
            out.push(92);
            out.push(114);
        } else if b == 9 {
            out.push(92);
            out.push(116);
        } else if b < 32 {
            out.push(92);
            out.push(117);
            out.push(48);
            out.push(48);
            let hi = b / 16;
            let lo = b % 16;
            out.push(if hi < 10 { 48 + hi } else { 97 + (hi - 10) });
            out.push(if lo < 10 { 48 + lo } else { 97 + (lo - 10) });
        } else {
            out.push(b);
        }
        proof {
            assert(out@ =~= pre + spec_escape_byte(s@[i as int]));
            assert(s@.take(i + 1) =~= s@.take(i as int) + seq![s@[i as int]]);
            lemma_json_escape_concat(s@.take(i as int), seq![s@[i as int]]);
            assert(seq![s@[i as int]].drop_first() =~= Seq::<u8>::empty());
            assert(spec_json_escape(Seq::<u8>::empty()) == Seq::<u8>::empty());
            assert(spec_json_escape(seq![s@[i as int]]) == spec_escape_byte(s@[i as int])
                + Seq::<u8>::empty());
            assert(spec_escape_byte(s@[i as int]) + Seq::<u8>::empty() =~= spec_escape_byte(
                s@[i as int],
            ));
        }
        i += 1;
    }
    proof {
        assert(s@.take(s@.len() as int) =~= s@);
    }
    out.push(34);
    assert(out@ =~= spec_json_string(s@));
    out
}

/// Already-rendered items joined with commas.
pub open spec fn spec_join_comma(items: Seq<Seq<u8>>) -> Seq<u8>
    decreases items.len(),
{
    if items.len() == 0 {
        Seq::empty()
    } else if items.len() == 1 {
        items[0]
    } else {
        items[0] + seq![44u8] + spec_join_comma(items.drop_first())
    }
}

/// A JSON array of already-rendered items.
pub open spec fn spec_json_array(items: Seq<Seq<u8>>) -> Seq<u8> {
    seq![91u8] + spec_join_comma(items) + seq![93u8]
}

/// A JSON object of already-rendered `"key":value` items.
pub open spec fn spec_json_object(items: Seq<Seq<u8>>) -> Seq<u8> {
    seq![123u8] + spec_join_comma(items) + seq![125u8]
}

proof fn lemma_join_comma_snoc(items: Seq<Seq<u8>>, x: Seq<u8>)
    requires
        items.len() > 0,
    ensures
        spec_join_comma(items.push(x)) == spec_join_comma(items) + seq![44u8] + x,
    decreases items.len(),
{
    let p = items.push(x);
    assert(p[0] == items[0]);
    if items.len() == 1 {
        assert(p.drop_first() =~= seq![x]);
        assert(spec_join_comma(seq![x]) == x);
        assert(items[0] + seq![44u8] + x == spec_join_comma(items) + seq![44u8] + x);
    } else {
        assert(p.drop_first() =~= items.drop_first().push(x));
        lemma_join_comma_snoc(items.drop_first(), x);
        assert(items[0] + seq![44u8] + (spec_join_comma(items.drop_first()) + seq![44u8] + x)
            =~= (items[0] + seq![44u8] + spec_join_comma(items.drop_first())) + seq![44u8] + x);
    }
}

/// Joins rendered items with commas into `out`.
fn join_comma(out: &mut Vec<u8>, items: &Vec<Vec<u8>>)
    ensures
        final(out)@ == old(out)@ + spec_join_comma(items@.map_values(|v: Vec<u8>| v@)),
{
    let ghost base = out@;
    let ghost its = items@.map_values(|v: Vec<u8>| v@);
    let mut i: usize = 0;
    while i < items.len()
        invariant
            0 <= i <= its.len(),
            its == items@.map_values(|v: Vec<u8>| v@),
            out@ == base + spec_join_comma(its.take(i as int)),
        decreases its.len() - i,
    {
        let ghost pre = out@;
        if i > 0 {
            out.push(44);
        }
        push_all(out, items[i].as_slice());
        proof {
            assert(its.take(i + 1) =~= its.take(i as int).push(its[i as int]));
            if i == 0 {
                assert(its.take(1).len() == 1);
                assert(spec_join_comma(its.take(1)) == its[0]);
                assert(out@ =~= base + spec_join_comma(its.take(1)));
            } else {
                lemma_join_comma_snoc(its.take(i as int), its[i as int]);
                assert(out@ =~= pre + (seq![44u8] + its[i as int]));
                assert(base + (spec_join_comma(its.take(i as int)) + seq![44u8] + its[i as int])
                    =~= (base + spec_join_comma(its.take(i as int))) + (seq![44u8]
                    + its[i as int]));
            }
        }
        i += 1;
    }
    proof {
        assert(its.take(its.len() as int) =~= its);
    }
}

/// A rendered `"key":value` object member.
pub open spec fn spec_pair(key: Seq<u8>, value: Seq<u8>) -> Seq<u8> {
    seq![34u8] + key + seq![34u8, 58u8] + value
}

/// Renders one `"key":value` object member; the key must need no
/// escaping (ours are plain ASCII names).
fn render_pair(key: &str, value: &[u8]) -> (r: Vec<u8>)
    ensures
        r@ == spec_pair(key.spec_bytes(), value@),
{
    let mut out: Vec<u8> = Vec::new();
    out.push(34);
    push_str_bytes(&mut out, key);
    out.push(34);
    out.push(58);
    push_all(&mut out, value);
    assert(out@ =~= spec_pair(key.spec_bytes(), value@));
    out
}

// ---------------------------------------------------------------------
// Trusted serde_json wrappers
// ---------------------------------------------------------------------

#[verifier::external_type_specification]
#[verifier::external_body]
pub struct ExValue(serde_json::Value);

/// Whether the bytes parse as one JSON value (a property of the bytes
/// alone).
pub uninterp spec fn json_valid(bytes: Seq<u8>) -> bool;

/// The serialization of the top-level member under `key` of the JSON
/// value that `body` parses to; `null` when `body` is not an object or
/// has no such member.  Parsing, member lookup and serialization are
/// all functions of their inputs, so this is a function of `body` and
/// `key` alone.
pub uninterp spec fn member_of(body: Seq<u8>, key: Seq<char>) -> Seq<u8>;

/// The `Config.Env` entries that are strings, in order, as UTF-8
/// bytes, of the JSON value that `body` parses to; empty when the path
/// is missing or not an array.  A function of `body` alone.
pub uninterp spec fn env_of(body: Seq<u8>) -> Seq<Seq<u8>>;

/// The element count of the JSON value that `body` parses to, when it
/// is an array; zero otherwise.  A function of `body` alone.
pub uninterp spec fn elem_count(body: Seq<u8>) -> nat;

/// The serialization of the member under `key` of element `i` of the
/// array that `body` parses to; `null` when the element is not an
/// object or has no such member.  A function of its arguments alone.
pub uninterp spec fn elem_member_of(body: Seq<u8>, i: int, key: Seq<char>) -> Seq<u8>;

/// A parsed JSON body, kept beside the exact bytes it was parsed from.
/// `parse_body` is the type's only constructor, so every member read
/// out of `value` is a function of `bytes` — which is what lets the
/// wrappers below speak of `member_of` and its kin.
pub struct ParsedBody {
    value: serde_json::Value,
    bytes: Vec<u8>,
}

impl ParsedBody {
    /// The bytes this body was parsed from.
    pub closed spec fn spec_bytes(&self) -> Seq<u8> {
        self.bytes@
    }
}

/// Relies on `serde_json::from_slice::<Value>`: parsing succeeds
/// exactly when the bytes are valid JSON (a deterministic function of
/// the bytes; an over-deep document fails with `Err`, it does not
/// panic).
#[verifier::external_body]
fn parse_body(bytes: &Vec<u8>) -> (r: Result<ParsedBody, ProxyError>)
    ensures
        r is Ok <==> json_valid(bytes@),
        r matches Ok(p) ==> p.spec_bytes() == bytes@,
        r matches Err(e) ==> e.kind == ErrorKind::Filter,
{
    match serde_json::from_slice::<serde_json::Value>(bytes.as_slice()) {
        Ok(value) => Ok(ParsedBody { value, bytes: bytes.clone() }),
        Err(e) => {
            let mut messages = Vec::new();
            messages.push(format!("{}", e));
            Err(ProxyError { kind: ErrorKind::Filter, messages })
        },
    }
}

/// Relies on `serde_json::Value::get` and `serde_json::to_vec`: the
/// serialization of the member under `key`, `null` when absent.  Both
/// calls are deterministic in the parsed value, which `ParsedBody`
/// pairs with its bytes; serializing a `Value` cannot fail (only
/// non-string map keys can, and `Value` objects have string keys), so
/// the error arm never runs.
#[verifier::external_body]
fn json_member(p: &ParsedBody, key: &str) -> (r: Vec<u8>)
    ensures
        r@ == member_of(p.spec_bytes(), key@),
{
    match p.value.get(key) {
        Some(m) => serde_json::to_vec(m).unwrap_or_else(|_| "null".as_bytes().to_vec()),
        None => "null".as_bytes().to_vec(),
    }
}

/// Relies on `serde_json::Value::get`, `Value::as_array` and
/// `Value::as_str`: the `Config.Env` entries that are strings, in
/// order, as owned bytes.  All deterministic in the parsed value,
/// which `ParsedBody` pairs with its bytes.
#[verifier::external_body]
fn json_env_entries(p: &ParsedBody) -> (r: Vec<Vec<u8>>)
    ensures
        r@.map_values(|v: Vec<u8>| v@) == env_of(p.spec_bytes()),
{
    let mut entries: Vec<Vec<u8>> = Vec::new();
    let env = p.value.get("Config").and_then(|c| c.get("Env")).and_then(|e| e.as_array());
    if let Some(arr) = env {
        for e in arr {
            if let Some(s) = e.as_str() {
                entries.push(s.as_bytes().to_vec());
            }
        }
    }
    entries
}

/// Relies on `serde_json::Value::as_array`: how many elements the
/// parsed array has (zero for a non-array), deterministic in the
/// parsed value, which `ParsedBody` pairs with its bytes.
#[verifier::external_body]
fn json_elem_count(p: &ParsedBody) -> (r: usize)
    ensures
        r == elem_count(p.spec_bytes()),
{
    p.value.as_array().map_or(0, |a| a.len())
}

/// Relies on `serde_json::Value::as_array`, `Value::get` and
/// `serde_json::to_vec`: the serialization of element `i`'s member
/// under `key`, `null` when absent.  The bound on `i` keeps the index
/// in range; serializing a `Value` cannot fail (see `json_member`).
#[verifier::external_body]
fn json_elem_member(p: &ParsedBody, i: usize, key: &str) -> (r: Vec<u8>)
    requires
        i < elem_count(p.spec_bytes()),
    ensures
        r@ == elem_member_of(p.spec_bytes(), i as int, key@),
{
    match p.value.as_array().and_then(|a| a[i].get(key)) {
        Some(m) => serde_json::to_vec(m).unwrap_or_else(|_| "null".as_bytes().to_vec()),
        None => "null".as_bytes().to_vec(),
    }
}

// ---------------------------------------------------------------------
// The filters
// ---------------------------------------------------------------------

/// The body the inspect filter emits: the four carried-through fields,
/// and `Config` holding the kept `Env` entries (or empty when none are
/// kept).
pub open spec fn spec_inspect_body(
    id: Seq<u8>,
    name: Seq<u8>,
    state: Seq<u8>,
    ns: Seq<u8>,
    env: Seq<Seq<u8>>,
) -> Seq<u8> {
    let config_value = if env.len() == 0 {
        spec_json_object(Seq::empty())
    } else {
        spec_json_object(
            seq![spec_pair("Env".spec_bytes(), spec_json_array(env.map_values(|e: Seq<u8>| spec_json_string(e))))],
        )
    };
    spec_json_object(
        seq![
            spec_pair("Id".spec_bytes(), id),
            spec_pair("Name".spec_bytes(), name),
            spec_pair("State".spec_bytes(), state),
            spec_pair("NetworkSettings".spec_bytes(), ns),
            spec_pair("Config".spec_bytes(), config_value),
        ],
    )
}

/// Renders the inspect filter's output body.
fn build_inspect_body(
    id: &Vec<u8>,
    name: &Vec<u8>,
    state: &Vec<u8>,
    ns: &Vec<u8>,
    env: &Vec<Vec<u8>>,
) -> (r: Vec<u8>)
    ensures
        r@ == spec_inspect_body(
            id@,
            name@,
            state@,
            ns@,
            env@.map_values(|v: Vec<u8>| v@),
        ),
{
    let ghost envv = env@.map_values(|v: Vec<u8>| v@);
    let config_value: Vec<u8> = if env.len() == 0 {
        let mut c: Vec<u8> = Vec::new();
        c.push(123);
        c.push(125);
        proof {
            assert(spec_join_comma(Seq::<Seq<u8>>::empty()) =~= Seq::<u8>::empty());
            assert(c@ =~= spec_json_object(Seq::empty()));
        }
        c
    } else {
        let mut rendered: Vec<Vec<u8>> = Vec::new();
        let mut i: usize = 0;
        while i < env.len()
            invariant
                0 <= i <= envv.len(),
                envv == env@.map_values(|v: Vec<u8>| v@),
                rendered@.len() == i,
                forall|j: int|
                    0 <= j < i ==> #[trigger] rendered@[j]@ == spec_json_string(envv[j]),
            decreases envv.len() - i,
        {
            rendered.push(render_json_string(env[i].as_slice()));
            i += 1;
        }
        proof {
            assert(rendered@.map_values(|v: Vec<u8>| v@) =~= envv.map_values(
                |e: Seq<u8>| spec_json_string(e),
            ));
        }
        let mut arr: Vec<u8> = Vec::new();
        arr.push(91);
        join_comma(&mut arr, &rendered);
        arr.push(93);
        proof {
            assert(arr@ =~= spec_json_array(envv.map_values(|e: Seq<u8>| spec_json_string(e))));
        }
        let pair = render_pair("Env", arr.as_slice());
        let mut c: Vec<u8> = Vec::new();
        c.push(123);
        push_all(&mut c, pair.as_slice());
        c.push(125);
        proof {
            let items = seq![
                spec_pair("Env".spec_bytes(), spec_json_array(envv.map_values(|e: Seq<u8>| spec_json_string(e)))),
            ];
            assert(spec_join_comma(items) == items[0]);
            assert(c@ =~= spec_json_object(items));
        }
        c
    };
    let mut items: Vec<Vec<u8>> = Vec::new();
    items.push(render_pair("Id", id.as_slice()));
    items.push(render_pair("Name", name.as_slice()));
    items.push(render_pair("State", state.as_slice()));
    items.push(render_pair("NetworkSettings", ns.as_slice()));
    items.push(render_pair("Config", config_value.as_slice()));
    let mut out: Vec<u8> = Vec::new();
    out.push(123);
    join_comma(&mut out, &items);
    out.push(125);
    proof {
        assert(items@.map_values(|v: Vec<u8>| v@) =~= seq![
            spec_pair("Id".spec_bytes(), id@),
            spec_pair("Name".spec_bytes(), name@),
            spec_pair("State".spec_bytes(), state@),
            spec_pair("NetworkSettings".spec_bytes(), ns@),
            spec_pair("Config".spec_bytes(), config_value@),
        ]);
        assert(out@ =~= spec_inspect_body(id@, name@, state@, ns@, envv));
    }
    out
}

/// What the inspect filter turns a valid 200 body into.
pub open spec fn spec_inspect_output(body: Seq<u8>, wl: Seq<Seq<u8>>) -> Seq<u8> {
    spec_inspect_body(
        member_of(body, "Id"@),
        member_of(body, "Name"@),
        member_of(body, "State"@),
        member_of(body, "NetworkSettings"@),
        spec_filter_env(env_of(body), wl),
    )
}

/// The filter for container-inspect responses: for a 200 body, keep
/// `Id`, `Name`, `State` and `NetworkSettings`, and reduce
/// `Config` to the allow-listed `Env` entries (the `Env` key is omitted
/// when none are kept).  Any other status passes through untouched.
pub fn inspect_filter(config: &Config, req: &Request, res: &Response, content: &mut Vec<u8>) -> (r:
    Result<Decision, ProxyError>)
    ensures
        res.code != 200 ==> r == Ok::<Decision, ProxyError>(Decision::Forward) && final(content)@
            == old(content)@,
        res.code == 200 ==> (r is Ok <==> json_valid(old(content)@)),
        r matches Err(e) ==> e.kind == ErrorKind::Filter && final(content)@ == old(content)@,
        r is Ok ==> r == Ok::<Decision, ProxyError>(Decision::Forward),
        res.code == 200 && json_valid(old(content)@) ==> final(content)@ == spec_inspect_output(
            old(content)@,
            config.spec_env(),
        ),
{
    let _ = req;
    if res.code != 200 {
        return Ok(Decision::Forward);
    }
    let p = parse_body(content)?;
    let id = json_member(&p, "Id");
    let name = json_member(&p, "Name");
    let state = json_member(&p, "State");
    let ns = json_member(&p, "NetworkSettings");
    let entries = json_env_entries(&p);
    let kept = filter_env(config, &entries);
    let out = build_inspect_body(&id, &name, &state, &ns, &kept);
    *content = out;
    Ok(Decision::Forward)
}

/// The body the list filter emits for each container: `Id`, `Created`
/// and `Status` carried through.
pub open spec fn spec_list_row(id: Seq<u8>, created: Seq<u8>, status: Seq<u8>) -> Seq<u8> {
    spec_json_object(
        seq![
            spec_pair("Id".spec_bytes(), id),
            spec_pair("Created".spec_bytes(), created),
            spec_pair("Status".spec_bytes(), status),
        ],
    )
}

fn build_list_row(id: &Vec<u8>, created: &Vec<u8>, status: &Vec<u8>) -> (r: Vec<u8>)
    ensures
        r@ == spec_list_row(id@, created@, status@),
{
    let mut items: Vec<Vec<u8>> = Vec::new();
    items.push(render_pair("Id", id.as_slice()));
    items.push(render_pair("Created", created.as_slice()));
    items.push(render_pair("Status", status.as_slice()));
    let mut out: Vec<u8> = Vec::new();
    out.push(123);
    join_comma(&mut out, &items);
    out.push(125);
    proof {
        assert(items@.map_values(|v: Vec<u8>| v@) =~= seq![
            spec_pair("Id".spec_bytes(), id@),
            spec_pair("Created".spec_bytes(), created@),
            spec_pair("Status".spec_bytes(), status@),
        ]);
        assert(out@ =~= spec_list_row(id@, created@, status@));
    }
    out
}

/// What the list filter turns a valid 200 body into: one row per
/// element of the parsed array.
pub open spec fn spec_list_output(body: Seq<u8>) -> Seq<u8> {
    spec_json_array(
        Seq::new(
            elem_count(body),
            |i: int|
                spec_list_row(
                    elem_member_of(body, i, "Id"@),
                    elem_member_of(body, i, "Created"@),
                    elem_member_of(body, i, "Status"@),
                ),
        ),
    )
}

/// The filter for container-list responses: for a 200 body, replace the
/// array with one of `{Id, Created, Status}` rows (an empty array when
/// the body is not an array).  Any other status passes through
/// untouched.
pub fn list_filter(config: &Config, req: &Request, res: &Response, content: &mut Vec<u8>) -> (r:
    Result<Decision, ProxyError>)
    ensures
        res.code != 200 ==> r == Ok::<Decision, ProxyError>(Decision::Forward) && final(content)@
            == old(content)@,
        res.code == 200 ==> (r is Ok <==> json_valid(old(content)@)),
        r matches Err(e) ==> e.kind == ErrorKind::Filter && final(content)@ == old(content)@,
        r is Ok ==> r == Ok::<Decision, ProxyError>(Decision::Forward),
        res.code == 200 && json_valid(old(content)@) ==> final(content)@ == spec_list_output(
            old(content)@,
        ),
{
    let _ = config;
    let _ = req;
    if res.code != 200 {
        return Ok(Decision::Forward);
    }
    let p = parse_body(content)?;
    let ghost body = p.spec_bytes();
    let n = json_elem_count(&p);
    let mut rows: Vec<Vec<u8>> = Vec::new();
    let mut i: usize = 0;
    while i < n
        invariant
            0 <= i <= n,
            n == elem_count(body),
            body == p.spec_bytes(),
            rows@.len() == i,
            forall|j: int|
                0 <= j < i ==> #[trigger] rows@[j]@ == spec_list_row(
                    elem_member_of(body, j, "Id"@),
                    elem_member_of(body, j, "Created"@),
                    elem_member_of(body, j, "Status"@),
                ),
        decreases n - i,
    {
        let id = json_elem_member(&p, i, "Id");
        let created = json_elem_member(&p, i, "Created");
        let status = json_elem_member(&p, i, "Status");
        rows.push(build_list_row(&id, &created, &status));
        i += 1;
    }
    let mut out: Vec<u8> = Vec::new();
    out.push(91);
    join_comma(&mut out, &rows);
    out.push(93);
    proof {
        let target = Seq::new(
            elem_count(body),
            |j: int|
                spec_list_row(
                    elem_member_of(body, j, "Id"@),
                    elem_member_of(body, j, "Created"@),
                    elem_member_of(body, j, "Status"@),
                ),
        );
        assert(rows@.map_values(|v: Vec<u8>| v@) =~= target);
        assert(out@ =~= spec_json_array(target));
    }
    *content = out;
    Ok(Decision::Forward)
}

/// The engine-info fields the info filter carries through; everything
/// else is redacted.
pub open spec fn spec_info_body(
    id: Seq<u8>,
    name: Seq<u8>,
    containers: Seq<u8>,
    images: Seq<u8>,
    server_version: Seq<u8>,
    operating_system: Seq<u8>,
) -> Seq<u8> {
    spec_json_object(
        seq![
            spec_pair("ID".spec_bytes(), id),
            spec_pair("Name".spec_bytes(), name),
            spec_pair("Containers".spec_bytes(), containers),
            spec_pair("Images".spec_bytes(), images),
            spec_pair("ServerVersion".spec_bytes(), server_version),
            spec_pair("OperatingSystem".spec_bytes(), operating_system),
        ],
    )
}

/// What the info filter turns a valid 200 body into.
pub open spec fn spec_info_output(body: Seq<u8>) -> Seq<u8> {
    spec_info_body(
        member_of(body, "ID"@),
        member_of(body, "Name"@),
        member_of(body, "Containers"@),
        member_of(body, "Images"@),
        member_of(body, "ServerVersion"@),
        member_of(body, "OperatingSystem"@),
    )
}

/// The filter for engine-info responses: for a 200 body, keep a fixed
/// handful of benign fields and drop the rest (the same redaction
/// stance as the inspect filter).  Any other status passes through
/// untouched.
pub fn info_filter(config: &Config, req: &Request, res: &Response, content: &mut Vec<u8>) -> (r:
    Result<Decision, ProxyError>)
    ensures
        res.code != 200 ==> r == Ok::<Decision, ProxyError>(Decision::Forward) && final(content)@
            == old(content)@,
        res.code == 200 ==> (r is Ok <==> json_valid(old(content)@)),
        r matches Err(e) ==> e.kind == ErrorKind::Filter && final(content)@ == old(content)@,
        r is Ok ==> r == Ok::<Decision, ProxyError>(Decision::Forward),
        res.code == 200 && json_valid(old(content)@) ==> final(content)@ == spec_info_output(
            old(content)@,
        ),
{
    let _ = config;
    let _ = req;
    if res.code != 200 {
        return Ok(Decision::Forward);
    }
    let p = parse_body(content)?;
    let id = json_member(&p, "ID");
    let name = json_member(&p, "Name");
    let containers = json_member(&p, "Containers");
    let images = json_member(&p, "Images");
    let server_version = json_member(&p, "ServerVersion");
    let operating_system = json_member(&p, "OperatingSystem");
    let mut items: Vec<Vec<u8>> = Vec::new();
    items.push(render_pair("ID", id.as_slice()));
    items.push(render_pair("Name", name.as_slice()));
    items.push(render_pair("Containers", containers.as_slice()));
    items.push(render_pair("Images", images.as_slice()));
    items.push(render_pair("ServerVersion", server_version.as_slice()));
    items.push(render_pair("OperatingSystem", operating_system.as_slice()));
    let mut out: Vec<u8> = Vec::new();
    out.push(123);
    join_comma(&mut out, &items);
    out.push(125);
    proof {
        assert(items@.map_values(|v: Vec<u8>| v@) =~= seq![
            spec_pair("ID".spec_bytes(), id@),
            spec_pair("Name".spec_bytes(), name@),
            spec_pair("Containers".spec_bytes(), containers@),
            spec_pair("Images".spec_bytes(), images@),
            spec_pair("ServerVersion".spec_bytes(), server_version@),
            spec_pair("OperatingSystem".spec_bytes(), operating_system@),
        ]);
        assert(out@ =~= spec_info_output(old(content)@));
    }
    *content = out;
    Ok(Decision::Forward)
}

/// What the selected filter makes of a response body: pass-through and
/// non-200 bodies are untouched, the three content filters rewrite a
/// valid 200 body as their output specs say.
pub open spec fn spec_filter_output(
    kind: FilterKind,
    wl: Seq<Seq<u8>>,
    code: u16,
    body: Seq<u8>,
) -> Seq<u8> {
    if kind == FilterKind::PassThrough || code != 200 {
        body
    } else if kind == FilterKind::Inspect {
        spec_inspect_output(body, wl)
    } else if kind == FilterKind::List {
        spec_list_output(body)
    } else {
        spec_info_output(body)
    }
}

/// Applies the filter a policy entry selected.  Succeeds exactly when
/// the filter has nothing to parse (pass-through or non-200) or the
/// body is valid JSON; on success the body is exactly what
/// `spec_filter_output` says, and the decision is always `Forward`.
pub fn apply_filter(
    kind: FilterKind,
    config: &Config,
    req: &Request,
    res: &Response,
    content: &mut Vec<u8>,
) -> (r: Result<Decision, ProxyError>)
    ensures
        r is Ok <==> (kind == FilterKind::PassThrough || res.code != 200 || json_valid(
            old(content)@,
        )),
        r matches Err(e) ==> e.kind == ErrorKind::Filter && final(content)@ == old(content)@,
        r is Ok ==> r == Ok::<Decision, ProxyError>(Decision::Forward) && final(content)@
            == spec_filter_output(kind, config.spec_env(), res.code, old(content)@),
        res.code != 200 ==> r == Ok::<Decision, ProxyError>(Decision::Forward) && final(content)@
            == old(content)@,
{
    match kind {
        FilterKind::PassThrough => Ok(Decision::Forward),
        FilterKind::Info => info_filter(config, req, res, content),
        FilterKind::List => list_filter(config, req, res, content),
        FilterKind::Inspect => inspect_filter(config, req, res, content),
    }
}

} // verus!
