//! The library's error type: one kind per failure class, plus a chain of
//! messages (the primary message first, then each underlying cause).

use vstd::prelude::*;
use vstd::string::StringExecFns;

verus! {

/// The failure classes a connection can end with.
#[derive(Clone, Copy, PartialEq, Eq, Structural, Debug)]
pub enum ErrorKind {
    /// A socket or file operation failed.
    Io,
    /// Malformed HTTP framing.
    Protocol,
    /// A `Transfer-Encoding` other than `chunked`.
    UnsupportedFraming,
    /// A response-content filter failed.
    Filter,
    /// Invalid policy pattern or upstream address.
    Config,
}

/// An error with its cause chain: `messages[0]` is the primary message,
/// the rest are the underlying causes, outermost first.
#[derive(Debug)]
pub struct ProxyError {
    pub kind: ErrorKind,
    pub messages: Vec<String>,
}

impl ProxyError {
    /// A fresh error of the given kind with one message.
    pub fn new(kind: ErrorKind, msg: &str) -> (r: ProxyError)
        ensures
            r.kind == kind,
            r.messages@.len() == 1,
            r.messages@[0]@ == msg@,
    {
        let mut messages: Vec<String> = Vec::new();
        messages.push(String::from_str(msg));
        ProxyError { kind, messages }
    }

    /// Wraps the error in a new primary message; the old messages become
    /// the causes.
    pub fn wrap(self, msg: &str) -> (r: ProxyError)
        ensures
            r.kind == self.kind,
            r.messages@.len() == self.messages@.len() + 1,
            r.messages@[0]@ == msg@,
            forall|i: int|
                1 <= i < r.messages@.len() ==> r.messages@[i] == self.messages@[i - 1],
    {
        let ProxyError { kind, mut messages } = self;
        messages.insert(0, String::from_str(msg));
        ProxyError { kind, messages }
    }
}

/// Relies on `String::from_utf8_lossy`: the bytes decoded as UTF-8,
/// with invalid sequences replaced; used only to show header values in
/// error messages.
#[verifier::external_body]
pub(crate) fn lossy_string(b: &[u8]) -> (r: String) {
    String::from_utf8_lossy(b).into_owned()
}

/// The log lines for an error: the primary message prefixed `Error: `,
/// then each cause on its own line prefixed `Caused by: `.
pub fn log_error_chain(err: &ProxyError) -> (r: Vec<String>)
    ensures
        r@.len() == err.messages@.len(),
        forall|i: int|
            0 <= i < r@.len() ==> r@[i]@ == (if i == 0 {
                "Error: "@ + err.messages@[i]@
            } else {
                "Caused by: "@ + err.messages@[i]@
            }),
{
    let mut r: Vec<String> = Vec::new();
    let mut i: usize = 0;
    while i < err.messages.len()
        invariant
            0 <= i <= err.messages@.len(),
            r@.len() == i,
            forall|j: int|
                0 <= j < i ==> r@[j]@ == (if j == 0 {
                    "Error: "@ + err.messages@[j]@
                } else {
                    "Caused by: "@ + err.messages@[j]@
                }),
        decreases err.messages@.len() - i,
    {
        let mut line = if i == 0 {
            String::from_str("Error: ")
        } else {
            String::from_str("Caused by: ")
        };
        line.append(err.messages[i].as_str());
        r.push(line);
        i += 1;
    }
    r
}

} // verus!
