//! The error type shared by the whole library.

use vstd::prelude::*;

use crate::text::{push_str, string_of};

verus! {

#[verifier::external_type_specification]
#[verifier::external_body]
pub struct ExIoError(std::io::Error);

#[verifier::external_type_specification]
#[verifier::external_body]
pub struct ExAnyhowError(anyhow::Error);

/// Errors of every layer: I/O, parsing, storage, embedding, symbols.
#[derive(Debug)]
pub enum CtxError {
    Io(std::io::Error),
    Parse(String),
    Store(String),
    Embed(String),
    Symbol(String),
    Unimplemented(String),
    Other(anyhow::Error),
}

/// `anyhow::Error::msg`: an opaque error carrying the message `m`.
/// Nothing is stated of the value: it is carried, never read, by the library.
#[verifier::external_body]
pub(crate) fn other_error(m: String) -> (r: CtxError)
    ensures
        r is Other,
{
    CtxError::Other(anyhow::Error::msg(m))
}

/// `Display` of an I/O error, as text. The text is the standard library's
/// to choose; nothing is stated of it.
#[verifier::external_body]
fn io_error_text(e: &std::io::Error) -> String {
    format!("{e}")
}

/// `Display` of an `anyhow` error, as text. The text is the error's own;
/// nothing is stated of it.
#[verifier::external_body]
fn anyhow_error_text(e: &anyhow::Error) -> String {
    format!("{e}")
}

/// The text of an error message: its layer's label, then the detail.
pub open spec fn layer_message(label: Seq<char>, detail: Seq<char>) -> Seq<char> {
    label + detail
}

impl CtxError {
    /// The error's message: `io: ..`, `parse: ..`, `store: ..`, `embed: ..`,
    /// `symbol: ..` or `unimplemented: ..` followed by the detail; an `Other`
    /// error shows its own message.
    pub fn message(&self) -> (r: String)
        ensures
            match self {
                CtxError::Parse(m) => r@ == layer_message("parse: "@, m@),
                CtxError::Store(m) => r@ == layer_message("store: "@, m@),
                CtxError::Embed(m) => r@ == layer_message("embed: "@, m@),
                CtxError::Symbol(m) => r@ == layer_message("symbol: "@, m@),
                CtxError::Unimplemented(m) => r@ == layer_message("unimplemented: "@, m@),
                CtxError::Io(_) => r@.len() >= 4 && r@.subrange(0, 4) == "io: "@,
                CtxError::Other(_) => true,
            },
    {
        let mut out: Vec<char> = Vec::new();
        match self {
            CtxError::Io(e) => {
                push_str(&mut out, "io: ");
                let t = io_error_text(e);
                push_str(&mut out, t.as_str());
                proof {
                    reveal_strlit("io: ");
                    assert(out@.subrange(0, 4) =~= "io: "@);
                }
            },
            CtxError::Parse(m) => {
                push_str(&mut out, "parse: ");
                push_str(&mut out, m.as_str());
            },
            CtxError::Store(m) => {
                push_str(&mut out, "store: ");
                push_str(&mut out, m.as_str());
            },
            CtxError::Embed(m) => {
                push_str(&mut out, "embed: ");
                push_str(&mut out, m.as_str());
            },
            CtxError::Symbol(m) => {
                push_str(&mut out, "symbol: ");
                push_str(&mut out, m.as_str());
            },
            CtxError::Unimplemented(m) => {
                push_str(&mut out, "unimplemented: ");
                push_str(&mut out, m.as_str());
            },
            CtxError::Other(e) => {
                return anyhow_error_text(e);
            },
        }
        string_of(&out)
    }
}

} // verus!
