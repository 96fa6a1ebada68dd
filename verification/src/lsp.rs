//! The language-server protocol as the symbol extractor speaks it:
//! `Content-Length` framing of JSON-RPC messages, the classification of
//! incoming messages and the replies to server requests, and the mapping of
//! document symbols to the library's symbols.

use vstd::prelude::*;

use crate::error::CtxError;
use crate::text::{
    chars_of, decimal_chars, push_chars, push_str, sat_inc, spec_decimal, spec_trim, string_of,
    trim,
};
use crate::types::{opt_view, syms_view, ChunkKind, Symbol, SymbolView};
use vstd::string::StringSliceAdditionalSpecFns;

verus! {

// ---------------------------------------------------------------------------
// Unsigned decimal numbers
// ---------------------------------------------------------------------------

/// Whether `c` is an ASCII digit.
pub open spec fn is_digit(c: char) -> bool {
    '0' <= c && c <= '9'
}

/// Whether every character of `ds` is an ASCII digit.
pub open spec fn all_digits(ds: Seq<char>) -> bool {
    forall|i: int| 0 <= i < ds.len() ==> is_digit(#[trigger] ds[i])
}

/// The value of a string of decimal digits.
pub open spec fn digits_value(ds: Seq<char>) -> nat
    decreases ds.len(),
{
    if ds.len() == 0 {
        0
    } else {
        digits_value(ds.drop_last()) * 10 + ((ds.last() as int - 48) as nat)
    }
}

/// The digits of an unsigned number's text: a leading `+` is allowed.
pub open spec fn unsigned_digits(s: Seq<char>) -> Seq<char> {
    if s.len() > 0 && s[0] == '+' {
        s.skip(1)
    } else {
        s
    }
}

/// `usize::from_str`: the value of an optional `+` followed by one or more
/// ASCII digits, when it fits in `usize`.
pub open spec fn spec_parse_usize(s: Seq<char>) -> Option<nat> {
    let ds = unsigned_digits(s);
    if ds.len() == 0 || !all_digits(ds) || digits_value(ds) > usize::MAX {
        None
    } else {
        Some(digits_value(ds))
    }
}

/// A longer string of digits has at least the value of its prefixes.
proof fn lemma_digits_value_prefix(ds: Seq<char>, j: int)
    requires
        all_digits(ds),
        0 <= j <= ds.len(),
    ensures
        digits_value(ds.subrange(0, j)) <= digits_value(ds),
    decreases ds.len(),
{
    if j < ds.len() {
        let d = ds.drop_last();
        assert(all_digits(d)) by {
            assert forall|i: int| 0 <= i < d.len() implies is_digit(#[trigger] d[i]) by {
                assert(d[i] == ds[i]);
            }
        }
        lemma_digits_value_prefix(d, j);
        assert(d.subrange(0, j) =~= ds.subrange(0, j));
    } else {
        assert(ds.subrange(0, j) =~= ds);
    }
}

/// Parses an unsigned decimal number as `str::parse::<usize>` does.
pub fn parse_usize(s: &str) -> (r: Option<usize>)
    ensures
        match spec_parse_usize(s@) {
            Some(n) => r == Some(n as usize),
            None => r is None,
        },
{
    let cs = chars_of(s);
    let start: usize = if cs.len() > 0 && cs[0] == '+' {
        1
    } else {
        0
    };
    let ghost ds = unsigned_digits(s@);
    assert(ds =~= cs@.subrange(start as int, cs@.len() as int));
    if start >= cs.len() {
        assert(ds.len() == 0);
        assert(spec_parse_usize(s@) is None);
        return None;
    }
    let mut acc: usize = 0;
    let mut i: usize = start;
    while i < cs.len()
        invariant
            start <= i <= cs@.len(),
            cs@ == s@,
            ds == unsigned_digits(s@),
            ds == cs@.subrange(start as int, cs@.len() as int),
            all_digits(ds.subrange(0, i - start)),
            acc == digits_value(ds.subrange(0, i - start)),
        decreases cs@.len() - i,
    {
        let c = cs[i];
        let ghost k = i - start;
        assert(ds[k] == c);
        if !('0' <= c && c <= '9') {
            assert(!all_digits(ds)) by {
                assert(!is_digit(ds[k]));
            }
            assert(spec_parse_usize(s@) is None);
            return None;
        }
        let d: usize = (c as u32 - 48) as usize;
        assert(ds.subrange(0, k + 1).drop_last() =~= ds.subrange(0, k));
        assert(ds.subrange(0, k + 1).last() == c);
        assert(all_digits(ds.subrange(0, k + 1))) by {
            assert forall|j: int| 0 <= j < k + 1 implies is_digit(#[trigger] ds.subrange(0, k + 1)[j]) by {
                if j < k {
                    assert(ds.subrange(0, k + 1)[j] == ds.subrange(0, k)[j]);
                }
            }
        }
        let next = match acc.checked_mul(10) {
            Some(m) => m.checked_add(d),
            None => None,
        };
        match next {
            Some(v) => {
                acc = v;
            },
            None => {
                proof {
                    assert(digits_value(ds.subrange(0, k + 1)) == acc * 10 + d);
                    if all_digits(ds) {
                        lemma_digits_value_prefix(ds, k + 1);
                    }
                }
                assert(spec_parse_usize(s@) is None);
                return None;
            },
        }
        i = i + 1;
    }
    assert(ds.subrange(0, i - start) =~= ds);
    assert(all_digits(ds));
    assert(digits_value(ds) == acc);
    assert(spec_parse_usize(s@) == Some(acc as nat));
    Some(acc)
}

/// The text of a number is parsed back to the number.
pub proof fn lemma_parse_decimal(n: nat)
    requires
        n <= usize::MAX,
    ensures
        spec_parse_usize(spec_decimal(n)) == Some(n),
{
    lemma_decimal_digits(n);
}

/// The decimal text of `n` is a nonempty string of digits worth `n`.
proof fn lemma_decimal_digits(n: nat)
    ensures
        spec_decimal(n).len() > 0,
        all_digits(spec_decimal(n)),
        digits_value(spec_decimal(n)) == n,
        spec_decimal(n)[0] != '+',
    decreases n,
{
    lemma_digit_char(n % 10);
    if n < 10 {
        let s = spec_decimal(n);
        assert(s =~= seq![crate::text::digit_char(n)]);
        assert(s.drop_last() =~= Seq::<char>::empty());
        assert(n % 10 == n);
        assert(s.last() as int == 48 + n);
        assert(digits_value(s) == digits_value(s.drop_last()) * 10 + ((s.last() as int - 48) as nat));
    } else {
        lemma_decimal_digits(n / 10);
        let p = spec_decimal(n / 10);
        let s = spec_decimal(n);
        assert(s =~= p.push(crate::text::digit_char(n % 10)));
        assert(s.drop_last() =~= p);
        assert(s.last() as int == 48 + n % 10);
        assert(digits_value(s) == digits_value(p) * 10 + ((s.last() as int - 48) as nat));
        assert(n == (n / 10) * 10 + n % 10);
        assert(all_digits(s)) by {
            assert forall|i: int| 0 <= i < s.len() implies is_digit(#[trigger] s[i]) by {
                if i < p.len() {
                    assert(s[i] == p[i]);
                }
            }
        }
        assert(s[0] == p[0]);
    }
}

/// The digit character of `d < 10` is the ASCII digit worth `d`.
proof fn lemma_digit_char(d: nat)
    requires
        d < 10,
    ensures
        crate::text::digit_char(d) as int == 48 + d,
        is_digit(crate::text::digit_char(d)),
{
    let b: u8 = (48 + d) as u8;
    assert(b as int == 48 + d);
    assert((b as char) as int == b as int);
}

// ---------------------------------------------------------------------------
// Framing
// ---------------------------------------------------------------------------

/// The header that precedes a message body of `len` bytes.
pub open spec fn spec_frame_header(len: nat) -> Seq<char> {
    "Content-Length: "@ + spec_decimal(len) + "\r\n\r\n"@
}

/// `Content-Length: <len>\r\n\r\n`.
pub fn frame_header(body_len: usize) -> (r: String)
    ensures
        r@ == spec_frame_header(body_len as nat),
{
    let mut out: Vec<char> = Vec::new();
    push_str(&mut out, "Content-Length: ");
    let d = decimal_chars(body_len as u64);
    push_chars(&mut out, &d);
    push_str(&mut out, "\r\n\r\n");
    string_of(&out)
}

/// Whitespace before index `k` (from `i` on) is skipped up to `k`.
proof fn lemma_skip_to(x: Seq<char>, i: int, k: int)
    requires
        0 <= i <= k < x.len(),
        forall|j: int| i <= j < k ==> crate::text::is_ws(#[trigger] x[j]),
        !crate::text::is_ws(x[k]),
    ensures
        crate::text::skip_ws_from(x, i) == k,
    decreases k - i,
{
    if i < k {
        lemma_skip_to(x, i + 1, k);
    }
}

/// Whitespace from index `k` to `j` is trimmed back to `k`.
proof fn lemma_trim_back_to(x: Seq<char>, k: int, j: int)
    requires
        0 < k <= j <= x.len(),
        forall|m: int| k <= m < j ==> crate::text::is_ws(#[trigger] x[m]),
        !crate::text::is_ws(x[k - 1]),
    ensures
        crate::text::trim_end_to(x, j) == k,
    decreases j - k,
{
    if j > k {
        lemma_trim_back_to(x, k, j - 1);
    }
}

/// Trimming whitespace `a` and `b` from around `s`, whose ends are not
/// whitespace, gives `s`.
proof fn lemma_trim_around(a: Seq<char>, s: Seq<char>, b: Seq<char>)
    requires
        s.len() > 0,
        !crate::text::is_ws(s[0]),
        !crate::text::is_ws(s.last()),
        forall|j: int| 0 <= j < a.len() ==> crate::text::is_ws(#[trigger] a[j]),
        forall|j: int| 0 <= j < b.len() ==> crate::text::is_ws(#[trigger] b[j]),
    ensures
        spec_trim(a + s + b) == s,
{
    let x = a + s + b;
    assert forall|j: int| 0 <= j < a.len() implies crate::text::is_ws(#[trigger] x[j]) by {
        assert(x[j] == a[j]);
    }
    assert(x[a.len() as int] == s[0]);
    lemma_skip_to(x, 0, a.len() as int);
    let e: int = (a.len() + s.len()) as int;
    assert forall|m: int| e <= m < x.len() implies crate::text::is_ws(#[trigger] x[m]) by {
        assert(x[m] == b[m - e]);
    }
    assert(x[e - 1] == s.last());
    lemma_trim_back_to(x, e, x.len() as int);
    assert(x.subrange(a.len() as int, e) =~= s);
}

/// A digit is not whitespace.
proof fn lemma_digits_not_ws(ds: Seq<char>)
    requires
        all_digits(ds),
    ensures
        forall|i: int| 0 <= i < ds.len() ==> !crate::text::is_ws(#[trigger] ds[i]),
{
    assert forall|i: int| 0 <= i < ds.len() implies !crate::text::is_ws(#[trigger] ds[i]) by {
        assert(is_digit(ds[i]));
    }
}

/// What the writer frames, the reader reads back: the header of a body of
/// `n` bytes, read line by line, yields the length `n` and then the start of
/// the body.
pub proof fn lemma_frame_roundtrip(n: nat, server: Seq<char>)
    requires
        n <= usize::MAX,
    ensures
        ("Content-Length: "@ + spec_decimal(n) + "\r\n"@) + "\r\n"@ == spec_frame_header(n),
        spec_header_step(None, Some("Content-Length: "@ + spec_decimal(n) + "\r\n"@), server)
            == Ok::<HeaderStep, Seq<char>>(HeaderStep::Continue(Some(n as usize))),
        spec_header_step(Some(n as usize), Some("\r\n"@), server) == Ok::<HeaderStep, Seq<char>>(
            HeaderStep::Body(n as usize),
        ),
{
    reveal_strlit("Content-Length: ");
    reveal_strlit("Content-Length:");
    reveal_strlit("\r\n");
    reveal_strlit("\r\n\r\n");
    let d = spec_decimal(n);
    lemma_decimal_digits(n);
    lemma_digits_not_ws(d);
    lemma_parse_decimal(n);
    let head = "Content-Length: "@;
    let crlf = "\r\n"@;
    assert((head + d + crlf) + crlf =~= spec_frame_header(n));
    // The first line trims to the header text.
    let t = head + d;
    assert(t =~= Seq::<char>::empty() + t + Seq::<char>::empty());
    assert(!crate::text::is_ws(t[0]));
    assert(t.last() == d.last());
    lemma_trim_around(Seq::<char>::empty(), t, crlf);
    assert(Seq::<char>::empty() + t + crlf =~= head + d + crlf);
    assert(t.subrange(0, 15) =~= length_header());
    let rest = t.skip(15);
    assert(rest =~= seq![' '] + d + Seq::<char>::empty());
    lemma_trim_around(seq![' '], d, Seq::<char>::empty());
    // The blank line ends the headers.
    assert(crate::text::skip_ws_from(crlf, 0) == 2) by {
        lemma_skip_ws_all(crlf, 0);
    }
    assert(crate::text::trim_end_to(crlf, 2) == 0) by {
        assert(crlf[0] == '\r');
        assert(crate::text::is_ws(crlf[0]));
        assert(crate::text::trim_end_to(crlf, 0) == 0);
        assert(crate::text::trim_end_to(crlf, 1) == 0);
    }
    assert(spec_trim(crlf).len() == 0);
}

/// Skipping whitespace over a sequence of whitespace reaches its end.
proof fn lemma_skip_ws_all(x: Seq<char>, i: int)
    requires
        0 <= i <= x.len(),
        forall|j: int| 0 <= j < x.len() ==> crate::text::is_ws(#[trigger] x[j]),
    ensures
        crate::text::skip_ws_from(x, i) == x.len(),
    decreases x.len() - i,
{
    if i < x.len() {
        lemma_skip_ws_all(x, i + 1);
    }
}

/// What reading one header line decides.
#[derive(Clone, Copy, Debug, PartialEq, Eq)]
pub enum HeaderStep {
    /// Read another header line; the body length known so far.
    Continue(Option<usize>),
    /// The headers are over: read a body of this many bytes.
    Body(usize),
}

/// The header name that gives the body length.
pub open spec fn length_header() -> Seq<char> {
    "Content-Length:"@
}

/// Reading the header line `line` (`None`: the stream ended) when the body
/// length read so far is `known`.
pub open spec fn spec_header_step(known: Option<usize>, line: Option<Seq<char>>, server: Seq<char>) -> Result<
    HeaderStep,
    Seq<char>,
> {
    match line {
        None => Err(server + " server closed"@),
        Some(l) => {
            let t = spec_trim(l);
            if t.len() == 0 {
                match known {
                    Some(n) => Ok(HeaderStep::Body(n)),
                    None => Err(server + " missing Content-Length"@),
                }
            } else if t.len() >= 15 && t.subrange(0, 15) == length_header() {
                let rest = t.skip(15);
                match spec_parse_usize(spec_trim(rest)) {
                    Some(n) => Ok(HeaderStep::Continue(Some(n as usize))),
                    None => Err(server + " invalid Content-Length: "@ + rest),
                }
            } else {
                Ok(HeaderStep::Continue(known))
            }
        },
    }
}

/// Reads one header line of a framed message; other headers are ignored,
/// and a later `Content-Length` replaces an earlier one.
pub fn read_header_line(known: Option<usize>, line: Option<&str>, server: &str) -> (r: Result<
    HeaderStep,
    CtxError,
>)
    ensures
        match spec_header_step(
            known,
            match line {
                Some(l) => Some(l@),
                None => None,
            },
            server@,
        ) {
            Ok(step) => r == Ok::<HeaderStep, CtxError>(step),
            Err(m) => r is Err && r->Err_0 is Symbol && r->Err_0->Symbol_0@ == m,
        },
{
    let l = match line {
        None => {
            let mut m: Vec<char> = Vec::new();
            push_str(&mut m, server);
            push_str(&mut m, " server closed");
            return Err(CtxError::Symbol(string_of(&m)));
        },
        Some(l) => l,
    };
    let t = trim(l);
    let tc = chars_of(t.as_str());
    if tc.len() == 0 {
        return match known {
            Some(n) => Ok(HeaderStep::Body(n)),
            None => {
                let mut m: Vec<char> = Vec::new();
                push_str(&mut m, server);
                push_str(&mut m, " missing Content-Length");
                Err(CtxError::Symbol(string_of(&m)))
            },
        };
    }
    let name = chars_of("Content-Length:");
    proof {
        reveal_strlit("Content-Length:");
    }
    if tc.len() >= 15 && crate::text::chars_eq(&prefix_of(&tc, 15), &name) {
        let rest = suffix_from(&tc, 15);
        let rest_s = string_of(&rest);
        let rest_t = trim(rest_s.as_str());
        match parse_usize(rest_t.as_str()) {
            Some(n) => Ok(HeaderStep::Continue(Some(n))),
            None => {
                let mut m: Vec<char> = Vec::new();
                push_str(&mut m, server);
                push_str(&mut m, " invalid Content-Length: ");
                push_chars(&mut m, &rest);
                Err(CtxError::Symbol(string_of(&m)))
            },
        }
    } else {
        Ok(HeaderStep::Continue(known))
    }
}

/// The first `n` characters of `v`.
fn prefix_of(v: &Vec<char>, n: usize) -> (r: Vec<char>)
    requires
        n <= v@.len(),
    ensures
        r@ == v@.subrange(0, n as int),
{
    let mut out: Vec<char> = Vec::new();
    let mut i: usize = 0;
    while i < n
        invariant
            0 <= i <= n <= v@.len(),
            out@ == v@.subrange(0, i as int),
        decreases n - i,
    {
        out.push(v[i]);
        i = i + 1;
        assert(out@ =~= v@.subrange(0, i as int));
    }
    out
}

/// The characters of `v` from index `n` on.
fn suffix_from(v: &Vec<char>, n: usize) -> (r: Vec<char>)
    requires
        n <= v@.len(),
    ensures
        r@ == v@.skip(n as int),
{
    let mut out: Vec<char> = Vec::new();
    let mut i: usize = n;
    while i < v.len()
        invariant
            n <= i <= v@.len(),
            out@ == v@.subrange(n as int, i as int),
        decreases v@.len() - i,
    {
        out.push(v[i]);
        i = i + 1;
        assert(out@ =~= v@.subrange(n as int, i as int));
    }
    assert(v@.subrange(n as int, v@.len() as int) =~= v@.skip(n as int));
    out
}

// ---------------------------------------------------------------------------
// Incoming messages
// ---------------------------------------------------------------------------

/// What an incoming JSON-RPC message is.
#[derive(Clone, Copy, PartialEq, Eq, Debug, Structural)]
pub enum MessageKind {
    /// A request from the server (it has a method and an id): answer it.
    ServerRequest,
    /// A notification (a method, no id): nothing to do.
    Notification,
    /// The response to one of our requests, by its numeric id.
    Response(i64),
    /// Neither: no method, and no numeric id.
    Unclassifiable,
}

/// Classifies a message by whether it has a `method`, whether it has an
/// `id`, and the id as a number when it is one.
pub fn classify_message(has_method: bool, has_id: bool, numeric_id: Option<i64>) -> (r: MessageKind)
    ensures
        r == (if has_method && has_id {
            MessageKind::ServerRequest
        } else if has_method {
            MessageKind::Notification
        } else {
            match numeric_id {
                Some(id) => MessageKind::Response(id),
                None => MessageKind::Unclassifiable,
            }
        }),
{
    if has_method && has_id {
        MessageKind::ServerRequest
    } else if has_method {
        MessageKind::Notification
    } else {
        match numeric_id {
            Some(id) => MessageKind::Response(id),
            None => MessageKind::Unclassifiable,
        }
    }
}

/// How a request from the server is answered.
#[derive(Clone, Copy, PartialEq, Eq, Debug, Structural)]
pub enum AutoReply {
    /// Result `null`.
    Null,
    /// Result `[]`.
    EmptyArray,
    /// Error `-32601`, "Method not found".
    MethodNotFound,
}

/// The answer to a request from the server: registrations and progress
/// creation are acknowledged, configuration requests get no items, and any
/// other method is unknown.
pub open spec fn spec_auto_reply(method: Seq<char>) -> AutoReply {
    if method == "client/registerCapability"@ || method == "client/unregisterCapability"@ || method
        == "window/workDoneProgress/create"@ {
        AutoReply::Null
    } else if method == "workspace/configuration"@ {
        AutoReply::EmptyArray
    } else {
        AutoReply::MethodNotFound
    }
}

/// The answer to a request from the server with this method.
pub fn auto_reply(method: &str) -> (r: AutoReply)
    ensures
        r == spec_auto_reply(method@),
{
    if crate::text::str_eq(method, "client/registerCapability") || crate::text::str_eq(
        method,
        "client/unregisterCapability",
    ) || crate::text::str_eq(method, "window/workDoneProgress/create") {
        AutoReply::Null
    } else if crate::text::str_eq(method, "workspace/configuration") {
        AutoReply::EmptyArray
    } else {
        AutoReply::MethodNotFound
    }
}

/// The error for a response that carries an error object.
pub fn response_error(server: &str, method: &str, error_text: &str) -> (r: CtxError)
    ensures
        r is Symbol,
        r->Symbol_0@ == server@ + " LSP error for "@ + method@ + ": "@ + error_text@,
{
    let mut m: Vec<char> = Vec::new();
    push_str(&mut m, server);
    push_str(&mut m, " LSP error for ");
    push_str(&mut m, method);
    push_str(&mut m, ": ");
    push_str(&mut m, error_text);
    CtxError::Symbol(string_of(&m))
}

// ---------------------------------------------------------------------------
// Document symbols
// ---------------------------------------------------------------------------

/// The chunk kind of an LSP symbol kind (its protocol number), if the
/// library keeps symbols of that kind.
pub open spec fn spec_lsp_kind(k: i32) -> Option<ChunkKind> {
    if k == 12 || k == 25 {
        Some(ChunkKind::Function)
    } else if k == 6 || k == 9 {
        Some(ChunkKind::Method)
    } else if k == 5 {
        Some(ChunkKind::Class)
    } else if k == 11 {
        Some(ChunkKind::Interface)
    } else if k == 26 || k == 23 {
        Some(ChunkKind::Type)
    } else if k == 14 || k == 13 || k == 8 || k == 7 {
        Some(ChunkKind::Const)
    } else if k == 10 || k == 22 {
        Some(ChunkKind::Enum)
    } else {
        None
    }
}

/// The LSP symbol kinds the library keeps, by their protocol numbers:
/// Function (12) and Operator (25) are functions, Method (6) and
/// Constructor (9) methods, Class (5) classes, Interface (11) interfaces,
/// Struct (23) and TypeParameter (26) types, Constant (14), Variable (13),
/// Field (8) and Property (7) constants, Enum (10) and EnumMember (22)
/// enums; every other kind is dropped.
pub proof fn lemma_lsp_kind_table(k: i32)
    ensures
        (k == 12 || k == 25) ==> spec_lsp_kind(k) == Some(ChunkKind::Function),
        (k == 6 || k == 9) ==> spec_lsp_kind(k) == Some(ChunkKind::Method),
        k == 5 ==> spec_lsp_kind(k) == Some(ChunkKind::Class),
        k == 11 ==> spec_lsp_kind(k) == Some(ChunkKind::Interface),
        (k == 23 || k == 26) ==> spec_lsp_kind(k) == Some(ChunkKind::Type),
        (k == 14 || k == 13 || k == 8 || k == 7) ==> spec_lsp_kind(k) == Some(ChunkKind::Const),
        (k == 10 || k == 22) ==> spec_lsp_kind(k) == Some(ChunkKind::Enum),
        !(k == 12 || k == 25 || k == 6 || k == 9 || k == 5 || k == 11 || k == 23 || k == 26 || k
            == 14 || k == 13 || k == 8 || k == 7 || k == 10 || k == 22) ==> (spec_lsp_kind(k) is None),
{
}

/// Maps an LSP symbol kind (function and operator, method and constructor,
/// class, interface, type parameter and struct, constant, variable, field
/// and property, enum and enum member) to a chunk kind.
pub fn map_lsp_symbol_kind(k: i32) -> (r: Option<ChunkKind>)
    ensures
        r == spec_lsp_kind(k),
{
    if k == 12 || k == 25 {
        Some(ChunkKind::Function)
    } else if k == 6 || k == 9 {
        Some(ChunkKind::Method)
    } else if k == 5 {
        Some(ChunkKind::Class)
    } else if k == 11 {
        Some(ChunkKind::Interface)
    } else if k == 26 || k == 23 {
        Some(ChunkKind::Type)
    } else if k == 14 || k == 13 || k == 8 || k == 7 {
        Some(ChunkKind::Const)
    } else if k == 10 || k == 22 {
        Some(ChunkKind::Enum)
    } else {
        None
    }
}

/// A hierarchical document symbol.
#[derive(Debug)]
pub struct DocSymbol {
    pub name: String,
    /// The LSP symbol kind number.
    pub kind: i32,
    /// The 0-based line where the symbol's range starts.
    pub start_line: u32,
    pub children: Option<Vec<DocSymbol>>,
}

/// A flat symbol entry.
#[derive(Clone, Debug)]
pub struct SymbolInfo {
    pub name: String,
    /// The LSP symbol kind number.
    pub kind: i32,
    /// The 0-based line where the symbol's location starts.
    pub start_line: u32,
    pub container_name: Option<String>,
}

/// The 1-based line of a 0-based one (saturating).
pub open spec fn line1(l: u32) -> u32 {
    if l == u32::MAX {
        u32::MAX
    } else {
        (l + 1) as u32
    }
}

/// The symbol a document symbol of a kept kind gives.
pub open spec fn doc_symbol_view(
    n: DocSymbol,
    k: ChunkKind,
    file: Seq<char>,
    container: Option<Seq<char>>,
) -> SymbolView {
    SymbolView { name: n.name@, kind: k, file, line: line1(n.start_line), container }
}

/// The symbols of one document symbol and its descendants, in pre-order:
/// the symbol itself when its kind is kept, then its children, whose
/// container is the symbol's name.
pub open spec fn flatten_node(n: DocSymbol, file: Seq<char>, container: Option<Seq<char>>) -> Seq<
    SymbolView,
>
    decreases n,
{
    let own = match spec_lsp_kind(n.kind) {
        Some(k) => seq![doc_symbol_view(n, k, file, container)],
        None => Seq::empty(),
    };
    match n.children {
        Some(cs) => own + flatten_list(cs@, file, Some(n.name@), cs@.len() as int),
        None => own,
    }
}

/// A document symbol of a kept kind yields, first, one symbol named by it,
/// of the kind its LSP kind maps to, on its 1-based line (its 0-based start
/// line plus one), in the given container; a symbol of another kind yields
/// only its children's symbols, whose container is its name.
pub proof fn lemma_doc_symbol_flatten(n: DocSymbol, file: Seq<char>, container: Option<Seq<char>>)
    ensures
        (spec_lsp_kind(n.kind) matches Some(k) ==> {
            let f = flatten_node(n, file, container);
            &&& f.len() >= 1
            &&& f[0].name == n.name@
            &&& f[0].kind == k
            &&& f[0].file == file
            &&& f[0].container == container
            &&& n.start_line < u32::MAX ==> f[0].line == n.start_line + 1
        }),
        spec_lsp_kind(n.kind) is None ==> flatten_node(n, file, container) == match n.children {
            Some(cs) => flatten_list(cs@, file, Some(n.name@), cs@.len() as int),
            None => Seq::<SymbolView>::empty(),
        },
{
    match n.children {
        Some(cs) => {
            let rest = flatten_list(cs@, file, Some(n.name@), cs@.len() as int);
            match spec_lsp_kind(n.kind) {
                Some(k) => {
                    let own = seq![doc_symbol_view(n, k, file, container)];
                    assert((own + rest)[0] == own[0]);
                },
                None => {
                    assert(Seq::<SymbolView>::empty() + rest =~= rest);
                },
            }
        },
        None => {},
    }
}

/// The symbols of the first `i` document symbols of `items`.
pub open spec fn flatten_list(
    items: Seq<DocSymbol>,
    file: Seq<char>,
    container: Option<Seq<char>>,
    i: int,
) -> Seq<SymbolView>
    decreases items, i,
{
    if i <= 0 || i > items.len() {
        Seq::empty()
    } else {
        flatten_list(items, file, container, i - 1) + flatten_node(items[i - 1], file, container)
    }
}

/// Appends the symbols of `items` and their descendants to `out`.
pub fn flatten_document_symbols(
    items: &Vec<DocSymbol>,
    file: &str,
    container: Option<&str>,
    out: &mut Vec<Symbol>,
)
    ensures
        syms_view(final(out)@) == syms_view(old(out)@) + flatten_list(
            items@,
            file@,
            match container {
                Some(c) => Some(c@),
                None => None,
            },
            items@.len() as int,
        ),
    decreases items@,
{
    let ghost cv = match container {
        Some(c) => Some(c@),
        None => None::<Seq<char>>,
    };
    let mut i: usize = 0;
    while i < items.len()
        invariant
            0 <= i <= items@.len(),
            cv == match container {
                Some(c) => Some(c@),
                None => None::<Seq<char>>,
            },
            syms_view(out@) == syms_view(old(out)@) + flatten_list(items@, file@, cv, i as int),
        decreases items@.len() - i,
    {
        let item = &items[i];
        let ghost before = syms_view(out@);
        let ghost own = match spec_lsp_kind(item.kind) {
            Some(k) => seq![doc_symbol_view(*item, k, file@, cv)],
            None => Seq::<SymbolView>::empty(),
        };
        match map_lsp_symbol_kind(item.kind) {
            Some(kind) => {
                let s = Symbol {
                    name: item.name.clone(),
                    kind,
                    file: String::from_str(file),
                    line: sat_inc(item.start_line),
                    container: match container {
                        Some(c) => Some(String::from_str(c)),
                        None => None,
                    },
                };
                out.push(s);
                assert(syms_view(out@) =~= before + own);
            },
            None => {
                assert(syms_view(out@) =~= before + own);
            },
        }
        let ghost mid = syms_view(out@);
        match &item.children {
            Some(cs) => {
                assert(decreases_to!(items@ => items@[i as int]));
                flatten_document_symbols(cs, file, Some(item.name.as_str()), out);
                assert(syms_view(out@) == mid + flatten_list(
                    cs@,
                    file@,
                    Some(item.name@),
                    cs@.len() as int,
                ));
            },
            None => {},
        }
        assert(syms_view(out@) =~= before + flatten_node(*item, file@, cv));
        i = i + 1;
        assert(flatten_list(items@, file@, cv, i as int) == flatten_list(
            items@,
            file@,
            cv,
            i - 1,
        ) + flatten_node(items@[i - 1], file@, cv));
    }
}

/// The symbols of a flat response: each entry of a kept kind, in order.
pub open spec fn flat_symbols_spec(items: Seq<SymbolInfo>, file: Seq<char>) -> Seq<SymbolView>
    decreases items.len(),
{
    if items.len() == 0 {
        Seq::empty()
    } else {
        let last = items.last();
        flat_symbols_spec(items.drop_last(), file) + match spec_lsp_kind(last.kind) {
            Some(k) => seq![
                SymbolView {
                    name: last.name@,
                    kind: k,
                    file,
                    line: line1(last.start_line),
                    container: opt_view(last.container_name),
                },
            ],
            None => Seq::empty(),
        }
    }
}

/// The symbols of a flat response.
pub fn flat_symbols(items: &Vec<SymbolInfo>, file: &str) -> (r: Vec<Symbol>)
    ensures
        syms_view(r@) == flat_symbols_spec(items@, file@),
{
    let mut out: Vec<Symbol> = Vec::new();
    let mut i: usize = 0;
    while i < items.len()
        invariant
            0 <= i <= items@.len(),
            syms_view(out@) == flat_symbols_spec(items@.subrange(0, i as int), file@),
        decreases items@.len() - i,
    {
        let item = &items[i];
        let ghost before = syms_view(out@);
        assert(items@.subrange(0, i + 1).drop_last() =~= items@.subrange(0, i as int));
        assert(items@.subrange(0, i + 1).last() == *item);
        match map_lsp_symbol_kind(item.kind) {
            Some(kind) => {
                out.push(
                    Symbol {
                        name: item.name.clone(),
                        kind,
                        file: String::from_str(file),
                        line: sat_inc(item.start_line),
                        container: crate::types::copy_opt_string(&item.container_name),
                    },
                );
                assert(syms_view(out@) =~= flat_symbols_spec(items@.subrange(0, i + 1), file@));
            },
            None => {
                assert(syms_view(out@) =~= flat_symbols_spec(items@.subrange(0, i + 1), file@));
            },
        }
        i = i + 1;
    }
    assert(items@.subrange(0, i as int) =~= items@);
    out
}

/// A `textDocument/documentSymbol` response, as far as it could be read.
#[derive(Debug)]
pub enum SymbolResponse {
    /// A hierarchical response.
    Nested(Vec<DocSymbol>),
    /// A flat response.
    Flat(Vec<SymbolInfo>),
    /// A `null` or unreadable response.
    Nothing,
}

/// The symbols of a document-symbol response for `file`.
pub fn response_symbols(resp: &SymbolResponse, file: &str) -> (r: Vec<Symbol>)
    ensures
        syms_view(r@) == match *resp {
            SymbolResponse::Nested(items) => flatten_list(items@, file@, None, items@.len() as int),
            SymbolResponse::Flat(items) => flat_symbols_spec(items@, file@),
            SymbolResponse::Nothing => Seq::empty(),
        },
{
    match resp {
        SymbolResponse::Nested(items) => {
            let mut out: Vec<Symbol> = Vec::new();
            flatten_document_symbols(items, file, None, &mut out);
            assert(syms_view(out@) =~= flatten_list(items@, file@, None, items@.len() as int));
            out
        },
        SymbolResponse::Flat(items) => flat_symbols(items, file),
        SymbolResponse::Nothing => {
            let out: Vec<Symbol> = Vec::new();
            assert(syms_view(out@) =~= Seq::<SymbolView>::empty());
            out
        },
    }
}

} // verus!
