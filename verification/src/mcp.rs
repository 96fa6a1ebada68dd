//! The computing parts of the MCP tools: default arguments, compact hit
//! fields (line labels, previews), and reading a window of lines from a file.

use vstd::prelude::*;

use crate::text::{chars_of, decimal_chars, push_chars, push_str, spec_decimal, string_of};
use vstd::string::StringSliceAdditionalSpecFns;

verus! {

/// Arguments of `semantic_search`.
#[derive(Debug)]
pub struct SemanticSearchArgs {
    pub query: String,
    pub k: u32,
    pub with_preview: bool,
}

/// Arguments naming a symbol.
#[derive(Debug)]
pub struct NameArgs {
    pub name: String,
}

/// Arguments naming a chunk by its hex hash.
#[derive(Debug)]
pub struct HashArgs {
    pub hash: String,
}

/// No arguments.
#[derive(Debug)]
pub struct NoArgs {}

/// Arguments of `get_file_window` (1-based inclusive lines).
#[derive(Debug)]
pub struct FileWindowArgs {
    pub file: String,
    pub start_line: u32,
    pub end_line: u32,
}

/// The number of hits `semantic_search` returns when none is asked for.
pub fn default_k() -> (k: u32)
    ensures
        k == 5,
{
    5
}

/// The most lines one `get_file_window` call returns.
pub const MAX_WINDOW_LINES: u32 = 500;

/// The most bytes of chunk text a hit preview shows.
pub const PREVIEW_LEN: usize = 200;

/// `start-end`, the line label of a hit.
pub open spec fn spec_lines_label(start: u32, end: u32) -> Seq<char> {
    spec_decimal(start as nat) + seq!['-'] + spec_decimal(end as nat)
}

/// The line label `start-end`.
pub fn lines_label(start: u32, end: u32) -> (r: String)
    ensures
        r@ == spec_lines_label(start, end),
{
    let mut out = decimal_chars(start as u64);
    out.push('-');
    let e = decimal_chars(end as u64);
    push_chars(&mut out, &e);
    string_of(&out)
}

/// The largest character boundary of `bytes` at or below `j`.
pub open spec fn boundary_at_or_below(bytes: Seq<u8>, j: int) -> int
    decreases j,
{
    if j <= 0 || vstd::utf8::is_char_boundary(bytes, j) {
        if j <= 0 {
            0
        } else {
            j
        }
    } else {
        boundary_at_or_below(bytes, j - 1)
    }
}

proof fn lemma_boundary_range(bytes: Seq<u8>, j: int)
    requires
        0 <= j,
        vstd::utf8::valid_utf8(bytes),
    ensures
        0 <= boundary_at_or_below(bytes, j) <= j,
        vstd::utf8::is_char_boundary(bytes, boundary_at_or_below(bytes, j)),
    decreases j,
{
    if j > 0 && !vstd::utf8::is_char_boundary(bytes, j) {
        lemma_boundary_range(bytes, j - 1);
    }
}

proof fn lemma_boundary_largest(bytes: Seq<u8>, j: int)
    requires
        0 <= j,
    ensures
        forall|i: int| boundary_at_or_below(bytes, j) < i <= j ==> !vstd::utf8::is_char_boundary(bytes, i),
    decreases j,
{
    if j > 0 && !vstd::utf8::is_char_boundary(bytes, j) {
        lemma_boundary_largest(bytes, j - 1);
    }
}

/// The preview of a chunk text: the text itself when at most 200 bytes long,
/// else its longest prefix of at most 200 bytes that ends on a character
/// boundary, followed by `…`.
pub open spec fn spec_preview(text: Seq<char>) -> Seq<char> {
    let b = vstd::utf8::encode_utf8(text);
    if b.len() <= PREVIEW_LEN {
        text
    } else {
        vstd::utf8::decode_utf8(b.subrange(0, boundary_at_or_below(b, PREVIEW_LEN as int))) + seq![
            '\u{2026}',
        ]
    }
}

/// A preview is the whole text when the text has at most 200 bytes;
/// otherwise it is the longest prefix of the text of at most 200 bytes
/// that ends on a character boundary (no boundary lies between its end and
/// byte 200), followed by an ellipsis.
pub proof fn lemma_preview_shape(t: Seq<char>)
    ensures
        vstd::utf8::encode_utf8(t).len() <= PREVIEW_LEN ==> spec_preview(t) == t,
        vstd::utf8::encode_utf8(t).len() > PREVIEW_LEN ==> {
            let p = spec_preview(t);
            let q = p.drop_last();
            &&& p.len() > 0
            &&& p.last() == '\u{2026}'
            &&& q.len() <= t.len()
            &&& t.subrange(0, q.len() as int) == q
            &&& vstd::utf8::encode_utf8(q).len() <= PREVIEW_LEN
            &&& forall|i: int|
                vstd::utf8::encode_utf8(q).len() < i <= PREVIEW_LEN ==> !vstd::utf8::is_char_boundary(
                    vstd::utf8::encode_utf8(t),
                    i,
                )
        },
{
    let b = vstd::utf8::encode_utf8(t);
    if b.len() > PREVIEW_LEN {
        let j = boundary_at_or_below(b, PREVIEW_LEN as int);
        lemma_boundary_largest(b, PREVIEW_LEN as int);
        vstd::utf8::encode_utf8_valid_utf8(t);
        lemma_boundary_range(b, PREVIEW_LEN as int);
        vstd::utf8::valid_utf8_split(b, j);
        vstd::utf8::decode_utf8_split(b, j);
        vstd::utf8::encode_utf8_decode_utf8(t);
        let first = b.subrange(0, j);
        let q = vstd::utf8::decode_utf8(first);
        vstd::utf8::decode_utf8_encode_utf8(first);
        let p = spec_preview(t);
        assert(p == q + seq!['\u{2026}']);
        assert(p.drop_last() =~= q);
        let rest = vstd::utf8::decode_utf8(b.subrange(j, b.len() as int));
        assert(t == q + rest);
        assert(t.subrange(0, q.len() as int) =~= q);
    }
}

/// The preview of `text`.
pub fn preview(text: &str) -> (r: String)
    ensures
        r@ == spec_preview(text@),
{
    assert(text.spec_bytes() == vstd::utf8::encode_utf8(text@));
    let n = text.as_bytes().len();
    if n <= PREVIEW_LEN {
        return String::from_str(text);
    }
    let ghost b = text.spec_bytes();
    let mut end: usize = PREVIEW_LEN;
    while end > 0 && !text.is_char_boundary(end)
        invariant
            0 <= end <= PREVIEW_LEN,
            b == text.spec_bytes(),
            b.len() > PREVIEW_LEN,
            boundary_at_or_below(b, end as int) == boundary_at_or_below(b, PREVIEW_LEN as int),
        decreases end,
    {
        end = end - 1;
    }
    proof {
        vstd::utf8::encode_utf8_valid_utf8(text@);
        lemma_boundary_range(b, PREVIEW_LEN as int);
        assert(boundary_at_or_below(b, end as int) == end);
        vstd::utf8::encode_utf8_valid_utf8(text@);
    }
    let (head, _tail) = text.split_at(end);
    proof {
        vstd::utf8::encode_utf8_decode_utf8(head@);
    }
    let mut out = chars_of(head);
    out.push('\u{2026}');
    string_of(&out)
}

/// A line with a trailing carriage return removed.
pub open spec fn strip_cr(s: Seq<char>) -> Seq<char> {
    if s.len() > 0 && s.last() == '\r' {
        s.drop_last()
    } else {
        s
    }
}

/// The lines of `rest` when the characters `cur` of the current line precede it.
pub open spec fn lines_from(rest: Seq<char>, cur: Seq<char>) -> Seq<Seq<char>>
    decreases rest.len(),
{
    if rest.len() == 0 {
        if cur.len() == 0 {
            Seq::empty()
        } else {
            seq![cur]
        }
    } else if rest[0] == '\n' {
        seq![strip_cr(cur)] + lines_from(rest.drop_first(), Seq::empty())
    } else {
        lines_from(rest.drop_first(), cur.push(rest[0]))
    }
}

/// `str::lines`: the lines of `s`, split at `\n`, each without its `\n` or
/// `\r\n`, with no empty line after a final newline.
pub open spec fn spec_lines(s: Seq<char>) -> Seq<Seq<char>> {
    lines_from(s, Seq::empty())
}

/// The number of newline characters in `s`.
pub open spec fn newline_count(s: Seq<char>) -> nat
    decreases s.len(),
{
    if s.len() == 0 {
        0
    } else {
        (if s[0] == '\n' {
            1nat
        } else {
            0nat
        }) + newline_count(s.drop_first())
    }
}

/// Each line followed by a newline, all concatenated.
pub open spec fn terminated(ls: Seq<Seq<char>>) -> Seq<char>
    decreases ls.len(),
{
    if ls.len() == 0 {
        Seq::empty()
    } else {
        ls[0] + seq!['\n'] + terminated(ls.drop_first())
    }
}

/// Whether the text `cur + rest` has an unterminated last line.
pub open spec fn open_end(rest: Seq<char>, cur: Seq<char>) -> bool {
    if rest.len() == 0 {
        cur.len() > 0
    } else {
        rest.last() != '\n'
    }
}

proof fn lemma_lines_from_count(rest: Seq<char>, cur: Seq<char>)
    ensures
        lines_from(rest, cur).len() == newline_count(rest) + if open_end(rest, cur) {
            1int
        } else {
            0int
        },
    decreases rest.len(),
{
    if rest.len() > 0 {
        let rd = rest.drop_first();
        if rest[0] == '\n' {
            lemma_lines_from_count(rd, Seq::empty());
        } else {
            lemma_lines_from_count(rd, cur.push(rest[0]));
        }
        if rd.len() > 0 {
            assert(rd.last() == rest.last());
        }
    }
}

proof fn lemma_lines_from_rebuild(rest: Seq<char>, cur: Seq<char>)
    requires
        forall|i: int| 0 <= i < rest.len() ==> rest[i] != '\r',
        forall|i: int| 0 <= i < cur.len() ==> cur[i] != '\r' && cur[i] != '\n',
    ensures
        terminated(lines_from(rest, cur)) == cur + rest + if open_end(rest, cur) {
            seq!['\n']
        } else {
            Seq::<char>::empty()
        },
        forall|k: int, j: int|
            0 <= k < lines_from(rest, cur).len() && 0 <= j < lines_from(rest, cur)[k].len()
                ==> #[trigger] lines_from(rest, cur)[k][j] != '\n',
    decreases rest.len(),
{
    if rest.len() == 0 {
        if cur.len() > 0 {
            let ls = seq![cur];
            assert(ls.drop_first() =~= Seq::<Seq<char>>::empty());
            assert(terminated(ls.drop_first()) == Seq::<char>::empty());
            assert(ls[0] == cur);
            assert(terminated(ls) == cur + seq!['\n'] + Seq::<char>::empty());
            assert(terminated(ls) =~= cur + seq!['\n']);
        }
        assert(cur + rest =~= cur);
    } else {
        let rd = rest.drop_first();
        if rd.len() > 0 {
            assert(rd.last() == rest.last());
        }
        if rest[0] == '\n' {
            lemma_lines_from_rebuild(rd, Seq::empty());
            let tail = lines_from(rd, Seq::empty());
            assert(strip_cr(cur) == cur);
            let ls = seq![cur] + tail;
            assert(ls.drop_first() =~= tail);
            assert(ls[0] == cur);
            let sfx = if open_end(rd, Seq::empty()) {
                seq!['\n']
            } else {
                Seq::<char>::empty()
            };
            assert(terminated(ls) == cur + seq!['\n'] + terminated(tail));
            assert(terminated(tail) == Seq::<char>::empty() + rd + sfx);
            assert(cur + seq!['\n'] + (Seq::<char>::empty() + rd + sfx) =~= cur + rest + sfx);
            assert forall|k: int, j: int|
                0 <= k < ls.len() && 0 <= j < ls[k].len() implies #[trigger] ls[k][j] != '\n' by {
                if k > 0 {
                    assert(ls[k] == tail[k - 1]);
                }
            }
        } else {
            let c2 = cur.push(rest[0]);
            assert forall|i: int| 0 <= i < c2.len() implies c2[i] != '\r' && c2[i] != '\n' by {
                if i < cur.len() {
                    assert(c2[i] == cur[i]);
                }
            }
            lemma_lines_from_rebuild(rd, c2);
            assert(c2 + rd =~= cur + rest);
        }
    }
}

/// `str::lines` exactly, empty lines included: the lines hold no newline,
/// their number is the number of newlines, plus one when the text is not
/// empty and does not end in a newline; and, for a text without carriage
/// returns, each line followed by a newline, all concatenated, is the text
/// (with a final newline added when it lacks one).
pub proof fn lemma_lines_are_str_lines(s: Seq<char>)
    ensures
        spec_lines(s).len() == newline_count(s) + if s.len() > 0 && s.last() != '\n' {
            1int
        } else {
            0int
        },
        forall|k: int, j: int|
            0 <= k < spec_lines(s).len() && 0 <= j < spec_lines(s)[k].len() && (forall|i: int|
                0 <= i < s.len() ==> s[i] != '\r') ==> #[trigger] spec_lines(s)[k][j] != '\n',
        (forall|i: int| 0 <= i < s.len() ==> s[i] != '\r') ==> terminated(spec_lines(s)) == s
            + if s.len() > 0 && s.last() != '\n' {
            seq!['\n']
        } else {
            Seq::<char>::empty()
        },
{
    lemma_lines_from_count(s, Seq::empty());
    if forall|i: int| 0 <= i < s.len() ==> s[i] != '\r' {
        lemma_lines_from_rebuild(s, Seq::empty());
        assert(Seq::<char>::empty() + s =~= s);
    }
}

/// Lines joined with `\n` between them.
pub open spec fn join_lines(ls: Seq<Seq<char>>) -> Seq<char>
    decreases ls.len(),
{
    if ls.len() == 0 {
        Seq::empty()
    } else if ls.len() == 1 {
        ls[0]
    } else {
        join_lines(ls.drop_last()) + seq!['\n'] + ls.last()
    }
}

/// The lines of `s`, as character vectors.
pub fn split_lines(s: &str) -> (r: Vec<Vec<char>>)
    ensures
        crate::paths::vv(r@) == spec_lines(s@),
{
    let cs = chars_of(s);
    let mut out: Vec<Vec<char>> = Vec::new();
    let mut cur: Vec<char> = Vec::new();
    let mut i: usize = 0;
    assert(cs@.skip(0) =~= cs@);
    while i < cs.len()
        invariant
            0 <= i <= cs@.len(),
            cs@ == s@,
            crate::paths::vv(out@) + lines_from(cs@.skip(i as int), cur@) == spec_lines(s@),
        decreases cs@.len() - i,
    {
        let c = cs[i];
        let ghost rest = cs@.skip(i as int);
        assert(rest[0] == c);
        assert(rest.drop_first() =~= cs@.skip(i + 1));
        if c == '\n' {
            let ghost before = crate::paths::vv(out@);
            let ghost cv = cur@;
            if cur.len() > 0 && cur[cur.len() - 1] == '\r' {
                cur.pop();
            }
            assert(cur@ == strip_cr(cv));
            out.push(cur);
            assert(crate::paths::vv(out@) =~= before + seq![strip_cr(cv)]);
            cur = Vec::new();
        } else {
            cur.push(c);
        }
        i = i + 1;
    }
    assert(cs@.skip(i as int) =~= Seq::<char>::empty());
    let ghost before = crate::paths::vv(out@);
    let ghost cv = cur@;
    if cur.len() > 0 {
        out.push(cur);
    }
    assert(crate::paths::vv(out@) =~= before + lines_from(Seq::empty(), cv));
    out
}

/// The message for a malformed line range.
pub open spec fn bad_range_msg() -> Seq<char> {
    "start_line must be >= 1 and end_line >= start_line (1-indexed inclusive)"@
}

/// The message for a range longer than the cap.
pub open spec fn too_long_msg() -> Seq<char> {
    "window exceeds 500-line cap; narrow your range or issue multiple calls"@
}

/// Whether a window request is valid: lines are 1-based, `end >= start`,
/// and at most 500 lines are asked for.
pub open spec fn spec_check_window(start: u32, end: u32) -> Result<(), Seq<char>> {
    if start == 0 || end < start {
        Err(bad_range_msg())
    } else if end - start + 1 > MAX_WINDOW_LINES {
        Err(too_long_msg())
    } else {
        Ok(())
    }
}

/// Checks the line range of a window request.
pub fn check_window(start: u32, end: u32) -> (r: Result<(), String>)
    ensures
        match spec_check_window(start, end) {
            Ok(()) => r is Ok,
            Err(m) => r is Err && r->Err_0@ == m,
        },
{
    if start == 0 || end < start {
        let mut m: Vec<char> = Vec::new();
        push_str(&mut m, "start_line must be >= 1 and end_line >= start_line (1-indexed inclusive)");
        return Err(string_of(&m));
    }
    if end - start + 1 > MAX_WINDOW_LINES {
        let mut m: Vec<char> = Vec::new();
        push_str(&mut m, "window exceeds 500-line cap; narrow your range or issue multiple calls");
        return Err(string_of(&m));
    }
    Ok(())
}

/// The lines `start..=end` (1-based) of a file's text, with the line count.
#[derive(Clone, Debug)]
pub struct FileWindow {
    pub start_line: u32,
    pub end_line: u32,
    pub total_lines: u32,
    pub text: String,
}

/// The lines of `ls` that the 1-based inclusive range asks for (those that exist).
pub open spec fn window_lines(ls: Seq<Seq<char>>, start: u32, end: u32) -> Seq<Seq<char>> {
    let a = start - 1;
    let b = end as int;
    let n = ls.len() as int;
    if a >= n {
        Seq::empty()
    } else {
        ls.subrange(a, if b < n { b } else { n })
    }
}

/// A window never holds more lines than were asked for, so never more than
/// 500.
pub proof fn lemma_window_within_cap(text: Seq<char>, start: u32, end: u32)
    requires
        spec_check_window(start, end) is Ok,
    ensures
        window_lines(spec_lines(text), start, end).len() <= end - start + 1,
        window_lines(spec_lines(text), start, end).len() <= MAX_WINDOW_LINES,
{
}

/// `x` clamped to `u32`.
pub open spec fn clamp32(x: int) -> u32 {
    if x <= u32::MAX {
        x as u32
    } else {
        u32::MAX
    }
}

/// The window of `text` for a valid request: the lines that exist in the
/// range joined with `\n`; `end_line` is the last line returned (`start_line`
/// when none is), and `total_lines` counts all lines (both clamped to `u32`).
pub open spec fn spec_window(text: Seq<char>, start: u32, end: u32) -> (u32, u32, u32, Seq<char>) {
    let ls = spec_lines(text);
    let w = window_lines(ls, start, end);
    let count = clamp32(w.len() as int);
    let last = if count == 0 { 0 } else { count - 1 };
    (start, clamp32(start + last), clamp32(ls.len() as int), join_lines(w))
}

/// A window is exactly the asked-for lines that exist: the `k`-th line of
/// the window is line `start + k` (1-based) of the text, the window holds
/// the lines from `start` to `end` or to the last line, whichever comes
/// first (none when `start` is past the end), `end_line` is the number of
/// the last line returned, and `total_lines` is the number of lines.
pub proof fn lemma_window_exact(text: Seq<char>, start: u32, end: u32)
    requires
        spec_check_window(start, end) is Ok,
    ensures
        ({
            let ls = spec_lines(text);
            let w = window_lines(ls, start, end);
            let (sl, el, total, body) = spec_window(text, start, end);
            &&& w.len() == if start > ls.len() {
                0int
            } else if end <= ls.len() {
                end - start + 1
            } else {
                ls.len() - start + 1
            }
            &&& forall|k: int| 0 <= k < w.len() ==> #[trigger] w[k] == ls[start - 1 + k]
            &&& sl == start
            &&& w.len() > 0 ==> el == start + w.len() - 1
            &&& w.len() == 0 ==> el == start
            &&& ls.len() <= u32::MAX ==> total == ls.len()
            &&& body == join_lines(w)
        }),
{
}

/// Reads the window `start..=end` of `text`.
pub fn window_of_text(text: &str, start: u32, end: u32) -> (r: FileWindow)
    requires
        spec_check_window(start, end) is Ok,
    ensures
        (r.start_line, r.end_line, r.total_lines, r.text@) == spec_window(text@, start, end),
{
    let ls = split_lines(text);
    let ghost lv = crate::paths::vv(ls@);
    let a: usize = (start - 1) as usize;
    let b: usize = end as usize;
    let n = ls.len();
    let hi = if b < n { b } else { n };
    let mut out: Vec<char> = Vec::new();
    let mut count: usize = 0;
    if a < n {
        let mut i: usize = a;
        while i < hi
            invariant
                a <= i <= hi <= n,
                n == ls@.len(),
                lv == crate::paths::vv(ls@),
                a < n,
                count == i - a,
                out@ == join_lines(lv.subrange(a as int, i as int)),
            decreases hi - i,
        {
            if i > a {
                out.push('\n');
            }
            let ghost before = out@;
            push_chars(&mut out, &ls[i]);
            assert(lv.subrange(a as int, i + 1).drop_last() =~= lv.subrange(a as int, i as int));
            assert(lv.subrange(a as int, i + 1).last() == lv[i as int]);
            if i > a {
                assert(out@ =~= join_lines(lv.subrange(a as int, i + 1)));
            } else {
                assert(lv.subrange(a as int, i + 1) =~= seq![lv[i as int]]);
            }
            i = i + 1;
            count = count + 1;
        }
    }
    assert(window_lines(lv, start, end) =~= if a < n {
        lv.subrange(a as int, hi as int)
    } else {
        Seq::empty()
    });
    let c32 = crate::text::clamp_u32(count);
    let last: u32 = if c32 == 0 { 0 } else { c32 - 1 };
    let sum: u64 = start as u64 + last as u64;
    let end_line: u32 = if sum <= 4294967295u64 { sum as u32 } else { 4294967295u32 };
    FileWindow {
        start_line: start,
        end_line,
        total_lines: crate::text::clamp_u32(n),
        text: string_of(&out),
    }
}

/// The path a window request names: an absolute path as given, a relative
/// one under the scope root.
pub open spec fn spec_request_path(root: Seq<char>, file: Seq<char>) -> Seq<char> {
    if crate::scope::spec_is_absolute(file) {
        file
    } else {
        crate::paths::spec_join(root, file)
    }
}

/// Resolves the file of a window request against the scope root.
pub fn request_path(root: &str, file: &str) -> (r: String)
    ensures
        r@ == spec_request_path(root@, file@),
{
    if crate::scope::is_absolute(file) {
        String::from_str(file)
    } else {
        crate::paths::join(root, file)
    }
}

/// Whether a resolved (canonical) path lies inside the scope root; a
/// request for any other path is refused.
pub fn inside_scope(resolved: &str, root: &str) -> (r: bool)
    ensures
        r == crate::paths::spec_starts_with(resolved@, root@),
{
    crate::paths::starts_with(resolved, root)
}

/// The text of a file read for a window: its bytes decoded as UTF-8, or the
/// error reported for a file that is not UTF-8.
pub fn file_text(bytes: &[u8]) -> (r: Result<String, String>)
    ensures
        vstd::utf8::valid_utf8(bytes@) ==> r is Ok && r->Ok_0@ == vstd::utf8::decode_utf8(bytes@),
        !vstd::utf8::valid_utf8(bytes@) ==> r is Err && r->Err_0@ == "file is not valid UTF-8"@,
{
    match crate::text::utf8_text(bytes) {
        Some(t) => Ok(t),
        None => Err(String::from_str("file is not valid UTF-8")),
    }
}

} // verus!
