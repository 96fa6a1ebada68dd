//! Symbols of CSS and HTML files, found with tree-sitter queries: CSS class,
//! id and tag selectors; HTML tags, ids and classes.

use vstd::prelude::*;

use crate::chunker::{cap_name, names_view};
use crate::error::CtxError;
use crate::languages::{detect, spec_detect};
use crate::text::{
    chars_eq_str, chars_of, clamp_u32, push_str, sat_inc, span_string, span_text, spec_words,
    split_whitespace, string_of,
};
use crate::treesitter::{
    capture_names, compile_query, grammar_css, grammar_html, new_parser, parse_source,
    query_matches, set_parser_language, ts_capture_names, ts_compile, ts_matches, ts_set_language,
    Capture, Grammar,
};
use crate::types::{syms_view, ChunkKind, Language, Symbol, SymbolView};

verus! {

/// CSS class names, ids and tag names.
pub const CSS_SYMBOL_QUERY_SRC: &'static str = "(class_selector (class_name) @class_name)\n(id_selector (id_name) @id_name)\n(tag_name) @tag\n";

/// HTML tag names and attribute name/value pairs.
pub const HTML_SYMBOL_QUERY_SRC: &'static str = "(element (start_tag (tag_name) @tag))\n(element (self_closing_tag (tag_name) @tag))\n(attribute (attribute_name) @attr_name (quoted_attribute_value (attribute_value) @attr_value))\n";

/// The 1-based line of a capture's first row (clamped to `u32`).
pub open spec fn cap_line(c: Capture) -> u32 {
    let row = if c.start_row <= u32::MAX { c.start_row as u32 } else { u32::MAX };
    if row == u32::MAX { u32::MAX } else { (row + 1) as u32 }
}

/// A selector symbol.
pub open spec fn selector(name: Seq<char>, file: Seq<char>, line: u32) -> SymbolView {
    SymbolView { name, kind: ChunkKind::Selector, file, line, container: None }
}

/// The symbol of one CSS capture, if it is a class, an id or a tag.
pub open spec fn css_symbol(
    names: Seq<Seq<char>>,
    src: Seq<u8>,
    file: Seq<char>,
    c: Capture,
) -> Seq<SymbolView> {
    let n = cap_name(names, c);
    let text = span_text(src, c.start_byte as int, c.end_byte as int);
    if n == "class_name"@ {
        seq![selector(seq!['.'] + text, file, cap_line(c))]
    } else if n == "id_name"@ {
        seq![selector(seq!['#'] + text, file, cap_line(c))]
    } else if n == "tag"@ {
        seq![selector(text, file, cap_line(c))]
    } else {
        Seq::empty()
    }
}

/// The CSS symbols of the first `k` captures of a match.
pub open spec fn css_caps(
    caps: Seq<Capture>,
    names: Seq<Seq<char>>,
    src: Seq<u8>,
    file: Seq<char>,
    k: int,
) -> Seq<SymbolView>
    decreases k,
{
    if k <= 0 {
        Seq::empty()
    } else {
        css_caps(caps, names, src, file, k - 1) + css_symbol(names, src, file, caps[k - 1])
    }
}

/// The CSS symbols of the first `n` matches, in order.
pub open spec fn spec_walk_css(
    ms: Seq<Seq<Capture>>,
    names: Seq<Seq<char>>,
    src: Seq<u8>,
    file: Seq<char>,
    n: int,
) -> Seq<SymbolView>
    decreases n,
{
    if n <= 0 {
        Seq::empty()
    } else {
        spec_walk_css(ms, names, src, file, n - 1) + css_caps(
            ms[n - 1],
            names,
            src,
            file,
            ms[n - 1].len() as int,
        )
    }
}

/// A capture's 1-based line is its first row plus one (below the clamp).
proof fn lemma_cap_line(c: Capture)
    ensures
        c.start_row < u32::MAX ==> cap_line(c) == c.start_row + 1,
{
}

/// Symbols of the first `k` captures stay among those of more captures.
proof fn lemma_css_caps_grow(
    caps: Seq<Capture>,
    names: Seq<Seq<char>>,
    src: Seq<u8>,
    file: Seq<char>,
    k: int,
    j: int,
    s: SymbolView,
)
    requires
        0 <= j < k <= caps.len(),
        css_symbol(names, src, file, caps[j]).contains(s),
    ensures
        css_caps(caps, names, src, file, k).contains(s),
    decreases k,
{
    let prev = css_caps(caps, names, src, file, k - 1);
    let last = css_symbol(names, src, file, caps[k - 1]);
    if j < k - 1 {
        lemma_css_caps_grow(caps, names, src, file, k - 1, j, s);
        let w = choose|w: int| 0 <= w < prev.len() && prev[w] == s;
        assert((prev + last)[w] == s);
    } else {
        let w = choose|w: int| 0 <= w < last.len() && last[w] == s;
        assert((prev + last)[prev.len() + w] == s);
    }
}

/// Symbols of the first `n` matches stay among those of more matches.
proof fn lemma_walk_css_grow(
    ms: Seq<Seq<Capture>>,
    names: Seq<Seq<char>>,
    src: Seq<u8>,
    file: Seq<char>,
    n: int,
    i: int,
    s: SymbolView,
)
    requires
        0 <= i < n <= ms.len(),
        css_caps(ms[i], names, src, file, ms[i].len() as int).contains(s),
    ensures
        spec_walk_css(ms, names, src, file, n).contains(s),
    decreases n,
{
    let prev = spec_walk_css(ms, names, src, file, n - 1);
    let last = css_caps(ms[n - 1], names, src, file, ms[n - 1].len() as int);
    if i < n - 1 {
        lemma_walk_css_grow(ms, names, src, file, n - 1, i, s);
        let w = choose|w: int| 0 <= w < prev.len() && prev[w] == s;
        assert((prev + last)[w] == s);
    } else {
        let w = choose|w: int| 0 <= w < last.len() && last[w] == s;
        assert((prev + last)[prev.len() + w] == s);
    }
}

/// Every CSS symbol is a selector of the file, with no container.
proof fn lemma_walk_css_all_selectors(
    ms: Seq<Seq<Capture>>,
    names: Seq<Seq<char>>,
    src: Seq<u8>,
    file: Seq<char>,
    n: int,
)
    requires
        0 <= n <= ms.len(),
    ensures
        forall|m: int|
            0 <= m < spec_walk_css(ms, names, src, file, n).len() ==> {
                let s = #[trigger] spec_walk_css(ms, names, src, file, n)[m];
                s.kind == ChunkKind::Selector && s.file == file && s.container is None
            },
    decreases n,
{
    if n > 0 {
        lemma_walk_css_all_selectors(ms, names, src, file, n - 1);
        let caps = ms[n - 1];
        lemma_css_caps_all_selectors(caps, names, src, file, caps.len() as int);
        let prev = spec_walk_css(ms, names, src, file, n - 1);
        let last = css_caps(caps, names, src, file, caps.len() as int);
        assert forall|m: int| 0 <= m < (prev + last).len() implies {
            let s = #[trigger] (prev + last)[m];
            s.kind == ChunkKind::Selector && s.file == file && s.container is None
        } by {
            if m < prev.len() {
                assert((prev + last)[m] == prev[m]);
            } else {
                assert((prev + last)[m] == last[m - prev.len()]);
            }
        }
    }
}

/// Every symbol of a match's captures is a selector of the file.
proof fn lemma_css_caps_all_selectors(
    caps: Seq<Capture>,
    names: Seq<Seq<char>>,
    src: Seq<u8>,
    file: Seq<char>,
    k: int,
)
    requires
        0 <= k <= caps.len(),
    ensures
        forall|m: int|
            0 <= m < css_caps(caps, names, src, file, k).len() ==> {
                let s = #[trigger] css_caps(caps, names, src, file, k)[m];
                s.kind == ChunkKind::Selector && s.file == file && s.container is None
            },
    decreases k,
{
    if k > 0 {
        lemma_css_caps_all_selectors(caps, names, src, file, k - 1);
        let prev = css_caps(caps, names, src, file, k - 1);
        let last = css_symbol(names, src, file, caps[k - 1]);
        assert forall|m: int| 0 <= m < (prev + last).len() implies {
            let s = #[trigger] (prev + last)[m];
            s.kind == ChunkKind::Selector && s.file == file && s.container is None
        } by {
            if m < prev.len() {
                assert((prev + last)[m] == prev[m]);
            } else {
                assert((prev + last)[m] == last[m - prev.len()]);
            }
        }
    }
}

/// The CSS symbols, as the captures of the CSS symbol query give them: a
/// `tag` capture (a tag name) gives a selector named by its text, a
/// `class_name` capture one named `.` and its text, an `id_name` capture
/// one named `#` and its text, each on the capture's 1-based line (its first
/// row plus one) with no container; and every symbol is such a selector of
/// the file.
pub proof fn lemma_css_selector_captures(
    ms: Seq<Seq<Capture>>,
    names: Seq<Seq<char>>,
    src: Seq<u8>,
    file: Seq<char>,
    i: int,
    j: int,
)
    requires
        0 <= i < ms.len(),
        0 <= j < ms[i].len(),
    ensures
        ({
            let c = ms[i][j];
            let text = span_text(src, c.start_byte as int, c.end_byte as int);
            let w = spec_walk_css(ms, names, src, file, ms.len() as int);
            let at = |name: Seq<char>|
                SymbolView { name, kind: ChunkKind::Selector, file, line: cap_line(c), container: None };
            &&& c.start_row < u32::MAX ==> cap_line(c) == c.start_row + 1
            &&& cap_name(names, c) == "tag"@ ==> w.contains(at(text))
            &&& cap_name(names, c) == "class_name"@ ==> w.contains(at(seq!['.'] + text))
            &&& cap_name(names, c) == "id_name"@ ==> w.contains(at(seq!['#'] + text))
            &&& forall|m: int|
                0 <= m < w.len() ==> (#[trigger] w[m]).kind == ChunkKind::Selector && w[m].file
                    == file && w[m].container is None
        }),
{
    reveal_strlit("tag");
    reveal_strlit("class_name");
    reveal_strlit("id_name");
    let c = ms[i][j];
    let text = span_text(src, c.start_byte as int, c.end_byte as int);
    lemma_cap_line(c);
    lemma_walk_css_all_selectors(ms, names, src, file, ms.len() as int);
    let n = cap_name(names, c);
    if n == "tag"@ || n == "class_name"@ || n == "id_name"@ {
        assert("tag"@.len() == 3 && "class_name"@.len() == 10 && "id_name"@.len() == 7);
        let sym = css_symbol(names, src, file, c)[0];
        assert(css_symbol(names, src, file, c).contains(sym));
        lemma_css_caps_grow(ms[i], names, src, file, ms[i].len() as int, j, sym);
        lemma_walk_css_grow(ms, names, src, file, ms.len() as int, i, sym);
        let sel = SymbolView { name: text, kind: ChunkKind::Selector, file, line: cap_line(c), container: None };
        if n == "tag"@ {
            assert(sym == sel);
        } else if n == "class_name"@ {
            assert(sym == SymbolView { name: seq!['.'] + text, ..sel });
        } else {
            assert(sym == SymbolView { name: seq!['#'] + text, ..sel });
        }
    }
}

/// A symbol in `file`.
fn make_symbol(name: Vec<char>, kind: ChunkKind, file: &str, line: u32) -> (r: Symbol)
    ensures
        r@ == (SymbolView { name: name@, kind, file: file@, line, container: None }),
{
    Symbol { name: string_of(&name), kind, file: String::from_str(file), line, container: None }
}

/// The CSS symbols of a query's matches.
pub fn walk_css(ms: &Vec<Vec<Capture>>, names: &Vec<String>, src: &[u8], file: &str) -> (r: Vec<
    Symbol,
>)
    ensures
        syms_view(r@) == spec_walk_css(
            ms@.map_values(|m: Vec<Capture>| m@),
            names_view(names@),
            src@,
            file@,
            ms@.len() as int,
        ),
{
    let ghost msv = ms@.map_values(|m: Vec<Capture>| m@);
    let ghost nv = names_view(names@);
    let mut out: Vec<Symbol> = Vec::new();
    let mut i: usize = 0;
    while i < ms.len()
        invariant
            0 <= i <= ms@.len(),
            msv == ms@.map_values(|m: Vec<Capture>| m@),
            nv == names_view(names@),
            syms_view(out@) == spec_walk_css(msv, nv, src@, file@, i as int),
        decreases ms@.len() - i,
    {
        let caps = &ms[i];
        assert(msv[i as int] == caps@);
        let ghost base = syms_view(out@);
        let mut j: usize = 0;
        while j < caps.len()
            invariant
                0 <= j <= caps@.len(),
                nv == names_view(names@),
                syms_view(out@) == base + css_caps(caps@, nv, src@, file@, j as int),
            decreases caps@.len() - j,
        {
            let c = caps[j];
            let cname: Vec<char> = if (c.index as usize) < names.len() {
                chars_of(names[c.index as usize].as_str())
            } else {
                Vec::new()
            };
            assert(cname@ == cap_name(nv, c));
            let text = span_string(src, c.start_byte, c.end_byte);
            let line = sat_inc(clamp_u32(c.start_row));
            let ghost before = syms_view(out@);
            let is_class = chars_eq_str(&cname, "class_name");
            let is_id = chars_eq_str(&cname, "id_name");
            let is_tag = chars_eq_str(&cname, "tag");
            if is_class || is_id {
                let mut nm: Vec<char> = Vec::new();
                nm.push(if is_class { '.' } else { '#' });
                push_str(&mut nm, text.as_str());
                out.push(make_symbol(nm, ChunkKind::Selector, file, line));
            } else if is_tag {
                out.push(make_symbol(chars_of(text.as_str()), ChunkKind::Selector, file, line));
            }
            assert(syms_view(out@) =~= before + css_symbol(nv, src@, file@, c));
            j = j + 1;
        }
        i = i + 1;
    }
    out
}

/// What an HTML match has shown so far: the tag (with its line), the
/// attribute name, and the attribute value (with its line).
pub type HtmlState = (Option<(Seq<char>, u32)>, Option<Seq<char>>, Option<(Seq<char>, u32)>);

/// The state after the first `k` captures of an HTML match; a later capture
/// of the same name replaces an earlier one.
pub open spec fn html_fold(
    caps: Seq<Capture>,
    names: Seq<Seq<char>>,
    src: Seq<u8>,
    k: int,
) -> HtmlState
    decreases k,
{
    if k <= 0 {
        (None, None, None)
    } else {
        let prev = html_fold(caps, names, src, k - 1);
        let c = caps[k - 1];
        let n = cap_name(names, c);
        let text = span_text(src, c.start_byte as int, c.end_byte as int);
        if n == "tag"@ {
            (Some((text, cap_line(c))), prev.1, prev.2)
        } else if n == "attr_name"@ {
            (prev.0, Some(text), prev.2)
        } else if n == "attr_value"@ {
            (prev.0, prev.1, Some((text, cap_line(c))))
        } else {
            prev
        }
    }
}

/// The class selectors of the words of a `class` attribute.
pub open spec fn class_symbols(words: Seq<Seq<char>>, file: Seq<char>, line: u32) -> Seq<
    SymbolView,
> {
    words.map_values(|w: Seq<char>| selector(seq!['.'] + w, file, line))
}

/// The symbols of one HTML match: its element, then the id or classes of
/// its attribute.
pub open spec fn html_match_symbols(st: HtmlState, file: Seq<char>) -> Seq<SymbolView> {
    let tag_syms = match st.0 {
        Some((t, line)) => seq![
            SymbolView { name: t, kind: ChunkKind::Element, file, line, container: None },
        ],
        None => Seq::empty(),
    };
    let attr_syms = match (st.1, st.2) {
        (Some(name), Some((value, line))) => if name == "id"@ {
            seq![selector(seq!['#'] + value, file, line)]
        } else if name == "class"@ {
            class_symbols(spec_words(value), file, line)
        } else {
            Seq::empty()
        },
        _ => Seq::empty(),
    };
    tag_syms + attr_syms
}

/// The HTML symbols of the first `n` matches, in order.
pub open spec fn spec_walk_html(
    ms: Seq<Seq<Capture>>,
    names: Seq<Seq<char>>,
    src: Seq<u8>,
    file: Seq<char>,
    n: int,
) -> Seq<SymbolView>
    decreases n,
{
    if n <= 0 {
        Seq::empty()
    } else {
        spec_walk_html(ms, names, src, file, n - 1) + html_match_symbols(
            html_fold(ms[n - 1], names, src, ms[n - 1].len() as int),
            file,
        )
    }
}

/// Symbols of the first `n` HTML matches stay among those of more matches.
proof fn lemma_walk_html_grow(
    ms: Seq<Seq<Capture>>,
    names: Seq<Seq<char>>,
    src: Seq<u8>,
    file: Seq<char>,
    n: int,
    i: int,
    s: SymbolView,
)
    requires
        0 <= i < n <= ms.len(),
        html_match_symbols(html_fold(ms[i], names, src, ms[i].len() as int), file).contains(s),
    ensures
        spec_walk_html(ms, names, src, file, n).contains(s),
    decreases n,
{
    let prev = spec_walk_html(ms, names, src, file, n - 1);
    let last = html_match_symbols(html_fold(ms[n - 1], names, src, ms[n - 1].len() as int), file);
    if i < n - 1 {
        lemma_walk_html_grow(ms, names, src, file, n - 1, i, s);
        let w = choose|w: int| 0 <= w < prev.len() && prev[w] == s;
        assert((prev + last)[w] == s);
    } else {
        let w = choose|w: int| 0 <= w < last.len() && last[w] == s;
        assert((prev + last)[prev.len() + w] == s);
    }
}

/// The HTML symbols, as the matches of the HTML symbol query give them: a
/// tag match gives an `Element` symbol named by the tag, on the tag's
/// 1-based line; an attribute match whose name is `id` gives a selector
/// named `#` and the value, and one whose name is `class` a selector named
/// `.` and the word for each whitespace-separated word of the value, on the
/// value's line; no symbol has a container.
pub proof fn lemma_html_matches_give_symbols(
    ms: Seq<Seq<Capture>>,
    names: Seq<Seq<char>>,
    src: Seq<u8>,
    file: Seq<char>,
    i: int,
)
    requires
        0 <= i < ms.len(),
    ensures
        ({
            let w = spec_walk_html(ms, names, src, file, ms.len() as int);
            let caps = ms[i];
            &&& caps.len() == 1 && cap_name(names, caps[0]) == "tag"@ ==> w.contains(
                SymbolView {
                    name: span_text(src, caps[0].start_byte as int, caps[0].end_byte as int),
                    kind: ChunkKind::Element,
                    file,
                    line: cap_line(caps[0]),
                    container: None,
                },
            )
            &&& caps.len() == 2 && cap_name(names, caps[0]) == "attr_name"@ && cap_name(
                names,
                caps[1],
            ) == "attr_value"@ ==> {
                let an = span_text(src, caps[0].start_byte as int, caps[0].end_byte as int);
                let av = span_text(src, caps[1].start_byte as int, caps[1].end_byte as int);
                let sel = |nm: Seq<char>|
                    SymbolView {
                        name: nm,
                        kind: ChunkKind::Selector,
                        file,
                        line: cap_line(caps[1]),
                        container: None,
                    };
                &&& an == "id"@ ==> w.contains(sel(seq!['#'] + av))
                &&& an == "class"@ ==> forall|m: int|
                    0 <= m < spec_words(av).len() ==> w.contains(
                        sel(seq!['.'] + #[trigger] spec_words(av)[m]),
                    )
            }
        }),
{
    reveal_strlit("tag");
    reveal_strlit("attr_name");
    reveal_strlit("attr_value");
    reveal_strlit("id");
    reveal_strlit("class");
    assert("tag"@.len() == 3 && "attr_name"@.len() == 9 && "attr_value"@.len() == 10);
    assert("id"@.len() == 2 && "class"@.len() == 5);
    let caps = ms[i];
    let n = caps.len() as int;
    let st = html_fold(caps, names, src, n);
    let syms = html_match_symbols(st, file);
    if caps.len() == 1 && cap_name(names, caps[0]) == "tag"@ {
        assert(html_fold(caps, names, src, 0) == (
            None::<(Seq<char>, u32)>,
            None::<Seq<char>>,
            None::<(Seq<char>, u32)>,
        ));
        assert(syms[0] == syms[0]);
        assert(syms.contains(syms[0]));
        lemma_walk_html_grow(ms, names, src, file, ms.len() as int, i, syms[0]);
    }
    if caps.len() == 2 && cap_name(names, caps[0]) == "attr_name"@ && cap_name(names, caps[1])
        == "attr_value"@ {
        let an = span_text(src, caps[0].start_byte as int, caps[0].end_byte as int);
        let av = span_text(src, caps[1].start_byte as int, caps[1].end_byte as int);
        assert(html_fold(caps, names, src, 0) == (
            None::<(Seq<char>, u32)>,
            None::<Seq<char>>,
            None::<(Seq<char>, u32)>,
        ));
        let f1 = html_fold(caps, names, src, 1);
        assert(st == (None::<(Seq<char>, u32)>, Some(an), Some((av, cap_line(caps[1])))));
        assert(syms == Seq::<SymbolView>::empty() + match (st.1, st.2) {
            (Some(name), Some((value, line))) => if name == "id"@ {
                seq![selector(seq!['#'] + value, file, line)]
            } else if name == "class"@ {
                class_symbols(spec_words(value), file, line)
            } else {
                Seq::empty()
            },
            _ => Seq::empty(),
        });
        if an == "id"@ {
            assert(syms[0] == selector(seq!['#'] + av, file, cap_line(caps[1])));
            assert(syms.contains(syms[0]));
            lemma_walk_html_grow(ms, names, src, file, ms.len() as int, i, syms[0]);
        }
        if an == "class"@ {
            assert forall|m: int| 0 <= m < spec_words(av).len() implies spec_walk_html(
                ms,
                names,
                src,
                file,
                ms.len() as int,
            ).contains(
                SymbolView {
                    name: seq!['.'] + #[trigger] spec_words(av)[m],
                    kind: ChunkKind::Selector,
                    file,
                    line: cap_line(caps[1]),
                    container: None,
                },
            ) by {
                assert(syms[m] == selector(seq!['.'] + spec_words(av)[m], file, cap_line(caps[1])));
                assert(syms.contains(syms[m]));
                lemma_walk_html_grow(ms, names, src, file, ms.len() as int, i, syms[m]);
            }
        }
    }
}

/// The views of an optional text with its line.
pub open spec fn line_text_view(o: Option<(String, u32)>) -> Option<(Seq<char>, u32)> {
    match o {
        Some((s, l)) => Some((s@, l)),
        None => None,
    }
}

/// The HTML symbols of a query's matches.
pub fn walk_html(ms: &Vec<Vec<Capture>>, names: &Vec<String>, src: &[u8], file: &str) -> (r: Vec<
    Symbol,
>)
    ensures
        syms_view(r@) == spec_walk_html(
            ms@.map_values(|m: Vec<Capture>| m@),
            names_view(names@),
            src@,
            file@,
            ms@.len() as int,
        ),
{
    let ghost msv = ms@.map_values(|m: Vec<Capture>| m@);
    let ghost nv = names_view(names@);
    let mut out: Vec<Symbol> = Vec::new();
    let mut i: usize = 0;
    while i < ms.len()
        invariant
            0 <= i <= ms@.len(),
            msv == ms@.map_values(|m: Vec<Capture>| m@),
            nv == names_view(names@),
            syms_view(out@) == spec_walk_html(msv, nv, src@, file@, i as int),
        decreases ms@.len() - i,
    {
        let caps = &ms[i];
        assert(msv[i as int] == caps@);
        let mut tag: Option<(String, u32)> = None;
        let mut attr_name: Option<String> = None;
        let mut attr_value: Option<(String, u32)> = None;
        let mut j: usize = 0;
        while j < caps.len()
            invariant
                0 <= j <= caps@.len(),
                nv == names_view(names@),
                html_fold(caps@, nv, src@, j as int) == (
                    line_text_view(tag),
                    crate::types::opt_view(attr_name),
                    line_text_view(attr_value),
                ),
            decreases caps@.len() - j,
        {
            let c = caps[j];
            let cname: Vec<char> = if (c.index as usize) < names.len() {
                chars_of(names[c.index as usize].as_str())
            } else {
                Vec::new()
            };
            assert(cname@ == cap_name(nv, c));
            let text = span_string(src, c.start_byte, c.end_byte);
            let line = sat_inc(clamp_u32(c.start_row));
            if chars_eq_str(&cname, "tag") {
                tag = Some((text, line));
            } else if chars_eq_str(&cname, "attr_name") {
                attr_name = Some(text);
            } else if chars_eq_str(&cname, "attr_value") {
                attr_value = Some((text, line));
            }
            j = j + 1;
        }
        let ghost st = html_fold(caps@, nv, src@, caps@.len() as int);
        let ghost before = syms_view(out@);
        match &tag {
            Some((t, line)) => {
                out.push(
                    Symbol {
                        name: t.clone(),
                        kind: ChunkKind::Element,
                        file: String::from_str(file),
                        line: *line,
                        container: None,
                    },
                );
            },
            None => {},
        }
        let ghost mid = syms_view(out@);
        assert(mid =~= before + match st.0 {
            Some((t, line)) => seq![
                SymbolView { name: t, kind: ChunkKind::Element, file: file@, line, container: None },
            ],
            None => Seq::empty(),
        });
        match (&attr_name, &attr_value) {
            (Some(name), Some((value, line))) => {
                if crate::text::str_eq(name.as_str(), "id") {
                    let mut nm: Vec<char> = Vec::new();
                    nm.push('#');
                    push_str(&mut nm, value.as_str());
                    out.push(make_symbol(nm, ChunkKind::Selector, file, *line));
                } else if crate::text::str_eq(name.as_str(), "class") {
                    let words = split_whitespace(value.as_str());
                    let ghost wv = words@.map_values(|x: String| x@);
                    let mut k: usize = 0;
                    while k < words.len()
                        invariant
                            0 <= k <= words@.len(),
                            wv == words@.map_values(|x: String| x@),
                            syms_view(out@) == mid + class_symbols(wv.subrange(0, k as int), file@, *line),
                        decreases words@.len() - k,
                    {
                        let mut nm: Vec<char> = Vec::new();
                        nm.push('.');
                        push_str(&mut nm, words[k].as_str());
                        let ghost b2 = syms_view(out@);
                        assert(words@[k as int]@ == wv[k as int]);
                        let sym = make_symbol(nm, ChunkKind::Selector, file, *line);
                        assert(sym@ == selector(seq!['.'] + wv[k as int], file@, *line));
                        out.push(sym);
                        assert(syms_view(out@) =~= b2.push(sym@));
                        assert(wv.subrange(0, k + 1) =~= wv.subrange(0, k as int).push(wv[k as int]));
                        assert(class_symbols(wv.subrange(0, k + 1), file@, *line) =~= class_symbols(
                            wv.subrange(0, k as int),
                            file@,
                            *line,
                        ).push(selector(seq!['.'] + wv[k as int], file@, *line)));
                        assert(syms_view(out@) =~= mid + class_symbols(wv.subrange(0, k + 1), file@, *line));
                        k = k + 1;
                    }
                    assert(wv.subrange(0, words@.len() as int) =~= wv);
                }
            },
            _ => {},
        }
        assert(syms_view(out@) =~= before + html_match_symbols(st, file@));
        i = i + 1;
    }
    out
}

/// The symbols of a CSS source, or the error that stops their extraction:
/// the CSS grammar must load and the symbol query compile; the symbols come
/// from the query's matches over the parse of `src`.
pub open spec fn spec_extract_css(file: Seq<char>, src: Seq<u8>) -> Result<Seq<SymbolView>, Seq<char>> {
    let g = Grammar::Css;
    let text = CSS_SYMBOL_QUERY_SRC@;
    match ts_set_language(g) {
        Err(m) => Err(m),
        Ok(()) => match ts_compile(g, text) {
            Err(m) => Err(m),
            Ok(()) => {
                let ms = ts_matches(g, text, g, src, src);
                Ok(spec_walk_css(ms, ts_capture_names(g, text), src, file, ms.len() as int))
            },
        },
    }
}

/// The symbols of an HTML source, or the error that stops their extraction
/// (as for CSS, with the HTML grammar and symbol query).
pub open spec fn spec_extract_html(file: Seq<char>, src: Seq<u8>) -> Result<Seq<SymbolView>, Seq<char>> {
    let g = Grammar::Html;
    let text = HTML_SYMBOL_QUERY_SRC@;
    match ts_set_language(g) {
        Err(m) => Err(m),
        Ok(()) => match ts_compile(g, text) {
            Err(m) => Err(m),
            Ok(()) => {
                let ms = ts_matches(g, text, g, src, src);
                Ok(spec_walk_html(ms, ts_capture_names(g, text), src, file, ms.len() as int))
            },
        },
    }
}

/// The symbols of a file: CSS and HTML files are read with tree-sitter;
/// other files give none here.
pub open spec fn spec_extract_from_file(file: Seq<char>, bytes: Seq<u8>) -> Result<Seq<SymbolView>, Seq<char>> {
    match spec_detect(file) {
        Some(Language::Css) => spec_extract_css(file, bytes),
        Some(Language::Html) => spec_extract_html(file, bytes),
        _ => Ok(Seq::empty()),
    }
}

/// The symbols of a CSS source: every class, id and tag selector, with the
/// line it starts on.
pub fn extract_css(file: &str, src: &[u8]) -> (r: Result<Vec<Symbol>, CtxError>)
    ensures
        match spec_extract_css(file@, src@) {
            Ok(v) => r is Ok && syms_view(r->Ok_0@) == v,
            Err(m) => r is Err && r->Err_0 is Symbol && r->Err_0->Symbol_0@ == m,
        },
{
    let grammar = grammar_css();
    let mut parser = new_parser();
    match set_parser_language(&mut parser, &grammar) {
        Ok(()) => {},
        Err(e) => return Err(CtxError::Symbol(e)),
    }
    let tree = match parse_source(&mut parser, src) {
        Some(t) => t,
        None => return Err(CtxError::Symbol(String::from_str("css parse returned None"))),
    };
    let query = match compile_query(&grammar, CSS_SYMBOL_QUERY_SRC) {
        Ok(q) => q,
        Err(e) => return Err(CtxError::Symbol(e)),
    };
    let ms = query_matches(&query, &tree, src);
    let names = capture_names(&query);
    let r = walk_css(&ms, &names, src, file);
    proof {
        let msv = ms@.map_values(|m: Vec<Capture>| m@);
        assert(msv.len() == ms@.len());
        assert(syms_view(r@) == spec_walk_css(msv, names_view(names@), src@, file@, msv.len() as int));
    }
    Ok(r)
}

/// The symbols of an HTML source: every element's tag, and the `#id` and
/// `.class` selectors its attributes declare, with their lines.
pub fn extract_html(file: &str, src: &[u8]) -> (r: Result<Vec<Symbol>, CtxError>)
    ensures
        match spec_extract_html(file@, src@) {
            Ok(v) => r is Ok && syms_view(r->Ok_0@) == v,
            Err(m) => r is Err && r->Err_0 is Symbol && r->Err_0->Symbol_0@ == m,
        },
{
    let grammar = grammar_html();
    let mut parser = new_parser();
    match set_parser_language(&mut parser, &grammar) {
        Ok(()) => {},
        Err(e) => return Err(CtxError::Symbol(e)),
    }
    let tree = match parse_source(&mut parser, src) {
        Some(t) => t,
        None => return Err(CtxError::Symbol(String::from_str("html parse returned None"))),
    };
    let query = match compile_query(&grammar, HTML_SYMBOL_QUERY_SRC) {
        Ok(q) => q,
        Err(e) => return Err(CtxError::Symbol(e)),
    };
    let ms = query_matches(&query, &tree, src);
    let names = capture_names(&query);
    let r = walk_html(&ms, &names, src, file);
    proof {
        let msv = ms@.map_values(|m: Vec<Capture>| m@);
        assert(msv.len() == ms@.len());
        assert(syms_view(r@) == spec_walk_html(msv, names_view(names@), src@, file@, msv.len() as int));
    }
    Ok(r)
}

/// The symbols of a file: CSS and HTML files are read with tree-sitter;
/// other files give none here (TypeScript symbols come from a language server).
pub fn extract_from_file(file: &str, bytes: &[u8]) -> (r: Result<Vec<Symbol>, CtxError>)
    ensures
        match spec_extract_from_file(file@, bytes@) {
            Ok(v) => r is Ok && syms_view(r->Ok_0@) == v,
            Err(m) => r is Err && r->Err_0 is Symbol && r->Err_0->Symbol_0@ == m,
        },
{
    match detect(file) {
        Some(Language::Css) => extract_css(file, bytes),
        Some(Language::Html) => extract_html(file, bytes),
        _ => {
            let out: Vec<Symbol> = Vec::new();
            assert(syms_view(out@) =~= Seq::<SymbolView>::empty());
            Ok(out)
        },
    }
}

} // verus!
