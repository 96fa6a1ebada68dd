//! Splitting a source file into chunks: tree-sitter queries find the
//! declarations, selectors and elements; a JSON file is one document chunk.

use vstd::prelude::*;

use crate::error::CtxError;
use crate::hash::{blake3_digest, ContentHash};
use crate::languages::{detect, spec_detect};
use crate::text::{
    chars_eq_str, clamp_u32, push_str, sat_inc, span_string, span_text, spec_trim, string_of, trim,
};
use crate::treesitter::{
    capture_names, compile_query, grammar_css, grammar_html, grammar_javascript, grammar_json,
    grammar_tsx, grammar_typescript, new_parser, parse_source, query_matches,
    set_parser_language, ts_capture_names, ts_compile, ts_matches, ts_set_language, Capture,
    Grammar, TsLanguage,
};
use crate::types::{opt_view, ByteRange, Chunk, ChunkKind, ChunkView, Language, LineRange};

verus! {

/// Declarations in TypeScript and TSX sources.
pub const TS_QUERY_SRC: &'static str = "(function_declaration name: (identifier) @name) @function\n(method_definition name: (property_identifier) @name) @method\n(class_declaration name: (type_identifier) @name) @class\n(interface_declaration name: (type_identifier) @name) @interface\n(type_alias_declaration name: (type_identifier) @name) @type\n(enum_declaration name: (identifier) @name) @enum\n(lexical_declaration (variable_declarator name: (identifier) @name value: (arrow_function))) @arrow\n";

/// Declarations in JavaScript sources.
pub const JS_QUERY_SRC: &'static str = "(function_declaration name: (identifier) @name) @function\n(method_definition name: (property_identifier) @name) @method\n(class_declaration name: (identifier) @name) @class\n(lexical_declaration (variable_declarator name: (identifier) @name value: (arrow_function))) @arrow\n";

/// CSS rule sets with their selector lists.
pub const CSS_QUERY_SRC: &'static str = "(rule_set (selectors) @sel) @rule\n";

/// HTML elements with their tag names.
pub const HTML_QUERY_SRC: &'static str = "(element (start_tag (tag_name) @tag)) @element\n(element (self_closing_tag (tag_name) @tag)) @element\n";

/// A region of a source file that becomes one chunk (0-based lines,
/// `line_end` exclusive).
#[derive(Clone, Debug, PartialEq)]
pub struct Region {
    pub kind: ChunkKind,
    pub name: Option<String>,
    pub byte_start: usize,
    pub byte_end: usize,
    pub line_start: u32,
    pub line_end: u32,
}

/// What a region holds.
pub ghost struct RegionView {
    pub kind: ChunkKind,
    pub name: Option<Seq<char>>,
    pub byte_start: usize,
    pub byte_end: usize,
    pub line_start: u32,
    pub line_end: u32,
}

impl View for Region {
    type V = RegionView;

    open spec fn view(&self) -> RegionView {
        RegionView {
            kind: self.kind,
            name: opt_view(self.name),
            byte_start: self.byte_start,
            byte_end: self.byte_end,
            line_start: self.line_start,
            line_end: self.line_end,
        }
    }
}

/// The views of a list of regions.
pub open spec fn regions_view(v: Seq<Region>) -> Seq<RegionView> {
    v.map_values(|r: Region| r@)
}

/// Which query a language's regions come from.
#[derive(Clone, Copy, PartialEq, Eq, Debug)]
pub enum Family {
    Script,
    Css,
    Html,
}

/// What a capture contributes to its match's region.
pub enum Role {
    /// Its text names the region.
    Name,
    /// Its text, trimmed, names the region.
    TrimmedName,
    /// It is the region's node, of the given kind.
    Node(ChunkKind),
    /// Nothing.
    Skip,
}

/// The role of the capture called `name` in the query of `family`.
pub open spec fn spec_role(family: Family, name: Seq<char>) -> Role {
    match family {
        Family::Script => if name == "name"@ {
            Role::Name
        } else if name == "function"@ || name == "arrow"@ {
            Role::Node(ChunkKind::Function)
        } else if name == "method"@ {
            Role::Node(ChunkKind::Method)
        } else if name == "class"@ {
            Role::Node(ChunkKind::Class)
        } else if name == "interface"@ {
            Role::Node(ChunkKind::Interface)
        } else if name == "type"@ {
            Role::Node(ChunkKind::Type)
        } else if name == "enum"@ {
            Role::Node(ChunkKind::Enum)
        } else {
            Role::Skip
        },
        Family::Css => if name == "sel"@ {
            Role::TrimmedName
        } else if name == "rule"@ {
            Role::Node(ChunkKind::Selector)
        } else {
            Role::Skip
        },
        Family::Html => if name == "tag"@ {
            Role::Name
        } else if name == "element"@ {
            Role::Node(ChunkKind::Element)
        } else {
            Role::Skip
        },
    }
}

/// The role of a capture name.
pub fn role(family: Family, name: &Vec<char>) -> (r: Role)
    ensures
        r == spec_role(family, name@),
{
    match family {
        Family::Script => if chars_eq_str(name, "name") {
            Role::Name
        } else if chars_eq_str(name, "function") || chars_eq_str(name, "arrow") {
            Role::Node(ChunkKind::Function)
        } else if chars_eq_str(name, "method") {
            Role::Node(ChunkKind::Method)
        } else if chars_eq_str(name, "class") {
            Role::Node(ChunkKind::Class)
        } else if chars_eq_str(name, "interface") {
            Role::Node(ChunkKind::Interface)
        } else if chars_eq_str(name, "type") {
            Role::Node(ChunkKind::Type)
        } else if chars_eq_str(name, "enum") {
            Role::Node(ChunkKind::Enum)
        } else {
            Role::Skip
        },
        Family::Css => if chars_eq_str(name, "sel") {
            Role::TrimmedName
        } else if chars_eq_str(name, "rule") {
            Role::Node(ChunkKind::Selector)
        } else {
            Role::Skip
        },
        Family::Html => if chars_eq_str(name, "tag") {
            Role::Name
        } else if chars_eq_str(name, "element") {
            Role::Node(ChunkKind::Element)
        } else {
            Role::Skip
        },
    }
}

/// The name of a capture (empty when its index has no name).
pub open spec fn cap_name(names: Seq<Seq<char>>, c: Capture) -> Seq<char> {
    if c.index < names.len() {
        names[c.index as int]
    } else {
        Seq::empty()
    }
}

/// The state after reading the first `k` captures of a match: the region
/// kind, its name, and its node.
pub open spec fn fold_captures(
    family: Family,
    caps: Seq<Capture>,
    names: Seq<Seq<char>>,
    src: Seq<u8>,
    k: int,
) -> (Option<ChunkKind>, Option<Seq<char>>, Option<Capture>)
    decreases k,
{
    if k <= 0 {
        (None, None, None)
    } else {
        let prev = fold_captures(family, caps, names, src, k - 1);
        let c = caps[k - 1];
        let text = span_text(src, c.start_byte as int, c.end_byte as int);
        match spec_role(family, cap_name(names, c)) {
            Role::Name => (prev.0, Some(text), prev.2),
            Role::TrimmedName => (prev.0, Some(spec_trim(text)), prev.2),
            Role::Node(kind) => (Some(kind), prev.1, Some(c)),
            Role::Skip => prev,
        }
    }
}

/// The region a node spans (rows clamped to `u32`; the end row is inclusive,
/// so the exclusive end line is one more).
pub open spec fn node_region(kind: ChunkKind, name: Option<Seq<char>>, c: Capture) -> RegionView {
    let ls = if c.start_row <= u32::MAX { c.start_row as u32 } else { u32::MAX };
    let le = if c.end_row <= u32::MAX { c.end_row as u32 } else { u32::MAX };
    RegionView {
        kind,
        name,
        byte_start: c.start_byte,
        byte_end: c.end_byte,
        line_start: ls,
        line_end: if le == u32::MAX { u32::MAX } else { (le + 1) as u32 },
    }
}

/// The region of one match, if it captured a node lying within the source.
pub open spec fn match_region(
    family: Family,
    caps: Seq<Capture>,
    names: Seq<Seq<char>>,
    src: Seq<u8>,
) -> Option<RegionView> {
    let st = fold_captures(family, caps, names, src, caps.len() as int);
    match (st.0, st.2) {
        (Some(kind), Some(node)) => if node.start_byte <= node.end_byte <= src.len() {
            Some(node_region(kind, st.1, node))
        } else {
            None
        },
        _ => None,
    }
}

/// The regions of the first `n` matches, in match order.
pub open spec fn spec_regions(
    family: Family,
    ms: Seq<Seq<Capture>>,
    names: Seq<Seq<char>>,
    src: Seq<u8>,
    n: int,
) -> Seq<RegionView>
    decreases n,
{
    if n <= 0 {
        Seq::empty()
    } else {
        let prev = spec_regions(family, ms, names, src, n - 1);
        match match_region(family, ms[n - 1], names, src) {
            Some(r) => prev.push(r),
            None => prev,
        }
    }
}

/// The views of capture names.
pub open spec fn names_view(v: Seq<String>) -> Seq<Seq<char>> {
    v.map_values(|s: String| s@)
}

/// The regions found by the query of `family`, given its matches and its
/// capture names. A node must lie within `src` (it always does for a tree
/// parsed from `src`).
pub fn regions_of_matches(
    family: Family,
    ms: &Vec<Vec<Capture>>,
    names: &Vec<String>,
    src: &[u8],
) -> (r: Vec<Region>)
    ensures
        regions_view(r@) == spec_regions(
            family,
            ms@.map_values(|m: Vec<Capture>| m@),
            names_view(names@),
            src@,
            ms@.len() as int,
        ),
{
    let ghost msv = ms@.map_values(|m: Vec<Capture>| m@);
    let ghost nv = names_view(names@);
    let mut out: Vec<Region> = Vec::new();
    let mut i: usize = 0;
    while i < ms.len()
        invariant
            0 <= i <= ms@.len(),
            msv == ms@.map_values(|m: Vec<Capture>| m@),
            nv == names_view(names@),
            regions_view(out@) == spec_regions(family, msv, nv, src@, i as int),
        decreases ms@.len() - i,
    {
        let caps = &ms[i];
        assert(msv[i as int] == caps@);
        let mut kind: Option<ChunkKind> = None;
        let mut name: Option<String> = None;
        let mut node: Option<Capture> = None;
        let mut j: usize = 0;
        while j < caps.len()
            invariant
                0 <= j <= caps@.len(),
                nv == names_view(names@),
                fold_captures(family, caps@, nv, src@, j as int) == (kind, opt_view(name), node),
            decreases caps@.len() - j,
        {
            let c = caps[j];
            let cname: Vec<char> = if (c.index as usize) < names.len() {
                crate::text::chars_of(names[c.index as usize].as_str())
            } else {
                Vec::new()
            };
            assert(cname@ == cap_name(nv, c));
            match role(family, &cname) {
                Role::Name => {
                    name = Some(span_string(src, c.start_byte, c.end_byte));
                },
                Role::TrimmedName => {
                    let t = span_string(src, c.start_byte, c.end_byte);
                    name = Some(trim(t.as_str()));
                },
                Role::Node(k) => {
                    kind = Some(k);
                    node = Some(c);
                },
                Role::Skip => {},
            }
            j = j + 1;
        }
        let ghost before = regions_view(out@);
        match (kind, node) {
            (Some(k), Some(nd)) => {
                if nd.start_byte <= nd.end_byte && nd.end_byte <= src.len() {
                    let ls = clamp_u32(nd.start_row);
                    let le = sat_inc(clamp_u32(nd.end_row));
                    let reg = Region {
                        kind: k,
                        name,
                        byte_start: nd.start_byte,
                        byte_end: nd.end_byte,
                        line_start: ls,
                        line_end: le,
                    };
                    out.push(reg);
                    assert(regions_view(out@) =~= before.push(node_region(k, opt_view(name), nd)));
                }
            },
            _ => {},
        }
        i = i + 1;
    }
    out
}

/// The number of `\n` bytes in `b`.
pub open spec fn count_newlines(b: Seq<u8>) -> nat
    decreases b.len(),
{
    if b.len() == 0 {
        0
    } else {
        count_newlines(b.drop_last()) + if b.last() == 10 {
            1nat
        } else {
            0nat
        }
    }
}

/// The single document region of a JSON file (none for an empty file).
pub open spec fn spec_json_regions(b: Seq<u8>) -> Seq<RegionView> {
    if b.len() == 0 {
        Seq::empty()
    } else {
        let lines = if count_newlines(b) <= u32::MAX {
            count_newlines(b) as u32
        } else {
            u32::MAX
        };
        seq![
            RegionView {
                kind: ChunkKind::Document,
                name: None,
                byte_start: 0,
                byte_end: b.len() as usize,
                line_start: 0,
                line_end: if lines == u32::MAX { u32::MAX } else { (lines + 1) as u32 },
            },
        ]
    }
}

/// The regions of a JSON file: the whole file as one document.
pub fn json_extract(bytes: &[u8]) -> (r: Vec<Region>)
    ensures
        regions_view(r@) == spec_json_regions(bytes@),
{
    if bytes.len() == 0 {
        return Vec::new();
    }
    let mut n: usize = 0;
    let mut i: usize = 0;
    while i < bytes.len()
        invariant
            0 <= i <= bytes@.len(),
            n == count_newlines(bytes@.subrange(0, i as int)),
            n <= i,
        decreases bytes@.len() - i,
    {
        assert(bytes@.subrange(0, i + 1).drop_last() =~= bytes@.subrange(0, i as int));
        if bytes[i] == 10 {
            n = n + 1;
        }
        i = i + 1;
    }
    assert(bytes@.subrange(0, bytes@.len() as int) =~= bytes@);
    let lines = clamp_u32(n);
    let mut out: Vec<Region> = Vec::new();
    out.push(
        Region {
            kind: ChunkKind::Document,
            name: None,
            byte_start: 0,
            byte_end: bytes.len(),
            line_start: 0,
            line_end: sat_inc(lines),
        },
    );
    assert(regions_view(out@) =~= spec_json_regions(bytes@));
    out
}

/// The grammar a language is parsed with (TSX's serves JSX too).
pub open spec fn spec_grammar(lang: Language) -> Grammar {
    match lang {
        Language::TypeScript => Grammar::TypeScript,
        Language::Tsx | Language::Jsx => Grammar::Tsx,
        Language::JavaScript => Grammar::JavaScript,
        Language::Css => Grammar::Css,
        Language::Html => Grammar::Html,
        Language::Json => Grammar::Json,
    }
}

/// The tree-sitter grammar of a language (TSX's serves JSX too).
pub fn tree_sitter_language(lang: Language) -> (r: TsLanguage)
    ensures
        r.grammar() == spec_grammar(lang),
{
    match lang {
        Language::TypeScript => grammar_typescript(),
        Language::Tsx | Language::Jsx => grammar_tsx(),
        Language::JavaScript => grammar_javascript(),
        Language::Css => grammar_css(),
        Language::Html => grammar_html(),
        Language::Json => grammar_json(),
    }
}

/// The chunk query of a language read with queries: TypeScript's query
/// serves TSX and JSX too (with the TSX grammar).
pub open spec fn query_text(lang: Language) -> Seq<char> {
    match lang {
        Language::Css => CSS_QUERY_SRC@,
        Language::Html => HTML_QUERY_SRC@,
        Language::JavaScript => JS_QUERY_SRC@,
        _ => TS_QUERY_SRC@,
    }
}

/// The query family and query text of a language read with queries.
fn query_for(lang: Language) -> (r: (Family, &'static str))
    requires
        lang != Language::Json,
    ensures
        family_of(lang) == Some(r.0),
        r.1@ == query_text(lang),
{
    match lang {
        Language::Css => (Family::Css, CSS_QUERY_SRC),
        Language::Html => (Family::Html, HTML_QUERY_SRC),
        Language::JavaScript => (Family::Script, JS_QUERY_SRC),
        _ => (Family::Script, TS_QUERY_SRC),
    }
}

/// The regions of `bytes` in language `lang`, or the error that stops
/// chunking: the grammar must load; a JSON file is one document; other
/// languages must have their query compile, and their regions come from
/// the query's matches over the parse of `bytes`.
pub open spec fn spec_lang_regions(lang: Language, bytes: Seq<u8>) -> Result<Seq<RegionView>, Seq<char>> {
    let g = spec_grammar(lang);
    match ts_set_language(g) {
        Err(m) => Err(m),
        Ok(()) => if lang == Language::Json {
            Ok(spec_json_regions(bytes))
        } else {
            let text = query_text(lang);
            match ts_compile(g, text) {
                Err(m) => Err(m),
                Ok(()) => {
                    let ms = ts_matches(g, text, g, bytes, bytes);
                    Ok(
                        spec_regions(
                            family_of(lang)->Some_0,
                            ms,
                            ts_capture_names(g, text),
                            bytes,
                            ms.len() as int,
                        ),
                    )
                },
            }
        },
    }
}

/// The chunks of `bytes`, the contents of `file`, or the error message.
pub open spec fn spec_chunk(file: Seq<char>, bytes: Seq<u8>) -> Result<Seq<ChunkView>, Seq<char>> {
    match spec_detect(file) {
        None => Err(no_grammar_msg(file)),
        Some(lang) => match spec_lang_regions(lang, bytes) {
            Err(m) => Err(m),
            Ok(rs) => Ok(rs.map_values(|reg: RegionView| chunk_of_region(file, bytes, lang, reg))),
        },
    }
}

/// Chunking is deterministic and content-addressed: two files of the same
/// language with the same bytes give chunks with the same kinds, names,
/// ranges, texts and hashes; only the file differs.
pub proof fn lemma_chunk_deterministic(f1: Seq<char>, f2: Seq<char>, bytes: Seq<u8>)
    requires
        spec_detect(f1) == spec_detect(f2),
    ensures
        spec_chunk(f1, bytes) is Ok <==> spec_chunk(f2, bytes) is Ok,
        spec_chunk(f1, bytes) matches Ok(a) ==> spec_chunk(f2, bytes) matches Ok(b) && a.len()
            == b.len() && forall|i: int|
            0 <= i < a.len() ==> (#[trigger] a[i]).hash == b[i].hash && a[i].kind == b[i].kind
                && a[i].name == b[i].name && a[i].byte_range == b[i].byte_range
                && a[i].line_range == b[i].line_range && a[i].text == b[i].text && a[i].lang
                == b[i].lang,
{
}

/// The roles of the captures of the three queries: in the script query
/// `name` names the declaration and `function`, `arrow`, `method`, `class`,
/// `interface`, `type` and `enum` are declaration nodes of the kinds they
/// name (an arrow function is a function); in the CSS query `sel`, trimmed,
/// names the rule and `rule` is a selector node; in the HTML query `tag`
/// names the element and `element` is an element node.
pub proof fn lemma_capture_roles()
    ensures
        spec_role(Family::Script, "name"@) == Role::Name,
        spec_role(Family::Script, "function"@) == Role::Node(ChunkKind::Function),
        spec_role(Family::Script, "arrow"@) == Role::Node(ChunkKind::Function),
        spec_role(Family::Script, "method"@) == Role::Node(ChunkKind::Method),
        spec_role(Family::Script, "class"@) == Role::Node(ChunkKind::Class),
        spec_role(Family::Script, "interface"@) == Role::Node(ChunkKind::Interface),
        spec_role(Family::Script, "type"@) == Role::Node(ChunkKind::Type),
        spec_role(Family::Script, "enum"@) == Role::Node(ChunkKind::Enum),
        spec_role(Family::Css, "sel"@) == Role::TrimmedName,
        spec_role(Family::Css, "rule"@) == Role::Node(ChunkKind::Selector),
        spec_role(Family::Html, "tag"@) == Role::Name,
        spec_role(Family::Html, "element"@) == Role::Node(ChunkKind::Element),
{
    reveal_strlit("name");
    reveal_strlit("function");
    reveal_strlit("arrow");
    reveal_strlit("method");
    reveal_strlit("class");
    reveal_strlit("interface");
    reveal_strlit("type");
    reveal_strlit("enum");
    reveal_strlit("sel");
    reveal_strlit("rule");
    reveal_strlit("tag");
    reveal_strlit("element");
    assert("name"@.len() == 4);
    assert("function"@.len() == 8);
    assert("arrow"@.len() == 5);
    assert("method"@.len() == 6);
    assert("class"@.len() == 5);
    assert("interface"@.len() == 9);
    assert("type"@.len() == 4);
    assert("enum"@.len() == 4);
    assert("sel"@.len() == 3);
    assert("rule"@.len() == 4);
    assert("tag"@.len() == 3);
    assert("element"@.len() == 7);
    assert("name"@[0] != "type"@[0] && "name"@[0] != "enum"@[0] && "type"@[0] != "enum"@[0]);
    assert("arrow"@[0] != "class"@[0]);
}

/// A declaration match of a query (its node capture, of a node lying in the
/// source, and its name capture, in either order) gives one region: of the
/// kind the node capture names, named by the name capture's text (trimmed
/// for a CSS selector list), spanning the node's bytes and its rows (the
/// end row included, so the exclusive end line is one past it).
pub proof fn lemma_declaration_match_region(
    family: Family,
    node: Capture,
    name: Capture,
    names: Seq<Seq<char>>,
    src: Seq<u8>,
    kind: ChunkKind,
)
    requires
        node.index < names.len(),
        name.index < names.len(),
        node.start_byte <= node.end_byte <= src.len(),
        ({
            let k = names[node.index as int];
            ||| family == Family::Script && (k == "function"@ || k == "arrow"@) && kind
                == ChunkKind::Function
            ||| family == Family::Script && k == "method"@ && kind == ChunkKind::Method
            ||| family == Family::Script && k == "class"@ && kind == ChunkKind::Class
            ||| family == Family::Script && k == "interface"@ && kind == ChunkKind::Interface
            ||| family == Family::Script && k == "type"@ && kind == ChunkKind::Type
            ||| family == Family::Script && k == "enum"@ && kind == ChunkKind::Enum
            ||| family == Family::Css && k == "rule"@ && kind == ChunkKind::Selector
            ||| family == Family::Html && k == "element"@ && kind == ChunkKind::Element
        }),
        names[name.index as int] == (match family {
            Family::Script => "name"@,
            Family::Css => "sel"@,
            Family::Html => "tag"@,
        }),
    ensures
        ({
            let text = span_text(src, name.start_byte as int, name.end_byte as int);
            let label = if family == Family::Css {
                spec_trim(text)
            } else {
                text
            };
            forall|caps: Seq<Capture>|
                caps == seq![node, name] || caps == seq![name, node] ==> (#[trigger] match_region(
                    family,
                    caps,
                    names,
                    src,
                ) matches Some(r) && r.kind == kind && r.name == Some(label) && r.byte_start
                    == node.start_byte && r.byte_end == node.end_byte && (node.start_row
                    <= u32::MAX ==> r.line_start == node.start_row) && (node.end_row < u32::MAX
                    ==> r.line_end == node.end_row + 1))
        }),
{
    lemma_capture_roles();
    assert forall|caps: Seq<Capture>|
        caps == seq![node, name] || caps == seq![name, node] implies #[trigger] match_region(
        family,
        caps,
        names,
        src,
    ) == Some(
        node_region(
            kind,
            Some(
                if family == Family::Css {
                    spec_trim(span_text(src, name.start_byte as int, name.end_byte as int))
                } else {
                    span_text(src, name.start_byte as int, name.end_byte as int)
                },
            ),
            node,
        ),
    ) by {
        assert(cap_name(names, node) == names[node.index as int]);
        assert(cap_name(names, name) == names[name.index as int]);
        assert(caps.len() == 2);
        let f1 = fold_captures(family, caps, names, src, 1);
        let f2 = fold_captures(family, caps, names, src, 2);
        assert(fold_captures(family, caps, names, src, 0) == (
            None::<ChunkKind>,
            None::<Seq<char>>,
            None::<Capture>,
        ));
    }
}

/// The regions of a query's matches include the region of each match that
/// gives one.
pub proof fn lemma_regions_include_match(
    family: Family,
    ms: Seq<Seq<Capture>>,
    names: Seq<Seq<char>>,
    src: Seq<u8>,
    n: int,
    i: int,
)
    requires
        0 <= i < n <= ms.len(),
    ensures
        match_region(family, ms[i], names, src) matches Some(r) ==> spec_regions(
            family,
            ms,
            names,
            src,
            n,
        ).contains(r),
    decreases n,
{
    let prev = spec_regions(family, ms, names, src, n - 1);
    match match_region(family, ms[i], names, src) {
        Some(r) => {
            if i < n - 1 {
                lemma_regions_include_match(family, ms, names, src, n - 1, i);
                let w = choose|w: int| 0 <= w < prev.len() && prev[w] == r;
                match match_region(family, ms[n - 1], names, src) {
                    Some(r2) => assert(prev.push(r2)[w] == r),
                    None => {},
                }
            } else {
                assert(prev.push(r)[prev.len() as int] == r);
            }
        },
        None => {},
    }
}

/// Every declaration the query of a file's language matches becomes a
/// chunk: when a file chunks, each match made of a declaration node (lying
/// in the source) and its name gives a chunk of the node's kind, named by
/// the name, spanning the node's bytes and lines, in the file's language.
/// So an `enum` declaration in a TypeScript file gives an `Enum` chunk named
/// after the enum.
pub proof fn lemma_declarations_become_chunks(
    file: Seq<char>,
    bytes: Seq<u8>,
    i: int,
    node: Capture,
    name: Capture,
    kind: ChunkKind,
)
    requires
        spec_detect(file) matches Some(lang) && lang != Language::Json && ({
            let g = spec_grammar(lang);
            let text = query_text(lang);
            let ms = ts_matches(g, text, g, bytes, bytes);
            let names = ts_capture_names(g, text);
            let family = family_of(lang)->Some_0;
            &&& 0 <= i < ms.len()
            &&& ms[i] == seq![node, name] || ms[i] == seq![name, node]
            &&& node.index < names.len()
            &&& name.index < names.len()
            &&& node.start_byte <= node.end_byte <= bytes.len()
            &&& {
                let k = names[node.index as int];
                ||| family == Family::Script && (k == "function"@ || k == "arrow"@) && kind
                    == ChunkKind::Function
                ||| family == Family::Script && k == "method"@ && kind == ChunkKind::Method
                ||| family == Family::Script && k == "class"@ && kind == ChunkKind::Class
                ||| family == Family::Script && k == "interface"@ && kind == ChunkKind::Interface
                ||| family == Family::Script && k == "type"@ && kind == ChunkKind::Type
                ||| family == Family::Script && k == "enum"@ && kind == ChunkKind::Enum
                ||| family == Family::Css && k == "rule"@ && kind == ChunkKind::Selector
                ||| family == Family::Html && k == "element"@ && kind == ChunkKind::Element
            }
            &&& names[name.index as int] == (match family {
                Family::Script => "name"@,
                Family::Css => "sel"@,
                Family::Html => "tag"@,
            })
        }),
    ensures
        spec_chunk(file, bytes) matches Ok(cs) ==> exists|m: int|
            0 <= m < cs.len() && (#[trigger] cs[m]).kind == kind && cs[m].lang
                == spec_detect(file)->Some_0 && cs[m].file == file && cs[m].byte_range.start
                == node.start_byte && cs[m].byte_range.end == node.end_byte && (node.start_row
                <= u32::MAX ==> cs[m].line_range.start == node.start_row) && (node.end_row
                < u32::MAX ==> cs[m].line_range.end == node.end_row + 1) && cs[m].name == Some(
                {
                    let t = span_text(bytes, name.start_byte as int, name.end_byte as int);
                    if spec_detect(file)->Some_0 == Language::Css {
                        spec_trim(t)
                    } else {
                        t
                    }
                },
            ),
{
    let lang = spec_detect(file)->Some_0;
    let g = spec_grammar(lang);
    let text = query_text(lang);
    let ms = ts_matches(g, text, g, bytes, bytes);
    let names = ts_capture_names(g, text);
    let family = family_of(lang)->Some_0;
    lemma_declaration_match_region(family, node, name, names, bytes, kind);
    assert(match_region(family, ms[i], names, bytes) is Some);
    let r = match_region(family, ms[i], names, bytes)->Some_0;
    lemma_regions_include_match(family, ms, names, bytes, ms.len() as int, i);
    match spec_chunk(file, bytes) {
        Ok(cs) => {
            let rs = spec_regions(family, ms, names, bytes, ms.len() as int);
            let w = choose|w: int| 0 <= w < rs.len() && rs[w] == r;
            assert(cs[w] == chunk_of_region(file, bytes, lang, r));
        },
        Err(_) => {},
    }
}

/// The chunk made of a region of `bytes` in `file`.
pub open spec fn chunk_of_region(
    file: Seq<char>,
    bytes: Seq<u8>,
    lang: Language,
    r: RegionView,
) -> ChunkView {
    ChunkView {
        hash: blake3_digest(bytes.subrange(r.byte_start as int, r.byte_end as int)),
        file,
        lang,
        kind: r.kind,
        name: r.name,
        byte_range: ByteRange { start: r.byte_start, end: r.byte_end },
        line_range: LineRange { start: r.line_start, end: r.line_end },
        text: span_text(bytes, r.byte_start as int, r.byte_end as int),
    }
}

/// Chunks are content-addressed: the same region of the same bytes gives
/// the same hash whatever file it is chunked from.
pub proof fn lemma_chunk_hash_content_addressed(
    f1: Seq<char>,
    f2: Seq<char>,
    bytes: Seq<u8>,
    lang: Language,
    r: RegionView,
)
    ensures
        chunk_of_region(f1, bytes, lang, r).hash == chunk_of_region(f2, bytes, lang, r).hash,
        chunk_of_region(f1, bytes, lang, r).hash == blake3_digest(
            bytes.subrange(r.byte_start as int, r.byte_end as int),
        ),
{
}

/// Whether every region lies within `n` bytes.
pub open spec fn regions_within(rs: Seq<RegionView>, n: nat) -> bool {
    forall|i: int| 0 <= i < rs.len() ==> #[trigger] rs[i].byte_start <= rs[i].byte_end <= n
}

/// The query family of a language (none for JSON).
pub open spec fn family_of(lang: Language) -> Option<Family> {
    match lang {
        Language::TypeScript | Language::Tsx | Language::JavaScript | Language::Jsx => Some(
            Family::Script,
        ),
        Language::Css => Some(Family::Css),
        Language::Html => Some(Family::Html),
        Language::Json => None,
    }
}

/// The views of a list of chunks.
pub open spec fn chunks_view(v: Seq<Chunk>) -> Seq<ChunkView> {
    v.map_values(|c: Chunk| c@)
}

/// The error message for a file of no supported language.
pub open spec fn no_grammar_msg(file: Seq<char>) -> Seq<char> {
    "no grammar for "@ + file
}

/// Splits source files into chunks.
pub struct Chunker;

impl Chunker {
    pub fn new() -> (r: Chunker)
        ensures
            r == Chunker,
    {
        Chunker
    }
}

impl Default for Chunker {
    fn default() -> (r: Chunker)
        ensures
            r == Chunker,
    {
        Chunker::new()
    }
}

impl Chunker {
    /// The chunks of `bytes`, the contents of `file`. The language comes from
    /// the file's extension; regions come from tree-sitter queries (a JSON file
    /// is one document). Each chunk's hash is the hash of its bytes alone, so
    /// equal content gives equal hashes whatever the file.
    pub fn chunk(&self, file: &str, bytes: &[u8]) -> (r: Result<Vec<Chunk>, CtxError>)
        ensures
            match spec_chunk(file@, bytes@) {
                Ok(cs) => r is Ok && chunks_view(r->Ok_0@) == cs,
                Err(m) => r is Err && r->Err_0 is Parse && r->Err_0->Parse_0@ == m,
            },
    {
        let lang = match detect(file) {
            Some(l) => l,
            None => {
                let mut m: Vec<char> = Vec::new();
                push_str(&mut m, "no grammar for ");
                push_str(&mut m, file);
                return Err(CtxError::Parse(string_of(&m)));
            },
        };
        let grammar = tree_sitter_language(lang);
        let mut parser = new_parser();
        match set_parser_language(&mut parser, &grammar) {
            Ok(()) => {},
            Err(e) => return Err(CtxError::Parse(e)),
        }
        let tree = match parse_source(&mut parser, bytes) {
            Some(t) => t,
            None => return Err(CtxError::Parse(String::from_str("parse returned None"))),
        };
        let regions = match lang {
            Language::Json => json_extract(bytes),
            _ => {
                let (family, text) = query_for(lang);
                let query = match compile_query(&grammar, text) {
                    Ok(q) => q,
                    Err(e) => return Err(CtxError::Parse(e)),
                };
                let ms = query_matches(&query, &tree, bytes);
                let names = capture_names(&query);
                let rs = regions_of_matches(family, &ms, &names, bytes);
                proof {
                    let msv = ms@.map_values(|m: Vec<Capture>| m@);
                    assert(regions_view(rs@) == spec_regions(
                        family,
                        msv,
                        names_view(names@),
                        bytes@,
                        msv.len() as int,
                    ));
                    lemma_regions_within(family, msv, names_view(names@), bytes@, msv.len() as int);
                }
                rs
            },
        };
        let ghost rsv = regions_view(regions@);
        assert(spec_lang_regions(lang, bytes@) == Ok::<Seq<RegionView>, Seq<char>>(rsv));
        assert(regions_within(rsv, bytes@.len())) by {
            if lang == Language::Json {
                assert(regions_within(spec_json_regions(bytes@), bytes@.len()));
            }
        }
        let mut out: Vec<Chunk> = Vec::new();
        let mut i: usize = 0;
        while i < regions.len()
            invariant
                0 <= i <= regions@.len(),
                rsv == regions_view(regions@),
                regions_within(rsv, bytes@.len()),
                lang == spec_detect(file@)->Some_0,
                spec_detect(file@) is Some,
                chunks_view(out@) == rsv.subrange(0, i as int).map_values(
                    |reg: RegionView| chunk_of_region(file@, bytes@, lang, reg),
                ),
            decreases regions@.len() - i,
        {
            let reg = &regions[i];
            assert(rsv[i as int] == reg@);
            assert(rsv[i as int].byte_start <= rsv[i as int].byte_end <= bytes@.len());
            let sub = vstd::slice::slice_subrange(bytes, reg.byte_start, reg.byte_end);
            let c = Chunk {
                hash: ContentHash::of(sub),
                file: String::from_str(file),
                lang,
                kind: reg.kind,
                name: crate::types::copy_opt_string(&reg.name),
                byte_range: ByteRange::new(reg.byte_start, reg.byte_end),
                line_range: LineRange::new(reg.line_start, reg.line_end),
                text: span_string(bytes, reg.byte_start, reg.byte_end),
            };
            let ghost before = chunks_view(out@);
            assert(c@ == chunk_of_region(file@, bytes@, lang, reg@));
            out.push(c);
            assert(chunks_view(out@) =~= before.push(c@));
            assert(rsv.subrange(0, i + 1) =~= rsv.subrange(0, i as int).push(reg@));
            i = i + 1;
            assert(chunks_view(out@) =~= rsv.subrange(0, i as int).map_values(
                |reg: RegionView| chunk_of_region(file@, bytes@, lang, reg),
            ));
        }
        assert(rsv.subrange(0, regions@.len() as int) =~= rsv);
        Ok(out)
    }
}

/// Every region found from matches lies within the source.
proof fn lemma_regions_within(
    family: Family,
    ms: Seq<Seq<Capture>>,
    names: Seq<Seq<char>>,
    src: Seq<u8>,
    n: int,
)
    ensures
        regions_within(spec_regions(family, ms, names, src, n), src.len()),
    decreases n,
{
    if n > 0 {
        lemma_regions_within(family, ms, names, src, n - 1);
    }
}

} // verus!
