//! The TypeScript server's answers as the symbol extractor reads them:
//! navigation trees to symbols, definition and reference locations to
//! symbols, which response answers a request, and where the server is
//! looked for.

use vstd::prelude::*;

use crate::error::CtxError;
use crate::paths::{join, spec_join};
use crate::text::{push_str, spec_trim, str_eq, string_of, trim};
use crate::types::{syms_view, ChunkKind, Symbol, SymbolView};

verus! {

/// The chunk kind of a navigation-tree item kind, if the library keeps it.
pub open spec fn spec_tsserver_kind(k: Seq<char>) -> Option<ChunkKind> {
    if k == "function"@ || k == "local function"@ {
        Some(ChunkKind::Function)
    } else if k == "method"@ {
        Some(ChunkKind::Method)
    } else if k == "class"@ {
        Some(ChunkKind::Class)
    } else if k == "interface"@ {
        Some(ChunkKind::Interface)
    } else if k == "type"@ || k == "type parameter"@ {
        Some(ChunkKind::Type)
    } else if k == "const"@ || k == "let"@ || k == "var"@ {
        Some(ChunkKind::Const)
    } else if k == "enum"@ {
        Some(ChunkKind::Enum)
    } else {
        None
    }
}

/// The navigation-tree kinds the library keeps, and the chunk kind of
/// each: functions (`function`, `local function`), methods, classes,
/// interfaces, types (`type`, `type parameter`), variables (`const`, `let`,
/// `var`, all `Const`) and enums; every other kind is dropped.
pub proof fn lemma_tsserver_kind_table(k: Seq<char>)
    ensures
        (k == "function"@ || k == "local function"@) ==> spec_tsserver_kind(k) == Some(
            ChunkKind::Function,
        ),
        k == "method"@ ==> spec_tsserver_kind(k) == Some(ChunkKind::Method),
        k == "class"@ ==> spec_tsserver_kind(k) == Some(ChunkKind::Class),
        k == "interface"@ ==> spec_tsserver_kind(k) == Some(ChunkKind::Interface),
        (k == "type"@ || k == "type parameter"@) ==> spec_tsserver_kind(k) == Some(ChunkKind::Type),
        (k == "const"@ || k == "let"@ || k == "var"@) ==> spec_tsserver_kind(k) == Some(
            ChunkKind::Const,
        ),
        k == "enum"@ ==> spec_tsserver_kind(k) == Some(ChunkKind::Enum),
        !(k == "function"@ || k == "local function"@ || k == "method"@ || k == "class"@ || k
            == "interface"@ || k == "type"@ || k == "type parameter"@ || k == "const"@ || k
            == "let"@ || k == "var"@ || k == "enum"@) ==> (spec_tsserver_kind(k) is None),
{
    reveal_strlit("function");
    reveal_strlit("local function");
    reveal_strlit("method");
    reveal_strlit("class");
    reveal_strlit("interface");
    reveal_strlit("type");
    reveal_strlit("type parameter");
    reveal_strlit("const");
    reveal_strlit("let");
    reveal_strlit("var");
    reveal_strlit("enum");
    assert("function"@.len() == 8);
    assert("local function"@.len() == 14);
    assert("method"@.len() == 6);
    assert("class"@.len() == 5);
    assert("interface"@.len() == 9);
    assert("type"@.len() == 4);
    assert("type parameter"@.len() == 14);
    assert("const"@.len() == 5);
    assert("let"@.len() == 3);
    assert("var"@.len() == 3);
    assert("enum"@.len() == 4);
    assert("class"@ != "function"@ && "class"@ != "method"@);
    assert("method"@ != "function"@ && "method"@ != "local function"@);
    assert("class"@ != "local function"@);
    assert("local function"@[0] != "type parameter"@[0]);
    assert("class"@[1] != "const"@[1]);
    assert("type"@[0] != "enum"@[0]);
    assert("let"@[0] != "var"@[0]);
}

/// A named item of a navigation tree (text neither empty nor `<global>`)
/// whose kind is kept yields, first, one symbol named by its text, of the
/// kind its item kind maps to, on its line, in its container; in particular
/// a `const`, `let` or `var` item yields a `Const` symbol.
pub proof fn lemma_nav_item_symbol(n: NavNode, file: Seq<char>, container: Option<Seq<char>>)
    requires
        n.text@.len() > 0,
        n.text@ != "<global>"@,
    ensures
        (n.kind@ == "const"@ || n.kind@ == "let"@ || n.kind@ == "var"@) ==> (nav_node(
            n,
            file,
            container,
        ).len() >= 1 && nav_node(n, file, container)[0] == (SymbolView {
            name: n.text@,
            kind: ChunkKind::Const,
            file,
            line: nav_line(n),
            container,
        })),
        (n.line matches Some(l) ==> (l <= u32::MAX ==> nav_line(n) == l)),
        (n.line is None ==> nav_line(n) == 0),
        (spec_tsserver_kind(n.kind@) matches Some(kind) ==> (nav_node(n, file, container).len()
            >= 1 && nav_node(n, file, container)[0] == (SymbolView {
            name: n.text@,
            kind,
            file,
            line: nav_line(n),
            container,
        }))),
{
    lemma_tsserver_kind_table(n.kind@);
    match spec_tsserver_kind(n.kind@) {
        Some(kind) => {
            let own = seq![SymbolView { name: n.text@, kind, file, line: nav_line(n), container }];
            match n.children {
                Some(cs) => {
                    let rest = nav_list(
                        cs@,
                        file,
                        if n.text@.len() == 0 {
                            container
                        } else {
                            Some(n.text@)
                        },
                        cs@.len() as int,
                    );
                    assert((own + rest)[0] == own[0]);
                },
                None => {},
            }
        },
        None => {},
    }
}

/// Maps a navigation-tree item kind to a chunk kind.
pub fn map_tsserver_kind(k: &str) -> (r: Option<ChunkKind>)
    ensures
        r == spec_tsserver_kind(k@),
{
    if str_eq(k, "function") || str_eq(k, "local function") {
        Some(ChunkKind::Function)
    } else if str_eq(k, "method") {
        Some(ChunkKind::Method)
    } else if str_eq(k, "class") {
        Some(ChunkKind::Class)
    } else if str_eq(k, "interface") {
        Some(ChunkKind::Interface)
    } else if str_eq(k, "type") || str_eq(k, "type parameter") {
        Some(ChunkKind::Type)
    } else if str_eq(k, "const") || str_eq(k, "let") || str_eq(k, "var") {
        Some(ChunkKind::Const)
    } else if str_eq(k, "enum") {
        Some(ChunkKind::Enum)
    } else {
        None
    }
}

/// `u32::try_from(x).unwrap_or(u32::MAX)` for a line number.
pub open spec fn clamp_line(x: u64) -> u32 {
    if x <= u32::MAX {
        x as u32
    } else {
        u32::MAX
    }
}

fn clamp_line_u64(x: u64) -> (r: u32)
    ensures
        r == clamp_line(x),
{
    if x <= 4294967295u64 {
        x as u32
    } else {
        4294967295u32
    }
}

/// An item of a navigation tree.
#[derive(Debug)]
pub struct NavNode {
    /// The item's text (empty when it has none).
    pub text: String,
    /// The item's kind (empty when it has none).
    pub kind: String,
    /// The start line of the item's first span, when there is one.
    pub line: Option<u64>,
    pub children: Option<Vec<NavNode>>,
}

/// The line of an item: its first span's start line, 0 when absent.
pub open spec fn nav_line(n: NavNode) -> u32 {
    clamp_line(
        match n.line {
            Some(l) => l,
            None => 0,
        },
    )
}

/// The symbols of an item and its descendants, in pre-order: the item when
/// its text is neither empty nor `<global>` and its kind is kept; then its
/// children, whose container is the item's text (the container passed down
/// when the text is empty).
pub open spec fn nav_node(n: NavNode, file: Seq<char>, container: Option<Seq<char>>) -> Seq<
    SymbolView,
>
    decreases n,
{
    let own = if n.text@.len() > 0 && n.text@ != "<global>"@ {
        match spec_tsserver_kind(n.kind@) {
            Some(k) => seq![
                SymbolView { name: n.text@, kind: k, file, line: nav_line(n), container },
            ],
            None => Seq::empty(),
        }
    } else {
        Seq::empty()
    };
    match n.children {
        Some(cs) => own + nav_list(
            cs@,
            file,
            if n.text@.len() == 0 {
                container
            } else {
                Some(n.text@)
            },
            cs@.len() as int,
        ),
        None => own,
    }
}

/// The symbols of the first `i` items of `items`.
pub open spec fn nav_list(
    items: Seq<NavNode>,
    file: Seq<char>,
    container: Option<Seq<char>>,
    i: int,
) -> Seq<SymbolView>
    decreases items, i,
{
    if i <= 0 || i > items.len() {
        Seq::empty()
    } else {
        nav_list(items, file, container, i - 1) + nav_node(items[i - 1], file, container)
    }
}

/// The optional text as characters.
pub open spec fn opt_str(o: Option<&str>) -> Option<Seq<char>> {
    match o {
        Some(c) => Some(c@),
        None => None,
    }
}

/// Appends the symbols of a navigation-tree item and its descendants.
pub fn collect_navtree(node: &NavNode, file: &str, container: Option<&str>, out: &mut Vec<Symbol>)
    ensures
        syms_view(final(out)@) == syms_view(old(out)@) + nav_node(*node, file@, opt_str(container)),
    decreases *node,
{
    let ghost before = syms_view(out@);
    let ghost own = if node.text@.len() > 0 && node.text@ != "<global>"@ {
        match spec_tsserver_kind(node.kind@) {
            Some(k) => seq![
                SymbolView {
                    name: node.text@,
                    kind: k,
                    file: file@,
                    line: nav_line(*node),
                    container: opt_str(container),
                },
            ],
            None => Seq::<SymbolView>::empty(),
        }
    } else {
        Seq::<SymbolView>::empty()
    };
    let line = clamp_line_u64(
        match node.line {
            Some(l) => l,
            None => 0,
        },
    );
    let named = !node.text.as_str().is_empty() && !str_eq(node.text.as_str(), "<global>");
    if named {
        match map_tsserver_kind(node.kind.as_str()) {
            Some(k) => {
                out.push(
                    Symbol {
                        name: node.text.clone(),
                        kind: k,
                        file: String::from_str(file),
                        line,
                        container: match container {
                            Some(c) => Some(String::from_str(c)),
                            None => None,
                        },
                    },
                );
            },
            None => {},
        }
    }
    assert(syms_view(out@) =~= before + own);
    match &node.children {
        Some(cs) => {
            let inner: Option<&str> = if node.text.as_str().is_empty() {
                container
            } else {
                Some(node.text.as_str())
            };
            let ghost mid = syms_view(out@);
            let mut i: usize = 0;
            while i < cs.len()
                invariant
                    0 <= i <= cs@.len(),
                    node.children == Some(*cs),
                    syms_view(out@) == mid + nav_list(cs@, file@, opt_str(inner), i as int),
                decreases cs@.len() - i,
            {
                assert(decreases_to!(*node => node.children));
                assert(decreases_to!(node.children => node.children->Some_0));
                assert(decreases_to!(*cs => cs@));
                assert(decreases_to!(cs@ => cs@[i as int]));
                collect_navtree(&cs[i], file, inner, out);
                i = i + 1;
                assert(nav_list(cs@, file@, opt_str(inner), i as int) == nav_list(
                    cs@,
                    file@,
                    opt_str(inner),
                    i - 1,
                ) + nav_node(cs@[i - 1], file@, opt_str(inner)));
            }
            assert(opt_str(inner) == (if node.text@.len() == 0 {
                opt_str(container)
            } else {
                Some(node.text@)
            }));
        },
        None => {},
    }
}

/// The symbols of a navigation tree: those of its root item, with no
/// container.
pub fn navtree_symbols(root: &NavNode, file: &str) -> (r: Vec<Symbol>)
    ensures
        syms_view(r@) == nav_node(*root, file@, None),
{
    let mut out: Vec<Symbol> = Vec::new();
    collect_navtree(root, file, None, &mut out);
    assert(syms_view(out@) =~= nav_node(*root, file@, None));
    out
}

/// A location in a definition or references response.
#[derive(Clone, Debug)]
pub struct Location {
    /// The location's file, when it is a string.
    pub file: Option<String>,
    /// Whether the location has a start position.
    pub has_start: bool,
    /// The start position's line, when it is a number.
    pub start_line: Option<u64>,
}

/// The symbols of a list of locations: one unnamed function symbol per
/// location that has a file and a start (line 0 when the start has none).
pub open spec fn locations_spec(items: Seq<Location>) -> Seq<SymbolView>
    decreases items.len(),
{
    if items.len() == 0 {
        Seq::empty()
    } else {
        let it = items.last();
        locations_spec(items.drop_last()) + match it.file {
            Some(f) => if it.has_start {
                seq![
                    SymbolView {
                        name: Seq::empty(),
                        kind: ChunkKind::Function,
                        file: f@,
                        line: clamp_line(
                            match it.start_line {
                                Some(l) => l,
                                None => 0,
                            },
                        ),
                        container: None,
                    },
                ]
            } else {
                Seq::empty()
            },
            None => Seq::empty(),
        }
    }
}

/// The symbols of the locations of a definition or references response.
pub fn location_symbols(items: &Vec<Location>) -> (r: Vec<Symbol>)
    ensures
        syms_view(r@) == locations_spec(items@),
{
    let mut out: Vec<Symbol> = Vec::new();
    let mut i: usize = 0;
    while i < items.len()
        invariant
            0 <= i <= items@.len(),
            syms_view(out@) == locations_spec(items@.subrange(0, i as int)),
        decreases items@.len() - i,
    {
        let it = &items[i];
        assert(items@.subrange(0, i + 1).drop_last() =~= items@.subrange(0, i as int));
        assert(items@.subrange(0, i + 1).last() == *it);
        match &it.file {
            Some(f) => {
                if it.has_start {
                    let line = clamp_line_u64(
                        match it.start_line {
                            Some(l) => l,
                            None => 0,
                        },
                    );
                    out.push(
                        Symbol {
                            name: String::new(),
                            kind: ChunkKind::Function,
                            file: f.clone(),
                            line,
                            container: None,
                        },
                    );
                }
            },
            None => {},
        }
        assert(syms_view(out@) =~= locations_spec(items@.subrange(0, i + 1)));
        i = i + 1;
    }
    assert(items@.subrange(0, i as int) =~= items@);
    out
}

/// Whether a message answers the request numbered `seq`: it is a response
/// and its `request_seq` (-1 when absent) is `seq`.
pub fn answers_request(msg_type: &str, request_seq: Option<i64>, seq: i64) -> (r: bool)
    ensures
        r == (msg_type@ == "response"@ && match request_seq {
            Some(s) => s == seq,
            None => seq == -1,
        }),
{
    let rs: i64 = match request_seq {
        Some(s) => s,
        None => -1,
    };
    str_eq(msg_type, "response") && rs == seq
}

/// What the request loop makes of one read from the server's stdout: the
/// end of the stream is a `Symbol` error (`tsserver closed`), a line that is
/// blank once trimmed is passed over (`None`), any other line is handed on
/// trimmed to be parsed.
pub fn tsserver_line(line: Option<&str>) -> (r: Result<Option<String>, CtxError>)
    ensures
        match line {
            None => r is Err && r->Err_0 is Symbol && r->Err_0->Symbol_0@ == "tsserver closed"@,
            Some(l) => r is Ok && if spec_trim(l@).len() == 0 {
                r->Ok_0 is None
            } else {
                r->Ok_0 is Some && r->Ok_0->Some_0@ == spec_trim(l@)
            },
        },
{
    match line {
        None => {
            let mut m: Vec<char> = Vec::new();
            push_str(&mut m, "tsserver closed");
            Err(CtxError::Symbol(string_of(&m)))
        },
        Some(l) => {
            let t = trim(l);
            if t.as_str().is_empty() {
                Ok(None)
            } else {
                Ok(Some(t))
            }
        },
    }
}

/// Where the TypeScript server is looked for under a project root, in order.
pub open spec fn spec_tsserver_candidates(root: Seq<char>) -> Seq<Seq<char>> {
    seq![
        spec_join(root, "node_modules/typescript/bin/tsserver"@),
        spec_join(root, "node_modules/.bin/tsserver"@),
    ]
}

/// The paths where the TypeScript server is looked for.
pub fn tsserver_candidates(root: &str) -> (r: Vec<String>)
    ensures
        r@.map_values(|s: String| s@) == spec_tsserver_candidates(root@),
{
    let mut out: Vec<String> = Vec::new();
    out.push(join(root, "node_modules/typescript/bin/tsserver"));
    out.push(join(root, "node_modules/.bin/tsserver"));
    assert(out@.map_values(|s: String| s@) =~= spec_tsserver_candidates(root@));
    out
}

/// The error when no TypeScript server is found.
pub open spec fn not_found_msg(cands: Seq<Seq<char>>) -> Seq<char> {
    "tsserver not found (tried: "@ + cands[0] + ", "@ + cands[1]
        + ", set CTX_TSSERVER_PATH to override)"@
}

/// The error naming the places the server was looked for.
pub fn tsserver_not_found(cands: &Vec<String>) -> (r: CtxError)
    requires
        cands@.len() == 2,
    ensures
        r is Symbol,
        r->Symbol_0@ == not_found_msg(cands@.map_values(|s: String| s@)),
{
    let mut m: Vec<char> = Vec::new();
    push_str(&mut m, "tsserver not found (tried: ");
    push_str(&mut m, cands[0].as_str());
    push_str(&mut m, ", ");
    push_str(&mut m, cands[1].as_str());
    push_str(&mut m, ", set CTX_TSSERVER_PATH to override)");
    CtxError::Symbol(string_of(&m))
}

/// Whether a failure to start the server only means that it is absent (a
/// `Symbol` error starting with `tsserver not found`), in which case the
/// indexer goes on without TypeScript symbols.
pub open spec fn spec_is_absent(e: CtxError) -> bool {
    match e {
        CtxError::Symbol(m) => m@.len() >= 18 && m@.subrange(0, 18) == "tsserver not found"@,
        _ => false,
    }
}

/// Whether the error says that the server is absent.
pub fn is_absent(e: &CtxError) -> (r: bool)
    ensures
        r == spec_is_absent(*e),
{
    match e {
        CtxError::Symbol(m) => {
            let cs = crate::text::chars_of(m.as_str());
            let key = crate::text::chars_of("tsserver not found");
            proof {
                reveal_strlit("tsserver not found");
            }
            if cs.len() < 18 {
                return false;
            }
            let mut i: usize = 0;
            while i < 18
                invariant
                    0 <= i <= 18,
                    *e == CtxError::Symbol(*m),
                    cs@ == m@,
                    cs@.len() >= 18,
                    key@ == "tsserver not found"@,
                    key@.len() == 18,
                    forall|j: int| 0 <= j < i ==> cs@[j] == key@[j],
                decreases 18 - i,
            {
                if cs[i] != key[i] {
                    assert(cs@.subrange(0, 18)[i as int] != key@[i as int]);
                    assert(cs@.subrange(0, 18) != "tsserver not found"@);
                    assert(m@.subrange(0, 18) != "tsserver not found"@);
                    return false;
                }
                i = i + 1;
            }
            assert(cs@.subrange(0, 18) =~= key@);
            true
        },
        _ => false,
    }
}

/// Where the `tsgo` language server is looked for first under a project root.
pub fn tsgo_local_path(root: &str) -> (r: String)
    ensures
        r@ == spec_join(root@, "node_modules/.bin/tsgo"@),
{
    join(root, "node_modules/.bin/tsgo")
}

} // verus!
