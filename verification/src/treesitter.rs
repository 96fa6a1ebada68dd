//! The tree-sitter calls the parsers make: grammars, parsing, and running a
//! query to plain capture records.
//!
//! Tree-sitter's values (grammars, parsers, trees, queries) are opaque. Each
//! is held together with what it was made from (the grammar, the parsed
//! source, the query text), and only the calls below make them, so what a
//! call returns can be named as a function of those plain values.

use tree_sitter::Language as TsGrammar;
use vstd::prelude::*;

verus! {

#[verifier::external_type_specification]
#[verifier::external_body]
pub struct ExTsParser(tree_sitter::Parser);

#[verifier::external_type_specification]
#[verifier::external_body]
pub struct ExTsTree(tree_sitter::Tree);

#[verifier::external_type_specification]
#[verifier::external_body]
pub struct ExTsQuery(tree_sitter::Query);

#[verifier::external_type_specification]
#[verifier::external_body]
pub struct ExTsLanguage(TsGrammar);

/// One captured node of a query match: the capture's index in the query's
/// capture names, the node's byte span and its first and last rows (0-based).
#[derive(Clone, Copy, Debug, PartialEq, Eq)]
pub struct Capture {
    pub index: u32,
    pub start_byte: usize,
    pub end_byte: usize,
    pub start_row: usize,
    pub end_row: usize,
}

/// The grammars the library parses with.
#[derive(Clone, Copy, PartialEq, Eq, Debug, Structural)]
pub enum Grammar {
    TypeScript,
    Tsx,
    JavaScript,
    Css,
    Html,
    Json,
}

/// A loaded grammar, with which grammar it is.
pub struct TsLanguage {
    lang: TsGrammar,
    id: Ghost<Grammar>,
}

impl TsLanguage {
    /// Which grammar this is.
    pub closed spec fn grammar(&self) -> Grammar {
        self.id@
    }
}

/// A parser, with the grammar it has been given (if any).
pub struct TsParser {
    parser: tree_sitter::Parser,
    lang: Ghost<Option<Grammar>>,
}

impl TsParser {
    /// The grammar the parser has been given.
    pub closed spec fn grammar(&self) -> Option<Grammar> {
        self.lang@
    }
}

/// A syntax tree, with its grammar and the source it was parsed from.
pub struct TsTree {
    tree: tree_sitter::Tree,
    lang: Ghost<Grammar>,
    src: Ghost<Seq<u8>>,
}

impl TsTree {
    /// The grammar the tree was parsed with.
    pub closed spec fn grammar(&self) -> Grammar {
        self.lang@
    }

    /// The source the tree was parsed from.
    pub closed spec fn source(&self) -> Seq<u8> {
        self.src@
    }
}

/// A compiled query, with its grammar and its text.
pub struct TsQuery {
    query: tree_sitter::Query,
    lang: Ghost<Grammar>,
    text: Ghost<Seq<char>>,
}

impl TsQuery {
    /// The grammar the query was compiled for.
    pub closed spec fn grammar(&self) -> Grammar {
        self.lang@
    }

    /// The query's text.
    pub closed spec fn text(&self) -> Seq<char> {
        self.text@
    }
}

/// What giving grammar `g` to a parser yields: success, or the text of the
/// error (the grammar's ABI version is outside what the library supports).
pub uninterp spec fn ts_set_language(g: Grammar) -> Result<(), Seq<char>>;

/// What compiling the query `text` for grammar `g` yields: success, or the
/// text of the error.
pub uninterp spec fn ts_compile(g: Grammar, text: Seq<char>) -> Result<(), Seq<char>>;

/// The capture names of the query `text` compiled for grammar `g`.
pub uninterp spec fn ts_capture_names(g: Grammar, text: Seq<char>) -> Seq<Seq<char>>;

/// The matches of the query `text` (compiled for `qg`) over the tree that
/// grammar `tg` gives `tree_src`, with `src` as the text of its nodes.
pub uninterp spec fn ts_matches(
    qg: Grammar,
    text: Seq<char>,
    tg: Grammar,
    tree_src: Seq<u8>,
    src: Seq<u8>,
) -> Seq<Seq<Capture>>;

/// `tree_sitter_typescript::LANGUAGE_TYPESCRIPT`, as a grammar.
#[verifier::external_body]
pub(crate) fn grammar_typescript() -> (r: TsLanguage)
    ensures
        r.grammar() == Grammar::TypeScript,
{
    TsLanguage { lang: tree_sitter_typescript::LANGUAGE_TYPESCRIPT.into(), id: Ghost(Grammar::TypeScript) }
}

/// `tree_sitter_typescript::LANGUAGE_TSX`, as a grammar (also used for JSX).
#[verifier::external_body]
pub(crate) fn grammar_tsx() -> (r: TsLanguage)
    ensures
        r.grammar() == Grammar::Tsx,
{
    TsLanguage { lang: tree_sitter_typescript::LANGUAGE_TSX.into(), id: Ghost(Grammar::Tsx) }
}

/// `tree_sitter_javascript::LANGUAGE`, as a grammar.
#[verifier::external_body]
pub(crate) fn grammar_javascript() -> (r: TsLanguage)
    ensures
        r.grammar() == Grammar::JavaScript,
{
    TsLanguage { lang: tree_sitter_javascript::LANGUAGE.into(), id: Ghost(Grammar::JavaScript) }
}

/// `tree_sitter_css::LANGUAGE`, as a grammar.
#[verifier::external_body]
pub(crate) fn grammar_css() -> (r: TsLanguage)
    ensures
        r.grammar() == Grammar::Css,
{
    TsLanguage { lang: tree_sitter_css::LANGUAGE.into(), id: Ghost(Grammar::Css) }
}

/// `tree_sitter_html::LANGUAGE`, as a grammar.
#[verifier::external_body]
pub(crate) fn grammar_html() -> (r: TsLanguage)
    ensures
        r.grammar() == Grammar::Html,
{
    TsLanguage { lang: tree_sitter_html::LANGUAGE.into(), id: Ghost(Grammar::Html) }
}

/// `tree_sitter_json::LANGUAGE`, as a grammar.
#[verifier::external_body]
pub(crate) fn grammar_json() -> (r: TsLanguage)
    ensures
        r.grammar() == Grammar::Json,
{
    TsLanguage { lang: tree_sitter_json::LANGUAGE.into(), id: Ghost(Grammar::Json) }
}

/// `tree_sitter::Parser::new`: a parser with no grammar.
#[verifier::external_body]
pub(crate) fn new_parser() -> (r: TsParser)
    ensures
        r.grammar() is None,
{
    TsParser { parser: tree_sitter::Parser::new(), lang: Ghost(None) }
}

/// `tree_sitter::Parser::set_language`, with its error as text. Whether it
/// succeeds, and the error's text, depend on the grammar alone (its ABI
/// version); on success the parser has the grammar, on failure it is left
/// as it was.
#[verifier::external_body]
pub(crate) fn set_parser_language(p: &mut TsParser, g: &TsLanguage) -> (r: Result<(), String>)
    ensures
        match ts_set_language(g.grammar()) {
            Ok(()) => r is Ok && final(p).grammar() == Some(g.grammar()),
            Err(m) => r is Err && r->Err_0@ == m && final(p).grammar() == old(p).grammar(),
        },
{
    match p.parser.set_language(&g.lang) {
        Ok(()) => {
            p.lang = Ghost(Some(g.id@));
            Ok(())
        },
        Err(e) => Err(e.to_string()),
    }
}

/// `tree_sitter::Parser::parse` of a whole source, with no earlier tree.
/// Its documentation gives `None` only when no grammar was set, or when a
/// timeout or a cancellation flag (which the library never sets) stops it:
/// with a grammar it gives the tree of `src`.
#[verifier::external_body]
pub(crate) fn parse_source(p: &mut TsParser, src: &[u8]) -> (r: Option<TsTree>)
    ensures
        final(p).grammar() == old(p).grammar(),
        old(p).grammar() matches Some(g) ==> r is Some && r->Some_0.grammar() == g
            && r->Some_0.source() == src@,
{
    let lang = p.lang;
    p.parser.parse(src, None).map(|tree| TsTree { tree, lang: Ghost(lang@.unwrap()), src: Ghost(src@) })
}

/// `tree_sitter::Query::new`, with its error as text. Whether it succeeds,
/// and the error's text, depend on the grammar and the query text alone.
#[verifier::external_body]
pub(crate) fn compile_query(g: &TsLanguage, text: &str) -> (r: Result<TsQuery, String>)
    ensures
        match ts_compile(g.grammar(), text@) {
            Ok(()) => r is Ok && r->Ok_0.grammar() == g.grammar() && r->Ok_0.text() == text@,
            Err(m) => r is Err && r->Err_0@ == m,
        },
{
    match tree_sitter::Query::new(&g.lang, text) {
        Ok(query) => Ok(TsQuery { query, lang: Ghost(g.id@), text: Ghost(text@) }),
        Err(e) => Err(e.to_string()),
    }
}

/// `tree_sitter::Query::capture_names`, as owned strings: a function of the
/// query's grammar and text.
#[verifier::external_body]
pub(crate) fn capture_names(q: &TsQuery) -> (r: Vec<String>)
    ensures
        r@.map_values(|s: String| s@) == ts_capture_names(q.grammar(), q.text()),
{
    q.query.capture_names().iter().map(|n| n.to_string()).collect()
}

/// `tree_sitter::QueryCursor::matches` over the whole tree, each match as
/// the list of its captures: a function of the query, the tree and `src`.
/// `src` must be the source the tree was parsed from: text predicates slice
/// it by the nodes' byte ranges, which panics on a shorter one.
#[verifier::external_body]
pub(crate) fn query_matches(q: &TsQuery, t: &TsTree, src: &[u8]) -> (r: Vec<Vec<Capture>>)
    requires
        src@ == t.source(),
    ensures
        r@.map_values(|m: Vec<Capture>| m@) == ts_matches(
            q.grammar(),
            q.text(),
            t.grammar(),
            t.source(),
            src@,
        ),
{
    let mut cursor = tree_sitter::QueryCursor::new();
    cursor.matches(&q.query, t.tree.root_node(), src).map(|m| {
        m.captures.iter().map(|c| Capture {
            index: c.index,
            start_byte: c.node.start_byte(),
            end_byte: c.node.end_byte(),
            start_row: c.node.start_position().row,
            end_row: c.node.end_position().row,
        }).collect()
    }).collect()
}

} // verus!
