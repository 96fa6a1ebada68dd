//! Core value types: byte and line ranges, languages, chunk kinds, chunks,
//! symbols and chunk references.

use vstd::prelude::*;

use crate::hash::ContentHash;

verus! {

/// A half-open byte range `start..end` in a file.
#[derive(Clone, Copy, PartialEq, Eq, Hash, Debug, Structural)]
pub struct ByteRange {
    pub start: usize,
    pub end: usize,
}

impl ByteRange {
    pub fn new(start: usize, end: usize) -> (r: Self)
        ensures
            r.start == start,
            r.end == end,
    {
        ByteRange { start, end }
    }

    /// Number of bytes covered; 0 when `end < start`.
    pub fn len(&self) -> (r: usize)
        ensures
            r == (if self.end >= self.start { self.end - self.start } else { 0 }),
    {
        self.end.saturating_sub(self.start)
    }

    pub fn is_empty(&self) -> (r: bool)
        ensures
            r == (self.end <= self.start),
    {
        self.end <= self.start
    }

    pub fn as_range(&self) -> (r: std::ops::Range<usize>)
        ensures
            r.start == self.start,
            r.end == self.end,
    {
        self.start..self.end
    }
}

/// A half-open line range `start..end` (0-based lines).
#[derive(Clone, Copy, PartialEq, Eq, Hash, Debug, Structural)]
pub struct LineRange {
    pub start: u32,
    pub end: u32,
}

impl LineRange {
    pub fn new(start: u32, end: u32) -> (r: Self)
        ensures
            r.start == start,
            r.end == end,
    {
        LineRange { start, end }
    }

    /// Number of lines covered; 0 when `end < start`.
    pub fn len(&self) -> (r: u32)
        ensures
            r == (if self.end >= self.start { self.end - self.start } else { 0 }),
    {
        self.end.saturating_sub(self.start)
    }

    pub fn is_empty(&self) -> (r: bool)
        ensures
            r == (self.end <= self.start),
    {
        self.end <= self.start
    }
}

/// Source languages the indexer understands.
#[derive(Clone, Copy, PartialEq, Eq, Hash, Debug, Structural)]
pub enum Language {
    TypeScript,
    Tsx,
    JavaScript,
    Jsx,
    Css,
    Html,
    Json,
}

/// The syntactic kind of a chunk or symbol.
#[derive(Clone, Copy, PartialEq, Eq, Hash, Debug, Structural)]
pub enum ChunkKind {
    Function,
    Method,
    Class,
    Interface,
    Type,
    Const,
    Enum,
    Selector,
    Element,
    Document,
}

/// A region of a source file that is embedded and searched as one unit.
/// The embedding vector is attached by the storage layer, outside this type.
#[derive(Clone, Debug, PartialEq)]
pub struct Chunk {
    pub hash: ContentHash,
    pub file: String,
    pub lang: Language,
    pub kind: ChunkKind,
    pub name: Option<String>,
    pub byte_range: ByteRange,
    pub line_range: LineRange,
    pub text: String,
}

/// A named declaration found in a file (1-based `line`).
#[derive(Clone, Debug, PartialEq, Eq, Hash)]
pub struct Symbol {
    pub name: String,
    pub kind: ChunkKind,
    pub file: String,
    pub line: u32,
    pub container: Option<String>,
}

/// Binds a chunk hash to the file and lines where it occurs.
#[derive(Clone, Debug, PartialEq, Eq, Hash)]
pub struct ChunkRef {
    pub hash: ContentHash,
    pub file: String,
    pub line_range: LineRange,
}

/// What a chunk holds, with its texts as character sequences.
pub ghost struct ChunkView {
    pub hash: Seq<u8>,
    pub file: Seq<char>,
    pub lang: Language,
    pub kind: ChunkKind,
    pub name: Option<Seq<char>>,
    pub byte_range: ByteRange,
    pub line_range: LineRange,
    pub text: Seq<char>,
}

impl View for Chunk {
    type V = ChunkView;

    open spec fn view(&self) -> ChunkView {
        ChunkView {
            hash: self.hash.0@,
            file: self.file@,
            lang: self.lang,
            kind: self.kind,
            name: opt_view(self.name),
            byte_range: self.byte_range,
            line_range: self.line_range,
            text: self.text@,
        }
    }
}

/// What a symbol holds, with its texts as character sequences.
pub ghost struct SymbolView {
    pub name: Seq<char>,
    pub kind: ChunkKind,
    pub file: Seq<char>,
    pub line: u32,
    pub container: Option<Seq<char>>,
}

impl View for Symbol {
    type V = SymbolView;

    open spec fn view(&self) -> SymbolView {
        SymbolView {
            name: self.name@,
            kind: self.kind,
            file: self.file@,
            line: self.line,
            container: opt_view(self.container),
        }
    }
}

/// What a chunk reference holds.
pub ghost struct ChunkRefView {
    pub hash: Seq<u8>,
    pub file: Seq<char>,
    pub line_range: LineRange,
}

impl View for ChunkRef {
    type V = ChunkRefView;

    open spec fn view(&self) -> ChunkRefView {
        ChunkRefView { hash: self.hash.0@, file: self.file@, line_range: self.line_range }
    }
}

/// The views of a list of symbols.
pub open spec fn syms_view(v: Seq<Symbol>) -> Seq<SymbolView> {
    v.map_values(|s: Symbol| s@)
}

/// The characters of an optional string.
pub open spec fn opt_view(o: Option<String>) -> Option<Seq<char>> {
    match o {
        Some(s) => Some(s@),
        None => None,
    }
}

/// A copy of an optional string.
pub fn copy_opt_string(o: &Option<String>) -> (r: Option<String>)
    ensures
        r == *o,
{
    match o {
        Some(s) => Some(s.clone()),
        None => None,
    }
}

impl Symbol {
    /// A field-for-field copy.
    pub fn duplicate(&self) -> (r: Symbol)
        ensures
            r == *self,
    {
        Symbol {
            name: self.name.clone(),
            kind: self.kind,
            file: self.file.clone(),
            line: self.line,
            container: copy_opt_string(&self.container),
        }
    }
}

impl ChunkRef {
    /// A field-for-field copy.
    pub fn duplicate(&self) -> (r: ChunkRef)
        ensures
            r == *self,
    {
        ChunkRef { hash: self.hash, file: self.file.clone(), line_range: self.line_range }
    }
}

} // verus!
