//! The chunk table: the stable byte codes of languages and kinds, the row
//! layout a chunk is stored as, and the decisions of the chunk store
//! (vector dimensions, which rows a search returns, the delete predicate).

use vstd::prelude::*;

use crate::error::CtxError;
use crate::hash::{same_hash, spec_hex, ContentHash};
use crate::text::{decimal_chars, push_chars, push_str, spec_decimal, string_of};
use crate::scope::Scope;
use crate::types::{opt_view, ByteRange, Chunk, ChunkKind, ChunkView, Language, LineRange};

verus! {

/// The name of the table that holds the chunks.
pub const TABLE_NAME: &'static str = "chunks";

/// A `Store` error carrying the characters `m`.
fn store_error(m: &Vec<char>) -> (r: CtxError)
    ensures
        r is Store,
        r->Store_0@ == m@,
{
    CtxError::Store(string_of(m))
}

// ---------------------------------------------------------------------------
// Stable byte codes
// ---------------------------------------------------------------------------

/// The byte a language is stored as. These values are fixed: changing one
/// would invalidate every table already written.
pub open spec fn spec_lang_code(l: Language) -> u8 {
    match l {
        Language::TypeScript => 0,
        Language::Tsx => 1,
        Language::JavaScript => 2,
        Language::Jsx => 3,
        Language::Css => 4,
        Language::Html => 5,
        Language::Json => 6,
    }
}

/// The language stored as byte `x`, if any.
pub open spec fn spec_lang_of_code(x: u8) -> Option<Language> {
    if x == 0 {
        Some(Language::TypeScript)
    } else if x == 1 {
        Some(Language::Tsx)
    } else if x == 2 {
        Some(Language::JavaScript)
    } else if x == 3 {
        Some(Language::Jsx)
    } else if x == 4 {
        Some(Language::Css)
    } else if x == 5 {
        Some(Language::Html)
    } else if x == 6 {
        Some(Language::Json)
    } else {
        None
    }
}

/// The byte a chunk kind is stored as (fixed, like the language codes).
pub open spec fn spec_kind_code(k: ChunkKind) -> u8 {
    match k {
        ChunkKind::Function => 0,
        ChunkKind::Method => 1,
        ChunkKind::Class => 2,
        ChunkKind::Interface => 3,
        ChunkKind::Type => 4,
        ChunkKind::Const => 5,
        ChunkKind::Enum => 6,
        ChunkKind::Selector => 7,
        ChunkKind::Element => 8,
        ChunkKind::Document => 9,
    }
}

/// The chunk kind stored as byte `x`, if any.
pub open spec fn spec_kind_of_code(x: u8) -> Option<ChunkKind> {
    if x == 0 {
        Some(ChunkKind::Function)
    } else if x == 1 {
        Some(ChunkKind::Method)
    } else if x == 2 {
        Some(ChunkKind::Class)
    } else if x == 3 {
        Some(ChunkKind::Interface)
    } else if x == 4 {
        Some(ChunkKind::Type)
    } else if x == 5 {
        Some(ChunkKind::Const)
    } else if x == 6 {
        Some(ChunkKind::Enum)
    } else if x == 7 {
        Some(ChunkKind::Selector)
    } else if x == 8 {
        Some(ChunkKind::Element)
    } else if x == 9 {
        Some(ChunkKind::Document)
    } else {
        None
    }
}

/// The message for a byte that codes no language.
pub open spec fn unknown_lang_msg(x: u8) -> Seq<char> {
    "unknown Language byte "@ + spec_decimal(x as nat)
}

/// The message for a byte that codes no chunk kind.
pub open spec fn unknown_kind_msg(x: u8) -> Seq<char> {
    "unknown ChunkKind byte "@ + spec_decimal(x as nat)
}

/// The stored byte of a language.
pub fn lang_to_u8(l: Language) -> (r: u8)
    ensures
        r == spec_lang_code(l),
{
    match l {
        Language::TypeScript => 0,
        Language::Tsx => 1,
        Language::JavaScript => 2,
        Language::Jsx => 3,
        Language::Css => 4,
        Language::Html => 5,
        Language::Json => 6,
    }
}

/// The language of a stored byte; a `Store` error for an unknown byte.
pub fn u8_to_lang(x: u8) -> (r: Result<Language, CtxError>)
    ensures
        match spec_lang_of_code(x) {
            Some(l) => r is Ok && r->Ok_0 == l,
            None => r is Err && r->Err_0 is Store && r->Err_0->Store_0@ == unknown_lang_msg(x),
        },
{
    match x {
        0 => Ok(Language::TypeScript),
        1 => Ok(Language::Tsx),
        2 => Ok(Language::JavaScript),
        3 => Ok(Language::Jsx),
        4 => Ok(Language::Css),
        5 => Ok(Language::Html),
        6 => Ok(Language::Json),
        _ => {
            let mut m: Vec<char> = Vec::new();
            push_str(&mut m, "unknown Language byte ");
            let d = decimal_chars(x as u64);
            push_chars(&mut m, &d);
            Err(store_error(&m))
        },
    }
}

/// The stored byte of a chunk kind.
pub fn kind_to_u8(k: ChunkKind) -> (r: u8)
    ensures
        r == spec_kind_code(k),
{
    match k {
        ChunkKind::Function => 0,
        ChunkKind::Method => 1,
        ChunkKind::Class => 2,
        ChunkKind::Interface => 3,
        ChunkKind::Type => 4,
        ChunkKind::Const => 5,
        ChunkKind::Enum => 6,
        ChunkKind::Selector => 7,
        ChunkKind::Element => 8,
        ChunkKind::Document => 9,
    }
}

/// The chunk kind of a stored byte; a `Store` error for an unknown byte.
pub fn u8_to_kind(x: u8) -> (r: Result<ChunkKind, CtxError>)
    ensures
        match spec_kind_of_code(x) {
            Some(k) => r is Ok && r->Ok_0 == k,
            None => r is Err && r->Err_0 is Store && r->Err_0->Store_0@ == unknown_kind_msg(x),
        },
{
    match x {
        0 => Ok(ChunkKind::Function),
        1 => Ok(ChunkKind::Method),
        2 => Ok(ChunkKind::Class),
        3 => Ok(ChunkKind::Interface),
        4 => Ok(ChunkKind::Type),
        5 => Ok(ChunkKind::Const),
        6 => Ok(ChunkKind::Enum),
        7 => Ok(ChunkKind::Selector),
        8 => Ok(ChunkKind::Element),
        9 => Ok(ChunkKind::Document),
        _ => {
            let mut m: Vec<char> = Vec::new();
            push_str(&mut m, "unknown ChunkKind byte ");
            let d = decimal_chars(x as u64);
            push_chars(&mut m, &d);
            Err(store_error(&m))
        },
    }
}

/// Every language is read back from the byte it is stored as, and the
/// bytes in use are exactly `0..=6`.
pub proof fn lemma_lang_code_roundtrip(l: Language, x: u8)
    ensures
        spec_lang_of_code(spec_lang_code(l)) == Some(l),
        spec_lang_code(l) < 7,
        spec_lang_of_code(x) is Some <==> x < 7,
        spec_lang_of_code(x) matches Some(m) ==> spec_lang_code(m) == x,
{
}

/// Every chunk kind is read back from the byte it is stored as, and the
/// bytes in use are exactly `0..=9`.
pub proof fn lemma_kind_code_roundtrip(k: ChunkKind, x: u8)
    ensures
        spec_kind_of_code(spec_kind_code(k)) == Some(k),
        spec_kind_code(k) < 10,
        spec_kind_of_code(x) is Some <==> x < 10,
        spec_kind_of_code(x) matches Some(m) ==> spec_kind_code(m) == x,
{
}

// ---------------------------------------------------------------------------
// Decimal text of signed numbers
// ---------------------------------------------------------------------------

/// The text `{}` gives a signed integer.
pub open spec fn spec_signed_decimal(x: int) -> Seq<char> {
    if x < 0 {
        seq!['-'] + spec_decimal((-x) as nat)
    } else {
        spec_decimal(x as nat)
    }
}

fn signed_decimal_chars(x: i32) -> (r: Vec<char>)
    ensures
        r@ == spec_signed_decimal(x as int),
{
    if x < 0 {
        let mut out: Vec<char> = Vec::new();
        out.push('-');
        let mag: i64 = -(x as i64);
        let d = decimal_chars(mag as u64);
        push_chars(&mut out, &d);
        out
    } else {
        decimal_chars(x as u64)
    }
}

// ---------------------------------------------------------------------------
// Vector dimensions
// ---------------------------------------------------------------------------

/// What an existing table's schema says of its `vector` column.
#[derive(Clone, Debug)]
pub enum VectorColumn {
    /// There is no `vector` column; the text of the lookup error.
    Missing(String),
    /// A fixed-size list column with this declared length.
    FixedSizeList(i32),
    /// A column of another type; the debug text of that type.
    Other(String),
}

/// What validating an existing table against the wanted dimension gives.
pub open spec fn spec_validate_dim(col: VectorColumn, expected: usize) -> Result<(), Seq<char>> {
    match col {
        VectorColumn::Missing(e) => Err("existing table missing 'vector' column: "@ + e@),
        VectorColumn::FixedSizeList(len) => {
            if len < 0 {
                Err("stored vector dim "@ + spec_signed_decimal(len as int) + " is invalid"@)
            } else if len != expected {
                Err(
                    "existing table vector dim "@ + spec_decimal(len as nat) + " != requested dim "@
                        + spec_decimal(expected as nat),
                )
            } else {
                Ok(())
            }
        },
        VectorColumn::Other(d) => Err("existing 'vector' column has wrong type: "@ + d@),
    }
}

/// Checks that an existing table stores vectors of `expected_dim` floats.
pub fn validate_schema_dim(col: &VectorColumn, expected_dim: usize) -> (r: Result<(), CtxError>)
    ensures
        match spec_validate_dim(*col, expected_dim) {
            Ok(()) => r is Ok,
            Err(m) => r is Err && r->Err_0 is Store && r->Err_0->Store_0@ == m,
        },
{
    match col {
        VectorColumn::Missing(e) => {
            let mut m: Vec<char> = Vec::new();
            push_str(&mut m, "existing table missing 'vector' column: ");
            push_str(&mut m, e.as_str());
            Err(store_error(&m))
        },
        VectorColumn::FixedSizeList(len) => {
            let len = *len;
            if len < 0 {
                let mut m: Vec<char> = Vec::new();
                push_str(&mut m, "stored vector dim ");
                let d = signed_decimal_chars(len);
                push_chars(&mut m, &d);
                push_str(&mut m, " is invalid");
                return Err(store_error(&m));
            }
            let stored: u64 = len as u64;
            if stored != expected_dim as u64 {
                let mut m: Vec<char> = Vec::new();
                push_str(&mut m, "existing table vector dim ");
                let d = decimal_chars(stored);
                push_chars(&mut m, &d);
                push_str(&mut m, " != requested dim ");
                let e = decimal_chars(expected_dim as u64);
                push_chars(&mut m, &e);
                return Err(store_error(&m));
            }
            Ok(())
        },
        VectorColumn::Other(d) => {
            let mut m: Vec<char> = Vec::new();
            push_str(&mut m, "existing 'vector' column has wrong type: ");
            push_str(&mut m, d.as_str());
            Err(store_error(&m))
        },
    }
}

/// The message for a query vector of the wrong length.
pub open spec fn query_dim_msg(query_len: usize, dim: usize) -> Seq<char> {
    "query dim "@ + spec_decimal(query_len as nat) + " != store dim "@ + spec_decimal(dim as nat)
}

/// Checks that a query vector has the store's dimension.
pub fn check_query_dim(query_len: usize, dim: usize) -> (r: Result<(), CtxError>)
    ensures
        query_len == dim ==> r is Ok,
        query_len != dim ==> r is Err && r->Err_0 is Store && r->Err_0->Store_0@
            == query_dim_msg(query_len, dim),
{
    if query_len != dim {
        let mut m: Vec<char> = Vec::new();
        push_str(&mut m, "query dim ");
        let a = decimal_chars(query_len as u64);
        push_chars(&mut m, &a);
        push_str(&mut m, " != store dim ");
        let b = decimal_chars(dim as u64);
        push_chars(&mut m, &b);
        return Err(store_error(&m));
    }
    Ok(())
}

/// How many nearest rows a search asks for: four times `k`, at least one,
/// so that rows removed by the filters can be made up for.
pub fn fetch_limit(k: usize) -> (r: usize)
    requires
        4 * k <= usize::MAX,
    ensures
        r == (if 4 * k >= 1 { 4 * k } else { 1 }),
{
    let f = k * 4;
    if f >= 1 {
        f
    } else {
        1
    }
}

// ---------------------------------------------------------------------------
// The delete predicate
// ---------------------------------------------------------------------------

/// The SQL literal of a hash: `x'<hex>'`.
pub open spec fn hash_literal(h: Seq<u8>) -> Seq<char> {
    "x'"@ + spec_hex(h) + "'"@
}

/// The literals of `hs`, separated by `, `.
pub open spec fn literal_list(hs: Seq<Seq<u8>>) -> Seq<char>
    decreases hs.len(),
{
    if hs.len() == 0 {
        Seq::empty()
    } else if hs.len() == 1 {
        hash_literal(hs[0])
    } else {
        literal_list(hs.drop_last()) + ", "@ + hash_literal(hs.last())
    }
}

/// The bytes of each hash.
pub open spec fn hash_bytes(hs: Seq<ContentHash>) -> Seq<Seq<u8>> {
    hs.map_values(|h: ContentHash| h.0@)
}

/// The predicate that deletes the rows of the given hashes.
pub open spec fn spec_delete_predicate(hs: Seq<Seq<u8>>) -> Seq<char> {
    "hash IN ("@ + literal_list(hs) + ")"@
}

/// `hash IN (x'..', x'..')` for the given hashes.
pub fn delete_predicate(hashes: &Vec<ContentHash>) -> (r: String)
    ensures
        r@ == spec_delete_predicate(hash_bytes(hashes@)),
{
    let mut list: Vec<char> = Vec::new();
    let mut i: usize = 0;
    while i < hashes.len()
        invariant
            0 <= i <= hashes@.len(),
            list@ == literal_list(hash_bytes(hashes@.subrange(0, i as int))),
        decreases hashes@.len() - i,
    {
        let ghost before = hash_bytes(hashes@.subrange(0, i as int));
        if i > 0 {
            push_str(&mut list, ", ");
        }
        push_str(&mut list, "x'");
        let hex = hashes[i].to_hex();
        push_str(&mut list, hex.as_str());
        push_str(&mut list, "'");
        let ghost after = hash_bytes(hashes@.subrange(0, i + 1));
        assert(after.drop_last() =~= before);
        assert(after.last() == hashes@[i as int].0@);
        if i == 0 {
            assert(after =~= seq![hashes@[0].0@]);
        }
        i = i + 1;
    }
    assert(hashes@.subrange(0, hashes@.len() as int) =~= hashes@);
    let mut out: Vec<char> = Vec::new();
    push_str(&mut out, "hash IN (");
    push_chars(&mut out, &list);
    push_str(&mut out, ")");
    string_of(&out)
}


// ---------------------------------------------------------------------------
// Rows
// ---------------------------------------------------------------------------

/// A chunk as one row of the table stores it, the vector column apart.
#[derive(Clone, Debug)]
pub struct ChunkRow {
    pub hash: ContentHash,
    pub file: String,
    pub lang: u8,
    pub kind: u8,
    pub name: Option<String>,
    pub byte_start: u64,
    pub byte_end: u64,
    pub line_start: u32,
    pub line_end: u32,
    pub text: String,
}

/// What a row holds, with its texts as character sequences.
pub ghost struct RowView {
    pub hash: Seq<u8>,
    pub file: Seq<char>,
    pub lang: u8,
    pub kind: u8,
    pub name: Option<Seq<char>>,
    pub byte_start: u64,
    pub byte_end: u64,
    pub line_start: u32,
    pub line_end: u32,
    pub text: Seq<char>,
}

impl View for ChunkRow {
    type V = RowView;

    open spec fn view(&self) -> RowView {
        RowView {
            hash: self.hash.0@,
            file: self.file@,
            lang: self.lang,
            kind: self.kind,
            name: opt_view(self.name),
            byte_start: self.byte_start,
            byte_end: self.byte_end,
            line_start: self.line_start,
            line_end: self.line_end,
            text: self.text@,
        }
    }
}

/// The row a chunk is stored as.
pub open spec fn spec_row_of(c: ChunkView) -> RowView {
    RowView {
        hash: c.hash,
        file: c.file,
        lang: spec_lang_code(c.lang),
        kind: spec_kind_code(c.kind),
        name: c.name,
        byte_start: c.byte_range.start as u64,
        byte_end: c.byte_range.end as u64,
        line_start: c.line_range.start,
        line_end: c.line_range.end,
        text: c.text,
    }
}

/// The message for a chunk handed to the store without a vector.
pub open spec fn no_vector_msg(h: Seq<u8>) -> Seq<char> {
    "chunk "@ + spec_hex(h) + " has no vector"@
}

/// The message for a chunk whose vector has the wrong length.
pub open spec fn vector_len_msg(h: Seq<u8>, len: usize, dim: usize) -> Seq<char> {
    "chunk "@ + spec_hex(h) + " vector len "@ + spec_decimal(len as nat) + " != dim "@
        + spec_decimal(dim as nat)
}

/// Encoding a chunk whose vector has `vector_len` floats (`None`: no vector).
pub open spec fn spec_encode_row(c: ChunkView, vector_len: Option<usize>, dim: usize) -> Result<
    RowView,
    Seq<char>,
> {
    match vector_len {
        None => Err(no_vector_msg(c.hash)),
        Some(n) => if n != dim {
            Err(vector_len_msg(c.hash, n, dim))
        } else {
            Ok(spec_row_of(c))
        },
    }
}

/// Encoding a list of chunks: the rows in order, or the first chunk's error.
pub open spec fn spec_encode_rows(
    cs: Seq<ChunkView>,
    lens: Seq<Option<usize>>,
    dim: usize,
) -> Result<Seq<RowView>, Seq<char>>
    decreases cs.len(),
{
    if cs.len() == 0 || lens.len() != cs.len() {
        Ok(Seq::empty())
    } else {
        match spec_encode_rows(cs.drop_last(), lens.drop_last(), dim) {
            Err(m) => Err(m),
            Ok(rs) => match spec_encode_row(cs.last(), lens.last(), dim) {
                Err(m) => Err(m),
                Ok(r) => Ok(rs.push(r)),
            },
        }
    }
}

/// Encoding a list of chunks, exactly: when every chunk has a vector of the
/// store's dimension the rows are the chunks' rows in order; otherwise the
/// error is that of the first chunk without one.
pub proof fn lemma_encode_rows_exact(cs: Seq<ChunkView>, lens: Seq<Option<usize>>, dim: usize)
    requires
        cs.len() == lens.len(),
    ensures
        (forall|i: int| 0 <= i < lens.len() ==> #[trigger] lens[i] == Some(dim)) ==> spec_encode_rows(
            cs,
            lens,
            dim,
        ) == Ok::<Seq<RowView>, Seq<char>>(cs.map_values(|c: ChunkView| spec_row_of(c))),
        forall|i: int|
            0 <= i < lens.len() && #[trigger] lens[i] != Some(dim) && (forall|j: int|
                0 <= j < i ==> lens[j] == Some(dim)) ==> spec_encode_rows(cs, lens, dim)
                == Err::<Seq<RowView>, Seq<char>>(spec_encode_row(cs[i], lens[i], dim)->Err_0),
    decreases cs.len(),
{
    if cs.len() > 0 {
        let n = cs.len() - 1;
        let c0 = cs.drop_last();
        let l0 = lens.drop_last();
        lemma_encode_rows_exact(c0, l0, dim);
        if forall|i: int| 0 <= i < lens.len() ==> #[trigger] lens[i] == Some(dim) {
            assert forall|i: int| 0 <= i < l0.len() implies #[trigger] l0[i] == Some(dim) by {
                assert(l0[i] == lens[i]);
            }
            assert(cs.map_values(|c: ChunkView| spec_row_of(c)) =~= c0.map_values(
                |c: ChunkView| spec_row_of(c),
            ).push(spec_row_of(cs.last())));
            assert(lens[n] == Some(dim));
            assert(lens.last() == lens[n]);
        }
        assert forall|i: int|
            0 <= i < lens.len() && #[trigger] lens[i] != Some(dim) && (forall|j: int|
                0 <= j < i ==> lens[j] == Some(dim)) implies spec_encode_rows(cs, lens, dim)
            == Err::<Seq<RowView>, Seq<char>>(spec_encode_row(cs[i], lens[i], dim)->Err_0) by {
            if i < n {
                assert(l0[i] == lens[i]);
                assert(c0[i] == cs[i]);
                assert forall|j: int| 0 <= j < i implies l0[j] == Some(dim) by {
                    assert(l0[j] == lens[j]);
                }
            } else {
                assert forall|j: int| 0 <= j < l0.len() implies #[trigger] l0[j] == Some(dim) by {
                    assert(l0[j] == lens[j]);
                }
            }
        }
    } else {
        assert(cs.map_values(|c: ChunkView| spec_row_of(c)) =~= Seq::<RowView>::empty());
    }
}

/// The message when the stored vector column is not made of floats.
pub open spec fn not_float_msg() -> Seq<char> {
    "vector inner array not Float32"@
}

/// The message for a stored vector of the wrong length.
pub open spec fn stored_len_msg(len: usize, dim: usize) -> Seq<char> {
    "stored vector len "@ + spec_decimal(len as nat) + " != dim "@ + spec_decimal(dim as nat)
}

/// Decoding a row whose stored vector has `stored_len` floats (`None`: the
/// column does not hold floats).
pub open spec fn spec_decode_row(r: RowView, stored_len: Option<usize>, dim: usize) -> Result<
    ChunkView,
    Seq<char>,
> {
    match stored_len {
        None => Err(not_float_msg()),
        Some(n) => if n != dim {
            Err(stored_len_msg(n, dim))
        } else {
            match spec_lang_of_code(r.lang) {
                None => Err(unknown_lang_msg(r.lang)),
                Some(lang) => match spec_kind_of_code(r.kind) {
                    None => Err(unknown_kind_msg(r.kind)),
                    Some(kind) => if r.byte_start > usize::MAX {
                        Err("byte_start overflows usize"@)
                    } else if r.byte_end > usize::MAX {
                        Err("byte_end overflows usize"@)
                    } else {
                        Ok(
                            ChunkView {
                                hash: r.hash,
                                file: r.file,
                                lang,
                                kind,
                                name: r.name,
                                byte_range: ByteRange {
                                    start: r.byte_start as usize,
                                    end: r.byte_end as usize,
                                },
                                line_range: LineRange { start: r.line_start, end: r.line_end },
                                text: r.text,
                            },
                        )
                    },
                },
            }
        },
    }
}

/// A read gives back what a write stored: a chunk encoded with a vector of
/// the store's dimension decodes to the same chunk.
pub proof fn lemma_row_roundtrip(c: ChunkView, dim: usize)
    ensures
        spec_encode_row(c, Some(dim), dim) == Ok::<RowView, Seq<char>>(spec_row_of(c)),
        spec_decode_row(spec_row_of(c), Some(dim), dim) == Ok::<ChunkView, Seq<char>>(c),
{
    lemma_lang_code_roundtrip(c.lang, 0);
    lemma_kind_code_roundtrip(c.kind, 0);
    let r = spec_row_of(c);
    assert(r.byte_start as usize == c.byte_range.start);
    assert(r.byte_end as usize == c.byte_range.end);
    assert(ByteRange { start: r.byte_start as usize, end: r.byte_end as usize } == c.byte_range);
    assert(LineRange { start: r.line_start, end: r.line_end } == c.line_range);
}

/// Encodes one chunk whose vector has `vector_len` floats (`None`: none).
pub fn chunk_row(c: &Chunk, vector_len: Option<usize>, dim: usize) -> (r: Result<ChunkRow, CtxError>)
    ensures
        match spec_encode_row(c@, vector_len, dim) {
            Ok(row) => r is Ok && r->Ok_0@ == row,
            Err(m) => r is Err && r->Err_0 is Store && r->Err_0->Store_0@ == m,
        },
{
    match vector_len {
        None => {
            let mut m: Vec<char> = Vec::new();
            push_str(&mut m, "chunk ");
            let hex = c.hash.to_hex();
            push_str(&mut m, hex.as_str());
            push_str(&mut m, " has no vector");
            Err(store_error(&m))
        },
        Some(n) => {
            if n != dim {
                let mut m: Vec<char> = Vec::new();
                push_str(&mut m, "chunk ");
                let hex = c.hash.to_hex();
                push_str(&mut m, hex.as_str());
                push_str(&mut m, " vector len ");
                let a = decimal_chars(n as u64);
                push_chars(&mut m, &a);
                push_str(&mut m, " != dim ");
                let b = decimal_chars(dim as u64);
                push_chars(&mut m, &b);
                return Err(store_error(&m));
            }
            Ok(
                ChunkRow {
                    hash: c.hash,
                    file: c.file.clone(),
                    lang: lang_to_u8(c.lang),
                    kind: kind_to_u8(c.kind),
                    name: crate::types::copy_opt_string(&c.name),
                    byte_start: c.byte_range.start as u64,
                    byte_end: c.byte_range.end as u64,
                    line_start: c.line_range.start,
                    line_end: c.line_range.end,
                    text: c.text.clone(),
                },
            )
        },
    }
}

/// Encodes the chunks of one write, each with the length of its vector.
pub fn chunk_rows(chunks: &Vec<Chunk>, vector_lens: &Vec<Option<usize>>, dim: usize) -> (r: Result<
    Vec<ChunkRow>,
    CtxError,
>)
    requires
        chunks.len() == vector_lens.len(),
    ensures
        match spec_encode_rows(chunks@.map_values(|c: Chunk| c@), vector_lens@, dim) {
            Ok(rows) => r is Ok && r->Ok_0@.map_values(|x: ChunkRow| x@) == rows,
            Err(m) => r is Err && r->Err_0 is Store && r->Err_0->Store_0@ == m,
        },
{
    let ghost cv = chunks@.map_values(|c: Chunk| c@);
    let mut out: Vec<ChunkRow> = Vec::new();
    let mut i: usize = 0;
    assert(out@.map_values(|x: ChunkRow| x@) =~= Seq::<RowView>::empty());
    while i < chunks.len()
        invariant
            0 <= i <= chunks@.len(),
            chunks@.len() == vector_lens@.len(),
            cv == chunks@.map_values(|c: Chunk| c@),
            spec_encode_rows(cv.subrange(0, i as int), vector_lens@.subrange(0, i as int), dim)
                == Ok::<Seq<RowView>, Seq<char>>(out@.map_values(|x: ChunkRow| x@)),
        decreases chunks@.len() - i,
    {
        let ghost pc = cv.subrange(0, i + 1);
        let ghost pl = vector_lens@.subrange(0, i + 1);
        assert(pc.drop_last() =~= cv.subrange(0, i as int));
        assert(pl.drop_last() =~= vector_lens@.subrange(0, i as int));
        assert(pc.last() == chunks@[i as int]@);
        let row = chunk_row(&chunks[i], vector_lens[i], dim);
        match row {
            Err(e) => {
                proof {
                    lemma_encode_rows_err_extends(cv, vector_lens@, dim, i as int + 1);
                }
                return Err(e);
            },
            Ok(x) => {
                let ghost before = out@.map_values(|y: ChunkRow| y@);
                out.push(x);
                assert(out@.map_values(|y: ChunkRow| y@) =~= before.push(x@));
            },
        }
        i = i + 1;
    }
    assert(cv.subrange(0, i as int) =~= cv);
    assert(vector_lens@.subrange(0, i as int) =~= vector_lens@);
    Ok(out)
}

/// Once a prefix of the chunks fails to encode, so does the whole list,
/// with the same message.
proof fn lemma_encode_rows_err_extends(
    cs: Seq<ChunkView>,
    lens: Seq<Option<usize>>,
    dim: usize,
    j: int,
)
    requires
        0 < j <= cs.len(),
        cs.len() == lens.len(),
        spec_encode_rows(cs.subrange(0, j), lens.subrange(0, j), dim) is Err,
    ensures
        spec_encode_rows(cs, lens, dim) == spec_encode_rows(cs.subrange(0, j), lens.subrange(0, j), dim),
    decreases cs.len() - j,
{
    if j < cs.len() {
        let pc = cs.subrange(0, j + 1);
        let pl = lens.subrange(0, j + 1);
        assert(pc.drop_last() =~= cs.subrange(0, j));
        assert(pl.drop_last() =~= lens.subrange(0, j));
        lemma_encode_rows_err_extends(cs, lens, dim, j + 1);
    } else {
        assert(cs.subrange(0, j) =~= cs);
        assert(lens.subrange(0, j) =~= lens);
    }
}

/// Decodes one row whose stored vector has `stored_len` floats (`None`: the
/// vector column does not hold floats).
pub fn chunk_of_row(row: &ChunkRow, stored_len: Option<usize>, dim: usize) -> (r: Result<
    Chunk,
    CtxError,
>)
    ensures
        match spec_decode_row(row@, stored_len, dim) {
            Ok(c) => r is Ok && r->Ok_0@ == c,
            Err(m) => r is Err && r->Err_0 is Store && r->Err_0->Store_0@ == m,
        },
{
    let n = match stored_len {
        None => {
            let mut m: Vec<char> = Vec::new();
            push_str(&mut m, "vector inner array not Float32");
            return Err(store_error(&m));
        },
        Some(n) => n,
    };
    if n != dim {
        let mut m: Vec<char> = Vec::new();
        push_str(&mut m, "stored vector len ");
        let a = decimal_chars(n as u64);
        push_chars(&mut m, &a);
        push_str(&mut m, " != dim ");
        let b = decimal_chars(dim as u64);
        push_chars(&mut m, &b);
        return Err(store_error(&m));
    }
    let lang = match u8_to_lang(row.lang) {
        Ok(l) => l,
        Err(e) => return Err(e),
    };
    let kind = match u8_to_kind(row.kind) {
        Ok(k) => k,
        Err(e) => return Err(e),
    };
    if row.byte_start > usize::MAX as u64 {
        let mut m: Vec<char> = Vec::new();
        push_str(&mut m, "byte_start overflows usize");
        return Err(store_error(&m));
    }
    if row.byte_end > usize::MAX as u64 {
        let mut m: Vec<char> = Vec::new();
        push_str(&mut m, "byte_end overflows usize");
        return Err(store_error(&m));
    }
    Ok(
        Chunk {
            hash: row.hash,
            file: row.file.clone(),
            lang,
            kind,
            name: crate::types::copy_opt_string(&row.name),
            byte_range: ByteRange::new(row.byte_start as usize, row.byte_end as usize),
            line_range: LineRange::new(row.line_start, row.line_end),
            text: row.text.clone(),
        },
    )
}

// ---------------------------------------------------------------------------
// Search and lookup
// ---------------------------------------------------------------------------

/// What a search may return. The store honours the hash and language
/// allowlists; `scope` and `path_glob` are carried but not applied here:
/// scope isolation is the caller's to enforce through `hash_allowlist`.
#[derive(Clone, Debug)]
pub struct Filter {
    pub scope: Option<Scope>,
    pub hash_allowlist: Option<Vec<ContentHash>>,
    pub lang_allowlist: Option<Vec<Language>>,
    pub path_glob: Option<String>,
}

impl Default for Filter {
    fn default() -> (r: Filter)
        ensures
            r.scope is None,
            r.hash_allowlist is None,
            r.lang_allowlist is None,
            r.path_glob is None,
    {
        Filter { scope: None, hash_allowlist: None, lang_allowlist: None, path_glob: None }
    }
}

/// A row the table returned, with the length of its stored vector (`None`
/// when the vector column does not hold floats).
#[derive(Clone, Debug)]
pub struct Candidate {
    pub row: ChunkRow,
    pub stored_len: Option<usize>,
}

/// The row and vector length of each candidate.
pub open spec fn cands_view(cs: Seq<Candidate>) -> Seq<(RowView, Option<usize>)> {
    cs.map_values(|c: Candidate| (c.row@, c.stored_len))
}

/// The hashes an allowlist admits.
pub open spec fn allow_view(a: Option<Vec<ContentHash>>) -> Option<Seq<Seq<u8>>> {
    match a {
        Some(v) => Some(hash_bytes(v@)),
        None => None,
    }
}

/// The languages an allowlist admits.
pub open spec fn langs_view(a: Option<Vec<Language>>) -> Option<Seq<Language>> {
    match a {
        Some(v) => Some(v@),
        None => None,
    }
}

/// Whether a hash passes the hash allowlist (no list admits every hash).
pub open spec fn allows_hash(allow: Option<Seq<Seq<u8>>>, h: Seq<u8>) -> bool {
    match allow {
        Some(a) => a.contains(h),
        None => true,
    }
}

/// Whether a language passes the language allowlist.
pub open spec fn allows_lang(langs: Option<Seq<Language>>, l: Language) -> bool {
    match langs {
        Some(a) => a.contains(l),
        None => true,
    }
}

/// The hits of a search from candidate `i` on, `taken` already chosen: a
/// candidate whose hash is not allowed is passed over; one that is allowed
/// is decoded (a decoding error ends the search with that error) and kept
/// when its language is allowed; the search stops once `k` hits are kept
/// (at once when `k` is 0).
pub open spec fn select_from(
    cs: Seq<(RowView, Option<usize>)>,
    allow: Option<Seq<Seq<u8>>>,
    langs: Option<Seq<Language>>,
    k: usize,
    dim: usize,
    i: int,
    taken: Seq<(int, ChunkView)>,
) -> Result<Seq<(int, ChunkView)>, Seq<char>>
    decreases cs.len() - i,
{
    if i < 0 || i >= cs.len() || taken.len() >= k {
        Ok(taken)
    } else if !allows_hash(allow, cs[i].0.hash) {
        select_from(cs, allow, langs, k, dim, i + 1, taken)
    } else {
        match spec_decode_row(cs[i].0, cs[i].1, dim) {
            Err(m) => Err(m),
            Ok(c) => if !allows_lang(langs, c.lang) {
                select_from(cs, allow, langs, k, dim, i + 1, taken)
            } else {
                select_from(cs, allow, langs, k, dim, i + 1, taken.push((i, c)))
            },
        }
    }
}

/// The hits of a search over the candidates, nearest first: each is the
/// candidate's index and its decoded chunk.
pub open spec fn spec_select(
    cs: Seq<(RowView, Option<usize>)>,
    allow: Option<Seq<Seq<u8>>>,
    langs: Option<Seq<Language>>,
    k: usize,
    dim: usize,
) -> Result<Seq<(int, ChunkView)>, Seq<char>> {
    select_from(cs, allow, langs, k, dim, 0, Seq::empty())
}

/// Whether `h` is a hit the search may return: a candidate that passes both
/// allowlists, with its decoded chunk.
pub open spec fn good_hit(
    cs: Seq<(RowView, Option<usize>)>,
    allow: Option<Seq<Seq<u8>>>,
    langs: Option<Seq<Language>>,
    dim: usize,
    h: (int, ChunkView),
) -> bool {
    &&& 0 <= h.0 < cs.len()
    &&& allows_hash(allow, h.1.hash)
    &&& allows_lang(langs, h.1.lang)
    &&& spec_decode_row(cs[h.0].0, cs[h.0].1, dim) == Ok::<ChunkView, Seq<char>>(h.1)
}

/// Whether `hits` are good hits in increasing candidate order, all before `bound`.
pub open spec fn good_hits(
    cs: Seq<(RowView, Option<usize>)>,
    allow: Option<Seq<Seq<u8>>>,
    langs: Option<Seq<Language>>,
    dim: usize,
    hits: Seq<(int, ChunkView)>,
    bound: int,
) -> bool {
    &&& forall|j: int| 0 <= j < hits.len() ==> #[trigger] good_hit(cs, allow, langs, dim, hits[j])
    &&& forall|j: int| 0 <= j < hits.len() ==> #[trigger] hits[j].0 < bound
    &&& forall|a: int, b: int| 0 <= a < b < hits.len() ==> hits[a].0 < hits[b].0
}

proof fn lemma_select_from_good(
    cs: Seq<(RowView, Option<usize>)>,
    allow: Option<Seq<Seq<u8>>>,
    langs: Option<Seq<Language>>,
    k: usize,
    dim: usize,
    i: int,
    taken: Seq<(int, ChunkView)>,
)
    requires
        0 <= i <= cs.len(),
        good_hits(cs, allow, langs, dim, taken, i),
        taken.len() <= k,
    ensures
        select_from(cs, allow, langs, k, dim, i, taken) matches Ok(hits) ==> {
            &&& good_hits(cs, allow, langs, dim, hits, cs.len() as int)
            &&& hits.len() <= k
            &&& taken.len() <= hits.len() && hits.subrange(0, taken.len() as int) == taken
        },
    decreases cs.len() - i,
{
    if i >= cs.len() || taken.len() >= k {
        assert(taken.subrange(0, taken.len() as int) =~= taken);
        assert(good_hits(cs, allow, langs, dim, taken, cs.len() as int));
    } else if !allows_hash(allow, cs[i].0.hash) {
        lemma_select_from_good(cs, allow, langs, k, dim, i + 1, taken);
    } else {
        match spec_decode_row(cs[i].0, cs[i].1, dim) {
            Err(m) => {},
            Ok(c) => {
                if !allows_lang(langs, c.lang) {
                    lemma_select_from_good(cs, allow, langs, k, dim, i + 1, taken);
                } else {
                    let t2 = taken.push((i, c));
                    assert(c.hash == cs[i].0.hash);
                    assert(good_hit(cs, allow, langs, dim, (i, c)));
                    assert forall|j: int| 0 <= j < t2.len() implies #[trigger] good_hit(
                        cs,
                        allow,
                        langs,
                        dim,
                        t2[j],
                    ) by {
                        if j < taken.len() {
                            assert(t2[j] == taken[j]);
                        }
                    }
                    assert forall|j: int| 0 <= j < t2.len() implies #[trigger] t2[j].0 < i + 1 by {
                        if j < taken.len() {
                            assert(t2[j] == taken[j]);
                        }
                    }
                    assert forall|a: int, b: int| 0 <= a < b < t2.len() implies t2[a].0 < t2[b].0 by {
                        if b < taken.len() {
                            assert(t2[a] == taken[a]);
                            assert(t2[b] == taken[b]);
                        } else {
                            assert(t2[a] == taken[a]);
                            assert(taken[a].0 < i);
                        }
                    }
                    lemma_select_from_good(cs, allow, langs, k, dim, i + 1, t2);
                    match select_from(cs, allow, langs, k, dim, i + 1, t2) {
                        Ok(hits) => {
                            assert(hits.subrange(0, t2.len() as int) == t2);
                            assert(hits.subrange(0, taken.len() as int) =~= t2.subrange(
                                0,
                                taken.len() as int,
                            ));
                            assert(t2.subrange(0, taken.len() as int) =~= taken);
                        },
                        Err(_) => {},
                    }
                }
            },
        }
    }
}

/// A search returns only what its filter allows, which is how a search is
/// kept to a scope: every hit is a candidate whose hash is in the hash
/// allowlist and whose language is in the language allowlist, decoded from
/// its row; the hits come in candidate order, at most `k` of them.
pub proof fn lemma_select_respects_filter(
    cs: Seq<(RowView, Option<usize>)>,
    allow: Option<Seq<Seq<u8>>>,
    langs: Option<Seq<Language>>,
    k: usize,
    dim: usize,
)
    ensures
        spec_select(cs, allow, langs, k, dim) matches Ok(hits) ==> {
            &&& hits.len() <= k
            &&& forall|j: int|
                0 <= j < hits.len() ==> #[trigger] good_hit(cs, allow, langs, dim, hits[j])
            &&& forall|a: int, b: int| 0 <= a < b < hits.len() ==> hits[a].0 < hits[b].0
        },
{
    lemma_select_from_good(cs, allow, langs, k, dim, 0, Seq::empty());
}

/// A lookup by hash finds the candidate holding that hash when no earlier
/// candidate holds it.
proof fn lemma_find_first(cs: Seq<(RowView, Option<usize>)>, h: Seq<u8>, dim: usize, i: int, j: int)
    requires
        0 <= j <= i < cs.len(),
        cs[i].0.hash == h,
        forall|m: int| j <= m < i ==> (#[trigger] cs[m]).0.hash != h,
    ensures
        find_from(cs, h, dim, j) == match spec_decode_row(cs[i].0, cs[i].1, dim) {
            Ok(c) => Ok::<Option<ChunkView>, Seq<char>>(Some(c)),
            Err(m) => Err(m),
        },
    decreases i - j,
{
    if j < i {
        lemma_find_first(cs, h, dim, i, j + 1);
    }
}

/// Where the candidates' hashes are distinct, so are the hashes of a
/// search's hits, and looking each hit's hash up gives back its chunk.
pub proof fn lemma_search_hits_distinct_and_found(
    cs: Seq<(RowView, Option<usize>)>,
    allow: Option<Seq<Seq<u8>>>,
    langs: Option<Seq<Language>>,
    k: usize,
    dim: usize,
)
    requires
        forall|a: int, b: int|
            0 <= a < b < cs.len() ==> (#[trigger] cs[a]).0.hash != (#[trigger] cs[b]).0.hash,
    ensures
        spec_select(cs, allow, langs, k, dim) matches Ok(hits) ==> {
            &&& forall|a: int, b: int|
                0 <= a < b < hits.len() ==> (#[trigger] hits[a]).1.hash != (#[trigger] hits[b]).1.hash
            &&& forall|j: int|
                0 <= j < hits.len() ==> find_from(cs, (#[trigger] hits[j]).1.hash, dim, 0) == Ok::<
                    Option<ChunkView>,
                    Seq<char>,
                >(Some(hits[j].1))
        },
{
    lemma_select_respects_filter(cs, allow, langs, k, dim);
    match spec_select(cs, allow, langs, k, dim) {
        Ok(hits) => {
            assert forall|a: int, b: int|
                0 <= a < b < hits.len() implies (#[trigger] hits[a]).1.hash != (
                #[trigger] hits[b]).1.hash by {
                assert(good_hit(cs, allow, langs, dim, hits[a]));
                assert(good_hit(cs, allow, langs, dim, hits[b]));
                assert(cs[hits[a].0] == cs[hits[a].0]);
                assert(cs[hits[b].0] == cs[hits[b].0]);
            }
            assert forall|j: int| 0 <= j < hits.len() implies find_from(
                cs,
                (#[trigger] hits[j]).1.hash,
                dim,
                0,
            ) == Ok::<Option<ChunkView>, Seq<char>>(Some(hits[j].1)) by {
                assert(good_hit(cs, allow, langs, dim, hits[j]));
                let i = hits[j].0;
                assert(cs[i] == cs[i]);
                assert forall|m: int| 0 <= m < i implies (#[trigger] cs[m]).0.hash != hits[j].1.hash by {
                    assert(cs[i] == cs[i]);
                }
                lemma_find_first(cs, hits[j].1.hash, dim, i, 0);
            }
        },
        Err(_) => {},
    }
}

/// The index and chunk view of each hit.
pub open spec fn hits_view(h: Seq<(usize, Chunk)>) -> Seq<(int, ChunkView)> {
    h.map_values(|x: (usize, Chunk)| (x.0 as int, x.1@))
}

/// Whether `h` is in the list.
fn hash_listed(list: &Vec<ContentHash>, h: &ContentHash) -> (r: bool)
    ensures
        r == hash_bytes(list@).contains(h.0@),
{
    let mut i: usize = 0;
    while i < list.len()
        invariant
            0 <= i <= list@.len(),
            forall|j: int| 0 <= j < i ==> list@[j].0@ != h.0@,
        decreases list@.len() - i,
    {
        if same_hash(&list[i], h) {
            assert(hash_bytes(list@)[i as int] == h.0@);
            return true;
        }
        i = i + 1;
    }
    assert forall|j: int| 0 <= j < hash_bytes(list@).len() implies hash_bytes(list@)[j] != h.0@ by {
        assert(hash_bytes(list@)[j] == list@[j].0@);
    }
    false
}

/// Whether `l` is in the list.
fn lang_listed(list: &Vec<Language>, l: Language) -> (r: bool)
    ensures
        r == list@.contains(l),
{
    let mut i: usize = 0;
    while i < list.len()
        invariant
            0 <= i <= list@.len(),
            forall|j: int| 0 <= j < i ==> list@[j] != l,
        decreases list@.len() - i,
    {
        if list[i] == l {
            return true;
        }
        i = i + 1;
    }
    false
}

/// Chooses the hits of a search among the candidates the table returned,
/// nearest first, applying the filter's hash and language allowlists.
pub fn select_hits(cands: &Vec<Candidate>, filter: &Filter, k: usize, dim: usize) -> (r: Result<
    Vec<(usize, Chunk)>,
    CtxError,
>)
    ensures
        match spec_select(
            cands_view(cands@),
            allow_view(filter.hash_allowlist),
            langs_view(filter.lang_allowlist),
            k,
            dim,
        ) {
            Ok(hits) => r is Ok && hits_view(r->Ok_0@) == hits,
            Err(m) => r is Err && r->Err_0 is Store && r->Err_0->Store_0@ == m,
        },
{
    let ghost cv = cands_view(cands@);
    let ghost allow = allow_view(filter.hash_allowlist);
    let ghost langs = langs_view(filter.lang_allowlist);
    let mut out: Vec<(usize, Chunk)> = Vec::new();
    let mut i: usize = 0;
    assert(hits_view(out@) =~= Seq::<(int, ChunkView)>::empty());
    while i < cands.len() && out.len() < k
        invariant
            0 <= i <= cands@.len(),
            cv == cands_view(cands@),
            allow == allow_view(filter.hash_allowlist),
            langs == langs_view(filter.lang_allowlist),
            out@.len() <= k,
            spec_select(cv, allow, langs, k, dim) == select_from(
                cv,
                allow,
                langs,
                k,
                dim,
                i as int,
                hits_view(out@),
            ),
        decreases cands@.len() - i,
    {
        let cand = &cands[i];
        assert(cv[i as int] == (cand.row@, cand.stored_len));
        let admitted = match &filter.hash_allowlist {
            Some(list) => hash_listed(list, &cand.row.hash),
            None => true,
        };
        if admitted {
            let c = match chunk_of_row(&cand.row, cand.stored_len, dim) {
                Ok(c) => c,
                Err(e) => return Err(e),
            };
            let lang_ok = match &filter.lang_allowlist {
                Some(list) => lang_listed(list, c.lang),
                None => true,
            };
            if lang_ok {
                let ghost before = hits_view(out@);
                let ghost cview = c@;
                out.push((i, c));
                assert(hits_view(out@) =~= before.push((i as int, cview)));
            }
        }
        i = i + 1;
    }
    Ok(out)
}

/// The first candidate from `i` on whose hash is `h`, decoded.
pub open spec fn find_from(
    cs: Seq<(RowView, Option<usize>)>,
    h: Seq<u8>,
    dim: usize,
    i: int,
) -> Result<Option<ChunkView>, Seq<char>>
    decreases cs.len() - i,
{
    if i < 0 || i >= cs.len() {
        Ok(None)
    } else if cs[i].0.hash == h {
        match spec_decode_row(cs[i].0, cs[i].1, dim) {
            Ok(c) => Ok(Some(c)),
            Err(m) => Err(m),
        }
    } else {
        find_from(cs, h, dim, i + 1)
    }
}

/// Looks a chunk up by hash among the rows of the table: the first row with
/// that hash, decoded; `None` when no row has it.
pub fn find_chunk(cands: &Vec<Candidate>, hash: &ContentHash, dim: usize) -> (r: Result<
    Option<Chunk>,
    CtxError,
>)
    ensures
        match find_from(cands_view(cands@), hash.0@, dim, 0) {
            Ok(None) => r is Ok && r->Ok_0 is None,
            Ok(Some(c)) => r is Ok && r->Ok_0 is Some && r->Ok_0->Some_0@ == c,
            Err(m) => r is Err && r->Err_0 is Store && r->Err_0->Store_0@ == m,
        },
{
    let ghost cv = cands_view(cands@);
    let mut i: usize = 0;
    while i < cands.len()
        invariant
            0 <= i <= cands@.len(),
            cv == cands_view(cands@),
            find_from(cv, hash.0@, dim, 0) == find_from(cv, hash.0@, dim, i as int),
        decreases cands@.len() - i,
    {
        let cand = &cands[i];
        assert(cv[i as int] == (cand.row@, cand.stored_len));
        if same_hash(&cand.row.hash, hash) {
            return match chunk_of_row(&cand.row, cand.stored_len, dim) {
                Ok(c) => Ok(Some(c)),
                Err(e) => Err(e),
            };
        }
        i = i + 1;
    }
    Ok(None)
}

} // verus!
