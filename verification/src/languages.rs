//! Language detection from file extensions, and the tree-sitter grammar of
//! each language.

use vstd::prelude::*;

use crate::paths::{extension, spec_extension};
use crate::text::chars_eq_str;
use crate::types::Language;

verus! {

/// ASCII lower-casing of one character (`char::to_ascii_lowercase`).
pub open spec fn lower_char(c: char) -> char {
    if 'A' <= c <= 'Z' {
        ((c as u32) + 32) as char
    } else {
        c
    }
}

/// ASCII lower-casing of a string (`str::to_ascii_lowercase`).
pub open spec fn ascii_lower(s: Seq<char>) -> Seq<char> {
    Seq::new(s.len(), |i: int| lower_char(s[i]))
}

/// The language of a (lower-case) file extension.
pub open spec fn lang_of_ext(e: Seq<char>) -> Option<Language> {
    if e == "ts"@ {
        Some(Language::TypeScript)
    } else if e == "tsx"@ {
        Some(Language::Tsx)
    } else if e == "js"@ || e == "mjs"@ || e == "cjs"@ {
        Some(Language::JavaScript)
    } else if e == "jsx"@ {
        Some(Language::Jsx)
    } else if e == "css"@ {
        Some(Language::Css)
    } else if e == "html"@ || e == "htm"@ {
        Some(Language::Html)
    } else if e == "json"@ {
        Some(Language::Json)
    } else {
        None
    }
}

/// The language of a path, decided by its extension (any letter case).
pub open spec fn spec_detect(p: Seq<char>) -> Option<Language> {
    match spec_extension(p) {
        None => None,
        Some(e) => lang_of_ext(ascii_lower(e)),
    }
}

/// ASCII lower-cases `s`.
pub fn to_ascii_lower(s: &Vec<char>) -> (r: Vec<char>)
    ensures
        r@ == ascii_lower(s@),
{
    let mut out: Vec<char> = Vec::new();
    let mut i: usize = 0;
    while i < s.len()
        invariant
            0 <= i <= s@.len(),
            out@ == ascii_lower(s@).subrange(0, i as int),
        decreases s@.len() - i,
    {
        let c = s[i];
        let l = if 'A' <= c && c <= 'Z' {
            ((c as u8) + 32) as char
        } else {
            c
        };
        out.push(l);
        i = i + 1;
        assert(out@ =~= ascii_lower(s@).subrange(0, i as int));
    }
    assert(ascii_lower(s@).subrange(0, s@.len() as int) =~= ascii_lower(s@));
    out
}

/// The language of the file at `path`, if the indexer supports it.
pub fn detect(path: &str) -> (r: Option<Language>)
    ensures
        r == spec_detect(path@),
{
    let ext = match extension(path) {
        None => return None,
        Some(e) => e,
    };
    let e = to_ascii_lower(&ext);
    if chars_eq_str(&e, "ts") {
        Some(Language::TypeScript)
    } else if chars_eq_str(&e, "tsx") {
        Some(Language::Tsx)
    } else if chars_eq_str(&e, "js") || chars_eq_str(&e, "mjs") || chars_eq_str(&e, "cjs") {
        Some(Language::JavaScript)
    } else if chars_eq_str(&e, "jsx") {
        Some(Language::Jsx)
    } else if chars_eq_str(&e, "css") {
        Some(Language::Css)
    } else if chars_eq_str(&e, "html") || chars_eq_str(&e, "htm") {
        Some(Language::Html)
    } else if chars_eq_str(&e, "json") {
        Some(Language::Json)
    } else {
        None
    }
}

} // verus!
