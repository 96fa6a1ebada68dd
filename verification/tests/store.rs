use ctx::error::CtxError;
use ctx::hash::ContentHash;
use ctx::store::{
    check_query_dim, chunk_of_row, chunk_row, chunk_rows, delete_predicate, fetch_limit, find_chunk,
    kind_to_u8, lang_to_u8, select_hits, u8_to_kind, u8_to_lang, validate_schema_dim, Candidate,
    Filter, VectorColumn,
};
use ctx::types::{ByteRange, Chunk, ChunkKind, Language, LineRange};

fn store_msg(e: CtxError) -> String {
    match e {
        CtxError::Store(m) => m,
        other => panic!("expected a Store error, got {other:?}"),
    }
}

fn sample_chunk(h: u8, lang: Language) -> Chunk {
    Chunk {
        hash: ContentHash([h; 32]),
        file: format!("f{h}.ts"),
        lang,
        kind: ChunkKind::Function,
        name: Some(format!("fn{h}")),
        byte_range: ByteRange::new(10, 42),
        line_range: LineRange::new(1, 4),
        text: format!("function fn{h}() {{}}"),
    }
}

const LANGS: [Language; 7] = [
    Language::TypeScript,
    Language::Tsx,
    Language::JavaScript,
    Language::Jsx,
    Language::Css,
    Language::Html,
    Language::Json,
];

const KINDS: [ChunkKind; 10] = [
    ChunkKind::Function,
    ChunkKind::Method,
    ChunkKind::Class,
    ChunkKind::Interface,
    ChunkKind::Type,
    ChunkKind::Const,
    ChunkKind::Enum,
    ChunkKind::Selector,
    ChunkKind::Element,
    ChunkKind::Document,
];

#[test]
fn language_codes_are_stable_and_roundtrip() {
    for (i, l) in LANGS.iter().enumerate() {
        assert_eq!(lang_to_u8(*l) as usize, i);
        assert_eq!(u8_to_lang(lang_to_u8(*l)).unwrap(), *l);
    }
    assert_eq!(store_msg(u8_to_lang(7).unwrap_err()), "unknown Language byte 7");
    assert_eq!(store_msg(u8_to_lang(255).unwrap_err()), "unknown Language byte 255");
}

#[test]
fn kind_codes_are_stable_and_roundtrip() {
    for (i, k) in KINDS.iter().enumerate() {
        assert_eq!(kind_to_u8(*k) as usize, i);
        assert_eq!(u8_to_kind(kind_to_u8(*k)).unwrap(), *k);
    }
    assert_eq!(store_msg(u8_to_kind(10).unwrap_err()), "unknown ChunkKind byte 10");
}

#[test]
fn schema_dim_validation() {
    assert!(validate_schema_dim(&VectorColumn::FixedSizeList(768), 768).is_ok());
    assert_eq!(
        store_msg(validate_schema_dim(&VectorColumn::FixedSizeList(384), 768).unwrap_err()),
        "existing table vector dim 384 != requested dim 768"
    );
    assert_eq!(
        store_msg(validate_schema_dim(&VectorColumn::FixedSizeList(-3), 768).unwrap_err()),
        "stored vector dim -3 is invalid"
    );
    assert_eq!(
        store_msg(validate_schema_dim(&VectorColumn::Missing("no field".into()), 4).unwrap_err()),
        "existing table missing 'vector' column: no field"
    );
    assert_eq!(
        store_msg(validate_schema_dim(&VectorColumn::Other("Utf8".into()), 4).unwrap_err()),
        "existing 'vector' column has wrong type: Utf8"
    );
}

#[test]
fn query_dim_and_fetch_limit() {
    assert!(check_query_dim(768, 768).is_ok());
    assert_eq!(store_msg(check_query_dim(3, 768).unwrap_err()), "query dim 3 != store dim 768");
    assert_eq!(fetch_limit(0), 1);
    assert_eq!(fetch_limit(5), 20);
}

#[test]
fn row_roundtrip_gives_back_the_chunk() {
    let c = sample_chunk(9, Language::Tsx);
    let row = chunk_row(&c, Some(4), 4).unwrap();
    assert_eq!(row.lang, 1);
    assert_eq!(row.kind, 0);
    assert_eq!(row.byte_start, 10);
    assert_eq!(row.byte_end, 42);
    let back = chunk_of_row(&row, Some(4), 4).unwrap();
    assert_eq!(back, c);
}

#[test]
fn row_encoding_errors() {
    let c = sample_chunk(0xab, Language::Css);
    let hex = "ab".repeat(32);
    assert_eq!(store_msg(chunk_row(&c, None, 4).unwrap_err()), format!("chunk {hex} has no vector"));
    assert_eq!(
        store_msg(chunk_row(&c, Some(3), 4).unwrap_err()),
        format!("chunk {hex} vector len 3 != dim 4")
    );
    let good = sample_chunk(1, Language::Css);
    let err = chunk_rows(&vec![good, c], &vec![Some(4), None], 4).unwrap_err();
    assert_eq!(store_msg(err), format!("chunk {hex} has no vector"));
}

#[test]
fn row_decoding_errors() {
    let c = sample_chunk(2, Language::Html);
    let mut row = chunk_row(&c, Some(4), 4).unwrap();
    assert_eq!(store_msg(chunk_of_row(&row, None, 4).unwrap_err()), "vector inner array not Float32");
    assert_eq!(store_msg(chunk_of_row(&row, Some(3), 4).unwrap_err()), "stored vector len 3 != dim 4");
    row.lang = 9;
    assert_eq!(store_msg(chunk_of_row(&row, Some(4), 4).unwrap_err()), "unknown Language byte 9");
    row.lang = 0;
    row.kind = 11;
    assert_eq!(store_msg(chunk_of_row(&row, Some(4), 4).unwrap_err()), "unknown ChunkKind byte 11");
}

fn candidates(chunks: &[Chunk]) -> Vec<Candidate> {
    chunks
        .iter()
        .map(|c| Candidate { row: chunk_row(c, Some(4), 4).unwrap(), stored_len: Some(4) })
        .collect()
}

#[test]
fn search_honors_hash_and_language_allowlists() {
    let cs = vec![
        sample_chunk(1, Language::TypeScript),
        sample_chunk(2, Language::Css),
        sample_chunk(3, Language::TypeScript),
        sample_chunk(4, Language::TypeScript),
    ];
    let cands = candidates(&cs);

    let all = select_hits(&cands, &Filter::default(), 10, 4).unwrap();
    assert_eq!(all.iter().map(|h| h.0).collect::<Vec<_>>(), vec![0, 1, 2, 3]);

    let by_hash = Filter {
        hash_allowlist: Some(vec![ContentHash([3; 32]), ContentHash([2; 32])]),
        ..Filter::default()
    };
    let hits = select_hits(&cands, &by_hash, 10, 4).unwrap();
    assert_eq!(hits.iter().map(|h| h.0).collect::<Vec<_>>(), vec![1, 2]);
    assert_eq!(hits[1].1, cs[2]);

    let by_lang = Filter { lang_allowlist: Some(vec![Language::Css]), ..Filter::default() };
    let hits = select_hits(&cands, &by_lang, 10, 4).unwrap();
    assert_eq!(hits.iter().map(|h| h.0).collect::<Vec<_>>(), vec![1]);

    let first_two = select_hits(&cands, &Filter::default(), 2, 4).unwrap();
    assert_eq!(first_two.len(), 2);
    let zero = select_hits(&cands, &Filter::default(), 0, 4).unwrap();
    assert!(zero.is_empty());
}

#[test]
fn search_stops_at_an_undecodable_allowed_row() {
    let cs = vec![sample_chunk(1, Language::TypeScript), sample_chunk(2, Language::TypeScript)];
    let mut cands = candidates(&cs);
    cands[1].stored_len = Some(5);
    let err = select_hits(&cands, &Filter::default(), 10, 4).unwrap_err();
    assert_eq!(store_msg(err), "stored vector len 5 != dim 4");
    // The same row is passed over when the allowlist excludes it.
    let only_first = Filter { hash_allowlist: Some(vec![ContentHash([1; 32])]), ..Filter::default() };
    assert_eq!(select_hits(&cands, &only_first, 10, 4).unwrap().len(), 1);
}

#[test]
fn get_finds_the_first_row_with_the_hash() {
    let cs = vec![sample_chunk(1, Language::Json), sample_chunk(2, Language::Jsx)];
    let cands = candidates(&cs);
    assert_eq!(find_chunk(&cands, &ContentHash([2; 32]), 4).unwrap(), Some(cs[1].clone()));
    assert_eq!(find_chunk(&cands, &ContentHash([7; 32]), 4).unwrap(), None);
}

#[test]
fn delete_predicate_lists_hex_literals() {
    let p = delete_predicate(&vec![ContentHash([0; 32]), ContentHash([0xff; 32])]);
    assert_eq!(p, format!("hash IN (x'{}', x'{}')", "00".repeat(32), "ff".repeat(32)));
    assert_eq!(delete_predicate(&vec![]), "hash IN ()");
}

#[test]
fn search_hits_have_distinct_hashes_and_get_finds_each() {
    let cs = vec![
        sample_chunk(5, Language::TypeScript),
        sample_chunk(6, Language::Css),
        sample_chunk(7, Language::Json),
    ];
    let cands = candidates(&cs);
    let hits = select_hits(&cands, &Filter::default(), 3, 4).unwrap();
    assert_eq!(hits.len(), 3);
    for (i, h) in hits.iter().enumerate() {
        for other in &hits[i + 1..] {
            assert_ne!(h.1.hash, other.1.hash);
        }
        assert_eq!(find_chunk(&cands, &h.1.hash, 4).unwrap(), Some(h.1.clone()));
    }
}
