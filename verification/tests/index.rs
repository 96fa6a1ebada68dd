use ctx::chunker::Chunker;
use ctx::error::CtxError;
use ctx::hash::ContentHash;
use ctx::index::{
    chunk_refs, incremental_admits, walk_admits, FileIndexer, FileReport, IndexAction, IndexEvent,
    IndexReport, IndexStage,
};
use ctx::types::{ChunkKind, Symbol};

const TS: &str = "function a() {}\nfunction b() {}\n";

fn sym(name: &str) -> Symbol {
    Symbol { name: name.into(), kind: ChunkKind::Function, file: "x.ts".into(), line: 1, container: None }
}

#[test]
fn unchanged_file_is_skipped() {
    let (mut ix, a) = FileIndexer::start("src/x.ts".into(), TS.as_bytes(), false);
    assert!(matches!(a, IndexAction::LookUpFileHash));
    let same = ContentHash::of(TS.as_bytes());
    match ix.step(IndexEvent::FileHash(Ok(Some(same)))) {
        IndexAction::Finish(r) => {
            assert!(r.skipped);
            assert_eq!(r.chunks_embedded, 0);
        }
        _ => panic!("expected the file to be skipped"),
    }
    assert_eq!(ix.stage, IndexStage::Done);
}

#[test]
fn changed_file_goes_through_every_step() {
    let file = "src/x.ts";
    let (mut ix, _) = FileIndexer::start(file.into(), TS.as_bytes(), false);
    assert!(!ix.navtree);
    // A failed lookup counts as a change.
    let a = ix.step(IndexEvent::FileHash(Err(CtxError::Store("db".into()))));
    assert!(matches!(a, IndexAction::ClearFileState));
    assert!(matches!(ix.step(IndexEvent::Cleared(Ok(()))), IndexAction::ChunkFile));
    let chunks = Chunker::new().chunk(file, TS.as_bytes()).unwrap();
    assert_eq!(chunks.len(), 2);
    let h0 = chunks[0].hash;
    let h1 = chunks[1].hash;
    match ix.step(IndexEvent::Chunked(Ok(chunks.clone()))) {
        IndexAction::CheckStored(h) => assert_eq!(h, h0),
        _ => panic!("expected a storage check"),
    }
    match ix.step(IndexEvent::Stored(Ok(true))) {
        IndexAction::CheckStored(h) => assert_eq!(h, h1),
        _ => panic!("expected a storage check"),
    }
    match ix.step(IndexEvent::Stored(Ok(false))) {
        IndexAction::Embed(v) => assert_eq!(v, vec![1]),
        _ => panic!("expected an embedding"),
    }
    match ix.step(IndexEvent::Embedded(Ok(1))) {
        IndexAction::Upsert(v) => assert_eq!(v, vec![1]),
        _ => panic!("expected an upsert"),
    }
    match ix.step(IndexEvent::Upserted(Ok(()))) {
        IndexAction::Bind(refs) => {
            assert_eq!(refs, chunk_refs(&chunks, file));
            assert_eq!(refs.len(), 2);
            assert_eq!(refs[1].hash, h1);
            assert_eq!(refs[1].file, file);
        }
        _ => panic!("expected a bind"),
    }
    assert!(matches!(ix.step(IndexEvent::Bound(Ok(()))), IndexAction::ExtractSymbols));
    match ix.step(IndexEvent::Extracted(Ok(vec![sym("a")]))) {
        IndexAction::UpsertSymbols(s) => assert_eq!(s, vec![sym("a")]),
        _ => panic!("expected a symbol upsert"),
    }
    match ix.step(IndexEvent::SymbolsUpserted(Ok(()))) {
        IndexAction::RecordFileHash(h) => assert_eq!(h, ContentHash::of(TS.as_bytes())),
        _ => panic!("expected the hash to be recorded"),
    }
    match ix.step(IndexEvent::Recorded(Ok(()))) {
        IndexAction::Finish(r) => {
            assert!(!r.skipped);
            assert_eq!(r.chunks_embedded, 1);
            assert_eq!(r.chunks_upserted, 1);
            assert_eq!(r.symbols_upserted, 1);
        }
        _ => panic!("expected the file to finish"),
    }
}

#[test]
fn embedder_returning_wrong_count_fails_the_file() {
    let (mut ix, _) = FileIndexer::start("a.ts".into(), TS.as_bytes(), false);
    ix.step(IndexEvent::FileHash(Ok(None)));
    ix.step(IndexEvent::Cleared(Ok(())));
    let chunks = Chunker::new().chunk("a.ts", TS.as_bytes()).unwrap();
    ix.step(IndexEvent::Chunked(Ok(chunks)));
    ix.step(IndexEvent::Stored(Ok(false)));
    assert!(matches!(ix.step(IndexEvent::Stored(Ok(false))), IndexAction::Embed(_)));
    match ix.step(IndexEvent::Embedded(Ok(1))) {
        IndexAction::Fail(CtxError::Embed(m)) => assert_eq!(m, "embedder returned 1 vectors for 2 texts"),
        _ => panic!("expected an embedding error"),
    }
}

#[test]
fn file_without_chunks_only_records_its_hash() {
    let (mut ix, _) = FileIndexer::start("empty.ts".into(), b"", false);
    ix.step(IndexEvent::FileHash(Ok(None)));
    ix.step(IndexEvent::Cleared(Ok(())));
    assert!(matches!(ix.step(IndexEvent::Chunked(Ok(vec![]))), IndexAction::RecordFileHash(_)));
    match ix.step(IndexEvent::Recorded(Ok(()))) {
        IndexAction::Finish(r) => {
            assert!(!r.skipped);
            assert_eq!(r.chunks_upserted, 0);
        }
        _ => panic!("expected the file to finish"),
    }
}

#[test]
fn clear_failure_fails_the_file() {
    let (mut ix, _) = FileIndexer::start("a.ts".into(), TS.as_bytes(), false);
    ix.step(IndexEvent::FileHash(Ok(Some(ContentHash([0; 32])))));
    match ix.step(IndexEvent::Cleared(Err(CtxError::Store("locked".into())))) {
        IndexAction::Fail(CtxError::Store(m)) => assert_eq!(m, "locked"),
        _ => panic!("expected the clear error"),
    }
}

#[test]
fn navtree_symbols_are_added_and_its_failure_is_tolerated() {
    let (mut ix, _) = FileIndexer::start("a.tsx".into(), TS.as_bytes(), true);
    assert!(ix.navtree);
    ix.step(IndexEvent::FileHash(Ok(None)));
    ix.step(IndexEvent::Cleared(Ok(())));
    let chunks = Chunker::new().chunk("a.tsx", TS.as_bytes()).unwrap();
    ix.step(IndexEvent::Chunked(Ok(chunks)));
    ix.step(IndexEvent::Stored(Ok(true)));
    assert!(matches!(ix.step(IndexEvent::Stored(Ok(true))), IndexAction::Bind(_)));
    ix.step(IndexEvent::Bound(Ok(())));
    assert!(matches!(ix.step(IndexEvent::Extracted(Ok(vec![sym("a")]))), IndexAction::NavTree));
    match ix.step(IndexEvent::NavTreeSymbols(Ok(vec![sym("b")]))) {
        IndexAction::UpsertSymbols(s) => assert_eq!(s, vec![sym("a"), sym("b")]),
        _ => panic!("expected a symbol upsert"),
    }

    let (mut ix2, _) = FileIndexer::start("b.ts".into(), TS.as_bytes(), true);
    ix2.step(IndexEvent::FileHash(Ok(None)));
    ix2.step(IndexEvent::Cleared(Ok(())));
    ix2.step(IndexEvent::Chunked(Ok(vec![])));
    // A CSS file never asks the TypeScript server.
    let (css, _) = FileIndexer::start("b.css".into(), b"", true);
    assert!(!css.navtree);
    let (mut ix3, _) = FileIndexer::start("c.js".into(), TS.as_bytes(), true);
    ix3.stage = IndexStage::NavTree;
    match ix3.step(IndexEvent::NavTreeSymbols(Err(CtxError::Symbol("tsserver timeout".into())))) {
        IndexAction::RecordFileHash(_) => {}
        _ => panic!("a failing language server must not fail the file"),
    }
    assert!(ix3.expects_event(&IndexEvent::Recorded(Ok(()))));
    assert!(!ix3.expects_event(&IndexEvent::Bound(Ok(()))));
}

#[test]
fn report_counts_outcomes() {
    let mut r = IndexReport::default();
    r.record(&Ok(FileReport { skipped: true, ..FileReport::default() }));
    r.record(&Ok(FileReport { skipped: false, chunks_upserted: 3, chunks_embedded: 2, symbols_upserted: 5 }));
    r.record(&Err(CtxError::Parse("bad".into())));
    assert_eq!(r.files_skipped, 1);
    assert_eq!(r.files_indexed, 1);
    assert_eq!(r.chunks_upserted, 3);
    assert_eq!(r.chunks_embedded, 2);
    assert_eq!(r.symbols_upserted, 5);
    assert_eq!(r.errors, 1);
}

#[test]
fn which_files_a_run_indexes() {
    assert!(!walk_admits("node_modules"));
    assert!(walk_admits("src"));
    assert!(incremental_admits("/repo/src/a.ts", "/repo"));
    assert!(!incremental_admits("/repo/README.md", "/repo"));
    assert!(!incremental_admits("/other/a.ts", "/repo"));
    assert!(!incremental_admits("/repository/a.ts", "/repo"));
}
