use ctx::error::CtxError;
use ctx::hash::ContentHash;
use ctx::refs::{group_by_name, merge_symbols, plan_clear, query_name, SymbolQuery};
use ctx::scope::{scope_key, RepoId, Scope, WorktreeId};
use ctx::types::{ChunkKind, ChunkRef, LineRange, Symbol};

fn sym(name: &str, file: &str, line: u32) -> Symbol {
    Symbol { name: name.into(), kind: ChunkKind::Function, file: file.into(), line, container: None }
}

#[test]
fn by_file_queries_are_refused() {
    match query_name(SymbolQuery::ByFile { file: "a.ts".into() }) {
        Err(CtxError::Unimplemented(m)) => assert_eq!(m, "ByFile"),
        other => panic!("unexpected {other:?}"),
    }
    assert_eq!(query_name(SymbolQuery::Definition { name: "greet".into() }).unwrap(), "greet");
    assert_eq!(query_name(SymbolQuery::Callers { name: "f".into() }).unwrap(), "f");
}

#[test]
fn scope_key_rejects_reserved_branch_literal_none() {
    let bad_scope = Scope::local("/tmp/repo-collision", "/tmp/repo-collision", Some("_none".into())).unwrap();
    let err = scope_key(&bad_scope).expect_err("reserved branch");
    assert!(matches!(err, CtxError::Store(_)), "expected CtxError::Store, got: {err:?}");
}

#[test]
fn scope_key_rejects_tenant_with_colon() {
    let bad_scope = Scope {
        tenant: "evil:tenant".into(),
        repo: RepoId(ContentHash::of(b"repo")),
        worktree: WorktreeId(ContentHash::of(b"wt")),
        branch: None,
    };
    let err = scope_key(&bad_scope).expect_err("reserved tenant");
    assert!(matches!(err, CtxError::Store(_)), "expected CtxError::Store, got: {err:?}");
}

#[test]
fn scope_keys_separate_repositories() {
    let a = Scope::local("/tmp/repo-a", "/tmp/repo-a", None).unwrap();
    let b = Scope::local("/tmp/repo-b", "/tmp/repo-b", None).unwrap();
    let ka = scope_key(&a).unwrap();
    let kb = scope_key(&b).unwrap();
    assert_ne!(ka, kb);
    assert!(ka.starts_with("local:"));
    assert!(ka.ends_with(":_none"));
}

#[test]
fn symbols_are_grouped_by_name_in_order() {
    let groups = group_by_name(vec![sym("a", "x.ts", 1), sym("b", "x.ts", 2), sym("a", "y.ts", 3)]);
    assert_eq!(groups.len(), 2);
    assert_eq!(groups[0].0, "a");
    assert_eq!(groups[0].1, vec![sym("a", "x.ts", 1), sym("a", "y.ts", 3)]);
    assert_eq!(groups[1].1, vec![sym("b", "x.ts", 2)]);
}

#[test]
fn upserted_symbols_follow_the_stored_ones() {
    let merged = merge_symbols(Some(vec![sym("a", "x.ts", 1)]), vec![sym("a", "x.ts", 1)]);
    assert_eq!(merged.len(), 2);
    assert_eq!(merge_symbols(None, vec![sym("a", "z.ts", 4)]), vec![sym("a", "z.ts", 4)]);
}

#[test]
fn clearing_a_file_removes_its_refs_and_symbols() {
    let r = |h: u8, f: &str| (ContentHash([h; 32]), ChunkRef { hash: ContentHash([h; 32]), file: f.into(), line_range: LineRange::new(0, 3) });
    let active = vec![r(1, "a.ts"), r(2, "b.ts"), r(3, "a.ts")];
    let rows = vec![
        ("greet".to_string(), vec![sym("greet", "a.ts", 1)]),
        ("util".to_string(), vec![sym("util", "a.ts", 2), sym("util", "b.ts", 9)]),
        ("other".to_string(), vec![sym("other", "b.ts", 5)]),
    ];
    let plan = plan_clear(&active, &rows, "a.ts");
    assert_eq!(plan.remove_hashes, vec![ContentHash([1; 32]), ContentHash([3; 32])]);
    assert_eq!(plan.delete_names, vec!["greet".to_string()]);
    assert_eq!(plan.updates.len(), 2);
    assert_eq!(plan.updates[0], ("util".to_string(), vec![sym("util", "b.ts", 9)]));
    assert_eq!(plan.updates[1], ("other".to_string(), vec![sym("other", "b.ts", 5)]));
}

#[test]
fn error_messages_name_their_layer() {
    assert_eq!(CtxError::Store("boom".into()).message(), "store: boom");
    assert_eq!(CtxError::Parse("p".into()).message(), "parse: p");
    assert_eq!(CtxError::Embed("e".into()).message(), "embed: e");
    assert_eq!(CtxError::Symbol("s".into()).message(), "symbol: s");
    assert_eq!(CtxError::Unimplemented("ByFile".into()).message(), "unimplemented: ByFile");
    let io = CtxError::Io(std::io::Error::new(std::io::ErrorKind::NotFound, "gone"));
    assert_eq!(io.message(), "io: gone");
    assert_eq!(CtxError::Other(anyhow::Error::msg("plain")).message(), "plain");
}

#[test]
fn upserting_appends_each_name_its_new_symbols() {
    let new = vec![sym("a", "x.ts", 7), sym("b", "x.ts", 8), sym("a", "x.ts", 7)];
    let groups = group_by_name(new);
    let a = groups.iter().find(|g| g.0 == "a").unwrap().1.clone();
    let merged = merge_symbols(Some(vec![sym("a", "y.ts", 1)]), a);
    assert_eq!(merged, vec![sym("a", "y.ts", 1), sym("a", "x.ts", 7), sym("a", "x.ts", 7)]);
    assert!(groups.iter().all(|g| g.0 != "c"));
}

#[test]
fn clearing_keeps_the_other_files_rows_in_order() {
    let r = |h: u8, f: &str| (ContentHash([h; 32]), ChunkRef { hash: ContentHash([h; 32]), file: f.into(), line_range: LineRange::new(0, 1) });
    let active = vec![r(1, "b.ts"), r(2, "a.ts"), r(3, "c.ts"), r(4, "a.ts")];
    let plan = plan_clear(&active, &vec![], "a.ts");
    let kept: Vec<_> = active.iter().filter(|row| !plan.remove_hashes.contains(&row.0)).map(|row| row.1.file.clone()).collect();
    assert_eq!(kept, vec!["b.ts".to_string(), "c.ts".to_string()]);
    assert!(plan.delete_names.is_empty() && plan.updates.is_empty());
}
