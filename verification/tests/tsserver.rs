use ctx::error::CtxError;
use ctx::tsserver::{
    answers_request, is_absent, location_symbols, map_tsserver_kind, navtree_symbols,
    tsgo_local_path, tsserver_candidates, tsserver_line, tsserver_not_found, Location, NavNode,
};
use ctx::types::ChunkKind;

fn node(text: &str, kind: &str, line: Option<u64>, children: Option<Vec<NavNode>>) -> NavNode {
    NavNode { text: text.into(), kind: kind.into(), line, children }
}

#[test]
fn navtree_kinds() {
    assert_eq!(map_tsserver_kind("function"), Some(ChunkKind::Function));
    assert_eq!(map_tsserver_kind("local function"), Some(ChunkKind::Function));
    assert_eq!(map_tsserver_kind("method"), Some(ChunkKind::Method));
    assert_eq!(map_tsserver_kind("class"), Some(ChunkKind::Class));
    assert_eq!(map_tsserver_kind("interface"), Some(ChunkKind::Interface));
    assert_eq!(map_tsserver_kind("type parameter"), Some(ChunkKind::Type));
    assert_eq!(map_tsserver_kind("let"), Some(ChunkKind::Const));
    assert_eq!(map_tsserver_kind("enum"), Some(ChunkKind::Enum));
    assert_eq!(map_tsserver_kind("module"), None);
}

#[test]
fn navtree_yields_named_symbols_with_containers() {
    let tree = node(
        "<global>",
        "script",
        Some(1),
        Some(vec![
            node("hello", "function", Some(2), None),
            node("Box", "class", Some(4), Some(vec![node("open", "method", Some(5), None)])),
            node("", "const", Some(9), Some(vec![node("inner", "var", Some(1u64 << 40), None)])),
        ]),
    );
    let syms = navtree_symbols(&tree, "/p/a.ts");
    let got: Vec<_> = syms.iter().map(|s| (s.name.as_str(), s.kind, s.line, s.container.as_deref())).collect();
    assert_eq!(
        got,
        vec![
            ("hello", ChunkKind::Function, 2, Some("<global>")),
            ("Box", ChunkKind::Class, 4, Some("<global>")),
            ("open", ChunkKind::Method, 5, Some("Box")),
            ("inner", ChunkKind::Const, u32::MAX, Some("<global>")),
        ]
    );
}

#[test]
fn locations_become_unnamed_function_symbols() {
    let items = vec![
        Location { file: Some("/p/a.ts".into()), has_start: true, start_line: Some(7) },
        Location { file: None, has_start: true, start_line: Some(1) },
        Location { file: Some("/p/b.ts".into()), has_start: false, start_line: None },
        Location { file: Some("/p/c.ts".into()), has_start: true, start_line: None },
    ];
    let syms = location_symbols(&items);
    assert_eq!(syms.len(), 2);
    assert_eq!(syms[0].file, "/p/a.ts");
    assert_eq!(syms[0].line, 7);
    assert_eq!(syms[0].name, "");
    assert_eq!(syms[1].line, 0);
}

#[test]
fn responses_are_matched_by_sequence() {
    assert!(answers_request("response", Some(4), 4));
    assert!(!answers_request("response", Some(3), 4));
    assert!(!answers_request("event", Some(4), 4));
    assert!(!answers_request("response", None, 4));
}

#[test]
fn missing_server_is_recognised() {
    let c = tsserver_candidates("/proj");
    assert_eq!(c, vec!["/proj/node_modules/typescript/bin/tsserver", "/proj/node_modules/.bin/tsserver"]);
    let e = tsserver_not_found(&c);
    match &e {
        CtxError::Symbol(m) => assert_eq!(
            m,
            "tsserver not found (tried: /proj/node_modules/typescript/bin/tsserver, /proj/node_modules/.bin/tsserver, set CTX_TSSERVER_PATH to override)"
        ),
        other => panic!("unexpected {other:?}"),
    }
    assert!(is_absent(&e));
    assert!(!is_absent(&CtxError::Symbol("spawn node: denied".into())));
    assert!(!is_absent(&CtxError::Store("tsserver not found".into())));
    assert_eq!(tsgo_local_path("/proj/"), "/proj/node_modules/.bin/tsgo");
}

#[test]
fn stdout_lines_are_trimmed_blank_ones_skipped_and_the_end_is_an_error() {
    assert_eq!(tsserver_line(Some("  {\"type\":\"event\"}\r\n")).unwrap(), Some("{\"type\":\"event\"}".to_string()));
    assert_eq!(tsserver_line(Some(" \t\n")).unwrap(), None);
    assert_eq!(tsserver_line(Some("")).unwrap(), None);
    match tsserver_line(None) {
        Err(CtxError::Symbol(m)) => assert_eq!(m, "tsserver closed"),
        other => panic!("unexpected {other:?}"),
    }
}
