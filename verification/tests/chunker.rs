use ctx::chunker::Chunker;
use ctx::error::CtxError;
use ctx::types::{ChunkKind, Language};

#[test]
fn chunker_rejects_unknown_extension() {
    let err = Chunker::new().chunk("sample.py", b"def foo(): pass").unwrap_err();
    assert!(matches!(err, CtxError::Parse(_)));
}

const SAMPLE_TS: &str = "export function greet(name: string): string {\n  return `hi ${name}`;\n}\n\nexport class Counter {\n  private n = 0;\n  increment(): number {\n    return ++this.n;\n  }\n}\n\nexport const add = (a: number, b: number) => a + b;\n";

#[test]
fn chunks_ts_declarations_with_lines() {
    let chunks = Chunker::new().chunk("src/sample.ts", SAMPLE_TS.as_bytes()).unwrap();
    let names: Vec<_> = chunks.iter().filter_map(|c| c.name.clone()).collect();
    assert!(names.contains(&"greet".to_string()), "got {names:?}");
    assert!(names.contains(&"Counter".to_string()), "got {names:?}");
    assert!(names.contains(&"increment".to_string()), "got {names:?}");
    assert!(names.contains(&"add".to_string()), "got {names:?}");
    let greet = chunks.iter().find(|c| c.name.as_deref() == Some("greet")).unwrap();
    assert_eq!(greet.kind, ChunkKind::Function);
    assert_eq!(greet.lang, Language::TypeScript);
    assert_eq!(greet.line_range.start, 0);
    assert_eq!(greet.line_range.end, 3);
    assert!(greet.text.starts_with("export function greet") || greet.text.starts_with("function greet"));
}

#[test]
fn chunk_hash_is_content_addressed() {
    let a = Chunker::new().chunk("a.ts", SAMPLE_TS.as_bytes()).unwrap();
    let b = Chunker::new().chunk("b.ts", SAMPLE_TS.as_bytes()).unwrap();
    assert_eq!(a.len(), b.len());
    for (x, y) in a.iter().zip(b.iter()) {
        assert_eq!(x.hash, y.hash);
    }
}

#[test]
fn chunks_json_as_document() {
    let chunks = Chunker::new().chunk("package.json", b"{\n  \"a\": 1\n}\n").unwrap();
    assert_eq!(chunks.len(), 1);
    assert_eq!(chunks[0].kind, ChunkKind::Document);
    assert_eq!(chunks[0].line_range.start, 0);
    assert_eq!(chunks[0].line_range.end, 4);
}

#[test]
fn chunks_css_and_html() {
    let css = Chunker::new().chunk("x.css", b".btn-primary { color: red; }\n").unwrap();
    assert!(css.iter().any(|c| c.name.as_deref() == Some(".btn-primary")));
    let html = Chunker::new().chunk("x.HTML", b"<div><br/></div>").unwrap();
    let tags: Vec<_> = html.iter().filter_map(|c| c.name.clone()).collect();
    assert!(tags.iter().any(|t| t == "div"), "got {tags:?}");
}
