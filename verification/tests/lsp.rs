use ctx::error::CtxError;
use ctx::lsp::{
    auto_reply, classify_message, flatten_document_symbols, frame_header, map_lsp_symbol_kind,
    parse_usize, read_header_line, response_error, response_symbols, AutoReply, DocSymbol,
    HeaderStep, MessageKind, SymbolInfo, SymbolResponse,
};
use ctx::types::ChunkKind;
use std::io::{BufRead, Read};

fn encode_framed(body: &str) -> Vec<u8> {
    let mut out = frame_header(body.len()).into_bytes();
    out.extend_from_slice(body.as_bytes());
    out
}

fn read_framed<R: BufRead>(reader: &mut R) -> Result<serde_json::Value, CtxError> {
    let mut known: Option<usize> = None;
    loop {
        let mut line = String::new();
        let n = reader.read_line(&mut line).expect("read header");
        let step = if n == 0 {
            read_header_line(known, None, "srv")?
        } else {
            read_header_line(known, Some(&line), "srv")?
        };
        match step {
            HeaderStep::Continue(k) => known = k,
            HeaderStep::Body(len) => {
                let mut body = vec![0u8; len];
                reader.read_exact(&mut body).expect("read body");
                return Ok(serde_json::from_slice(&body).expect("parse json"));
            }
        }
    }
}

#[test]
fn framing_roundtrip() {
    let msg1 = r#"{"jsonrpc":"2.0","id":1,"method":"initialize","params":{"processId":null}}"#;
    let msg2 = r#"{"jsonrpc":"2.0","id":1,"result":{"capabilities":{}}}"#;
    let mut bytes = encode_framed(msg1);
    bytes.extend(encode_framed(msg2));
    let mut reader = std::io::Cursor::new(bytes);

    let got1 = read_framed(&mut reader).expect("msg1");
    assert_eq!(got1["id"], 1);
    assert_eq!(got1["method"], "initialize");

    let got2 = read_framed(&mut reader).expect("msg2");
    assert_eq!(got2["id"], 1);
    assert!(got2.get("result").is_some(), "expected result in msg2");

    match read_framed(&mut reader) {
        Err(CtxError::Symbol(m)) => assert_eq!(m, "srv server closed"),
        other => panic!("expected EOF, got {other:?}"),
    }
}

#[test]
fn frame_header_text() {
    assert_eq!(frame_header(0), "Content-Length: 0\r\n\r\n");
    assert_eq!(frame_header(1234), "Content-Length: 1234\r\n\r\n");
}

#[test]
fn header_lines() {
    assert_eq!(
        read_header_line(None, Some("Content-Length: 17\r\n"), "s").unwrap(),
        HeaderStep::Continue(Some(17))
    );
    assert_eq!(
        read_header_line(Some(17), Some("Content-Type: application/json\r\n"), "s").unwrap(),
        HeaderStep::Continue(Some(17))
    );
    assert_eq!(read_header_line(Some(17), Some("\r\n"), "s").unwrap(), HeaderStep::Body(17));
    match read_header_line(None, Some("\r\n"), "s") {
        Err(CtxError::Symbol(m)) => assert_eq!(m, "s missing Content-Length"),
        other => panic!("unexpected {other:?}"),
    }
    match read_header_line(None, Some("Content-Length: abc\r\n"), "s") {
        Err(CtxError::Symbol(m)) => assert_eq!(m, "s invalid Content-Length:  abc"),
        other => panic!("unexpected {other:?}"),
    }
}

#[test]
fn unsigned_parsing() {
    assert_eq!(parse_usize("42"), Some(42));
    assert_eq!(parse_usize("+7"), Some(7));
    assert_eq!(parse_usize("007"), Some(7));
    assert_eq!(parse_usize(""), None);
    assert_eq!(parse_usize("+"), None);
    assert_eq!(parse_usize("-1"), None);
    assert_eq!(parse_usize("1 2"), None);
    assert_eq!(parse_usize(&usize::MAX.to_string()), Some(usize::MAX));
    assert_eq!(parse_usize("99999999999999999999999"), None);
}

#[test]
fn message_classification() {
    assert_eq!(classify_message(true, true, Some(3)), MessageKind::ServerRequest);
    assert_eq!(classify_message(true, false, None), MessageKind::Notification);
    assert_eq!(classify_message(false, true, Some(9)), MessageKind::Response(9));
    assert_eq!(classify_message(false, true, None), MessageKind::Unclassifiable);
    assert_eq!(classify_message(false, false, None), MessageKind::Unclassifiable);
}

#[test]
fn server_requests_are_answered() {
    assert_eq!(auto_reply("client/registerCapability"), AutoReply::Null);
    assert_eq!(auto_reply("client/unregisterCapability"), AutoReply::Null);
    assert_eq!(auto_reply("window/workDoneProgress/create"), AutoReply::Null);
    assert_eq!(auto_reply("workspace/configuration"), AutoReply::EmptyArray);
    assert_eq!(auto_reply("workspace/applyEdit"), AutoReply::MethodNotFound);
    match response_error("tsgo", "initialize", "{\"code\":1}") {
        CtxError::Symbol(m) => assert_eq!(m, "tsgo LSP error for initialize: {\"code\":1}"),
        other => panic!("unexpected {other:?}"),
    }
}

#[test]
fn lsp_symbol_kinds() {
    assert_eq!(map_lsp_symbol_kind(12), Some(ChunkKind::Function));
    assert_eq!(map_lsp_symbol_kind(25), Some(ChunkKind::Function));
    assert_eq!(map_lsp_symbol_kind(6), Some(ChunkKind::Method));
    assert_eq!(map_lsp_symbol_kind(9), Some(ChunkKind::Method));
    assert_eq!(map_lsp_symbol_kind(5), Some(ChunkKind::Class));
    assert_eq!(map_lsp_symbol_kind(11), Some(ChunkKind::Interface));
    assert_eq!(map_lsp_symbol_kind(26), Some(ChunkKind::Type));
    assert_eq!(map_lsp_symbol_kind(23), Some(ChunkKind::Type));
    assert_eq!(map_lsp_symbol_kind(13), Some(ChunkKind::Const));
    assert_eq!(map_lsp_symbol_kind(7), Some(ChunkKind::Const));
    assert_eq!(map_lsp_symbol_kind(22), Some(ChunkKind::Enum));
    assert_eq!(map_lsp_symbol_kind(2), None);
}

fn doc(name: &str, kind: i32, line: u32, children: Option<Vec<DocSymbol>>) -> DocSymbol {
    DocSymbol { name: name.into(), kind, start_line: line, children }
}

#[test]
fn nested_symbols_flatten_in_preorder() {
    let items = vec![
        doc("Counter", 5, 4, Some(vec![doc("n", 7, 5, None), doc("file", 1, 6, Some(vec![doc("inc", 6, 7, None)]))])),
        doc("greet", 12, u32::MAX, None),
    ];
    let mut out = Vec::new();
    flatten_document_symbols(&items, "a.ts", None, &mut out);
    let got: Vec<_> = out.iter().map(|s| (s.name.as_str(), s.kind, s.line, s.container.as_deref())).collect();
    assert_eq!(
        got,
        vec![
            ("Counter", ChunkKind::Class, 5, None),
            ("n", ChunkKind::Const, 6, Some("Counter")),
            ("inc", ChunkKind::Method, 8, Some("file")),
            ("greet", ChunkKind::Function, u32::MAX, None),
        ]
    );
    assert!(out.iter().all(|s| s.file == "a.ts"));
}

#[test]
fn flat_and_empty_responses() {
    let flat = SymbolResponse::Flat(vec![
        SymbolInfo { name: "x".into(), kind: 13, start_line: 0, container_name: Some("m".into()) },
        SymbolInfo { name: "pkg".into(), kind: 4, start_line: 1, container_name: None },
    ]);
    let syms = response_symbols(&flat, "b.ts");
    assert_eq!(syms.len(), 1);
    assert_eq!(syms[0].line, 1);
    assert_eq!(syms[0].container.as_deref(), Some("m"));
    assert!(response_symbols(&SymbolResponse::Nothing, "b.ts").is_empty());
}
