use ctx::hash::{parse_hex_hash, ContentHash};
use ctx::mcp::{
    check_window, file_text, default_k, inside_scope, lines_label, preview, request_path, split_lines,
    window_of_text, MAX_WINDOW_LINES, PREVIEW_LEN,
};

#[test]
fn defaults_and_labels() {
    assert_eq!(default_k(), 5);
    assert_eq!(MAX_WINDOW_LINES, 500);
    assert_eq!(PREVIEW_LEN, 200);
    assert_eq!(lines_label(3, 17), "3-17");
    assert_eq!(lines_label(0, 0), "0-0");
}

#[test]
fn previews_cut_at_a_character_boundary() {
    assert_eq!(preview("short"), "short");
    let exact = "a".repeat(200);
    assert_eq!(preview(&exact), exact);
    let long = "b".repeat(250);
    assert_eq!(preview(&long), format!("{}…", "b".repeat(200)));
    // 199 ASCII bytes then a 3-byte character straddling byte 200.
    let mixed = format!("{}€tail", "c".repeat(199));
    assert_eq!(preview(&mixed), format!("{}…", "c".repeat(199)));
}

#[test]
fn window_requests_are_checked() {
    assert!(check_window(1, 1).is_ok());
    assert!(check_window(10, 509).is_ok());
    assert_eq!(
        check_window(0, 5).unwrap_err(),
        "start_line must be >= 1 and end_line >= start_line (1-indexed inclusive)"
    );
    assert_eq!(
        check_window(5, 4).unwrap_err(),
        "start_line must be >= 1 and end_line >= start_line (1-indexed inclusive)"
    );
    assert_eq!(
        check_window(1, 501).unwrap_err(),
        "window exceeds 500-line cap; narrow your range or issue multiple calls"
    );
}

#[test]
fn windows_of_text() {
    let text = "one\r\ntwo\nthree\nfour\n";
    let lines: Vec<String> = split_lines(text).into_iter().map(|l| l.into_iter().collect()).collect();
    assert_eq!(lines, vec!["one", "two", "three", "four"]);

    let w = window_of_text(text, 2, 3);
    assert_eq!((w.start_line, w.end_line, w.total_lines), (2, 3, 4));
    assert_eq!(w.text, "two\nthree");

    let past = window_of_text(text, 3, 40);
    assert_eq!((past.start_line, past.end_line, past.total_lines), (3, 4, 4));
    assert_eq!(past.text, "three\nfour");

    let none = window_of_text(text, 9, 10);
    assert_eq!((none.start_line, none.end_line), (9, 9));
    assert_eq!(none.text, "");
}

#[test]
fn request_paths_stay_in_scope() {
    assert_eq!(request_path("/repo", "src/a.ts"), "/repo/src/a.ts");
    assert_eq!(request_path("/repo", "/etc/passwd"), "/etc/passwd");
    assert!(inside_scope("/repo/src/a.ts", "/repo"));
    assert!(!inside_scope("/etc/passwd", "/repo"));
    assert!(!inside_scope("/repository/x", "/repo"));
}

#[test]
fn hex_hashes_parse_back() {
    let h = ContentHash::of(b"chunk");
    assert_eq!(parse_hex_hash(&h.to_hex()).unwrap(), h);
    assert_eq!(parse_hex_hash(&h.to_hex().to_uppercase()).unwrap(), h);
    assert_eq!(parse_hex_hash("abc").unwrap_err(), "hash must be 64 hex chars (got 3)");
    let bad = format!("{}zz", "0".repeat(62));
    assert_eq!(parse_hex_hash(&bad).unwrap_err(), "invalid hex character: z");
}

#[test]
fn window_files_must_be_utf8() {
    assert_eq!(file_text("héllo\nwörld".as_bytes()).unwrap(), "héllo\nwörld");
    assert_eq!(file_text(&[0x66, 0xff, 0x67]).unwrap_err(), "file is not valid UTF-8");
}
