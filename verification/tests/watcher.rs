use ctx::watch::Watcher;

#[test]
fn a_round_of_events_becomes_one_clean_batch() {
    let events = vec![
        vec!["/p/src/a.ts".to_string(), "/p/node_modules/x/i.js".to_string()],
        vec!["/p/src/b.css".to_string(), "/p/src/./a.ts".to_string()],
        vec!["/p/.git/index".to_string()],
    ];
    assert_eq!(
        Watcher::batch(events),
        Some(vec!["/p/src/a.ts".to_string(), "/p/src/b.css".to_string()])
    );
}

#[test]
fn a_round_of_ignored_paths_gives_no_batch() {
    let events = vec![vec!["/p/dist/app.js".to_string()], vec![], vec!["/p/.ctx/state".to_string()]];
    assert_eq!(Watcher::batch(events), None);
    assert_eq!(Watcher::batch(vec![]), None);
}
