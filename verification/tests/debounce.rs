use ctx::watch::{clean_batch, is_ignored};

#[test]
fn ignores_node_modules() {
    let p = String::from("/project/node_modules/pkg/index.ts");
    assert!(is_ignored(&p));
}

#[test]
fn ignores_git_dir() {
    let p = String::from("/project/.git/HEAD");
    assert!(is_ignored(&p));
}

#[test]
fn allows_src_files() {
    let p = String::from("/project/src/app.ts");
    assert!(!is_ignored(&p));
}

#[test]
fn clean_batch_dedupes_and_filters() {
    let paths = vec![
        String::from("/project/src/a.ts"),
        String::from("/project/node_modules/pkg/index.ts"),
        String::from("/project/src/a.ts"), // duplicate
    ];
    let result = clean_batch(paths);
    assert_eq!(result, vec![String::from("/project/src/a.ts")]);
}

#[test]
fn cleaning_a_clean_batch_changes_nothing() {
    let paths = vec![
        String::from("/project/src/b.ts"),
        String::from("/project/.git/HEAD"),
        String::from("/project/src/a.ts"),
        String::from("/project/src/b.ts"),
    ];
    let once = clean_batch(paths);
    assert_eq!(once, vec![String::from("/project/src/b.ts"), String::from("/project/src/a.ts")]);
    assert_eq!(clean_batch(once.clone()), once);
}
