use ctx::config::{
    lance_dir, lance_dir_in, per_repo_dir_in, per_repo_dir_under, refs_file, refs_file_in, trim_leading_v,
};
use ctx::embed::{model_cache_dir_in, EmbedderOptions, EMBEDDING_DIM, MODEL_ID};
use ctx::hash::ContentHash;
use ctx::query::{require_query_vector, scoped_filter, status_of};
use ctx::scope::Scope;
use ctx::error::CtxError;

#[test]
fn version_tag_loses_its_v() {
    assert_eq!(trim_leading_v("v0.1.0-15"), "0.1.0-15");
    assert_eq!(trim_leading_v("0.2.0"), "0.2.0");
    assert_eq!(trim_leading_v("v"), "");
    assert_eq!(trim_leading_v(""), "");
}

#[test]
fn blake3_of_empty_input_is_the_published_digest() {
    assert_eq!(
        ContentHash::of(b"").to_hex(),
        "af1349b9f5f9a1a6a0404dea36dcc9499bcb25c9adc112b7cc9a93cae41f3262"
    );
}

#[test]
fn per_repo_dir_is_named_by_the_path_hash() {
    let hex = ContentHash::of(b"/work/repo").to_hex();
    assert_eq!(per_repo_dir_under("/home/u", "/work/repo"), format!("/home/u/.ctx/repos/{hex}"));
    assert_eq!(per_repo_dir_under("/home/u/", "/work/repo"), format!("/home/u/.ctx/repos/{hex}"));
}

#[test]
fn lance_and_refs_paths() {
    let hex = ContentHash::of(b"/work/repo").to_hex();
    if let Ok(l) = lance_dir("/work/repo") {
        assert!(l.ends_with(&format!("/.ctx/repos/{hex}/lance")), "{l}");
    }
    if let Ok(r) = refs_file("/work/repo") {
        assert!(r.ends_with(&format!("/.ctx/repos/{hex}/refs.redb")), "{r}");
    }
}

#[test]
fn embedder_settings() {
    let d = EmbedderOptions::default();
    assert!(d.show_download_progress);
    assert!(d.cache_dir.is_none());
    let s = EmbedderOptions::silent();
    assert!(!s.show_download_progress);
    assert_eq!(EMBEDDING_DIM, 768);
    assert_eq!(MODEL_ID, "nomic-embed-text-v1.5");
    assert_eq!(model_cache_dir_in(&d, Some("/home/u/.cache".into())), "/home/u/.cache/ctx/fastembed");
    assert_eq!(model_cache_dir_in(&d, None), ".fastembed_cache/ctx/fastembed");
    let custom = EmbedderOptions { show_download_progress: false, cache_dir: Some("/m".into()) };
    assert_eq!(model_cache_dir_in(&custom, Some("/x".into())), "/m");
}

#[test]
fn status_and_scoped_filter() {
    let st = status_of(12, 3, "nomic-embed-text-v1.5", 768);
    assert_eq!(st.chunks_total, 12);
    assert_eq!(st.active_hashes, 3);
    assert_eq!(st.embedding_model, "nomic-embed-text-v1.5");
    assert_eq!(st.embedding_dim, 768);

    let scope = Scope::local("/r", "/r", Some("main".into())).unwrap();
    let f = scoped_filter(&scope, vec![ContentHash([1; 32])]);
    assert_eq!(f.scope, Some(scope));
    assert_eq!(f.hash_allowlist, Some(vec![ContentHash([1; 32])]));
    assert!(f.lang_allowlist.is_none());
    assert!(f.path_glob.is_none());

    assert!(require_query_vector(1).is_ok());
    match require_query_vector(0) {
        Err(CtxError::Embed(m)) => assert_eq!(m, "embedder returned no vectors"),
        other => panic!("unexpected {other:?}"),
    }
}

#[test]
fn state_paths_follow_the_home_directory_found() {
    let hex = ContentHash::of(b"/work/repo").to_hex();
    assert_eq!(per_repo_dir_in(Some("/home/u"), "/work/repo").unwrap(), format!("/home/u/.ctx/repos/{hex}"));
    assert_eq!(lance_dir_in(Some("/home/u"), "/work/repo").unwrap(), format!("/home/u/.ctx/repos/{hex}/lance"));
    assert_eq!(refs_file_in(Some("/home/u"), "/work/repo").unwrap(), format!("/home/u/.ctx/repos/{hex}/refs.redb"));
    assert!(matches!(per_repo_dir_in(None, "/work/repo"), Err(CtxError::Other(_))));
    assert!(matches!(lance_dir_in(None, "/work/repo"), Err(CtxError::Other(_))));
    assert!(matches!(refs_file_in(None, "/work/repo"), Err(CtxError::Other(_))));
}
