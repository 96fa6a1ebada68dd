//! The query side: the filter that confines a search to a scope, and the
//! status snapshot of a repository.

use vstd::prelude::*;

use crate::error::CtxError;
use crate::hash::ContentHash;
use crate::scope::Scope;
use crate::store::{
    good_hit, hash_bytes, lemma_select_respects_filter, spec_select, Filter, RowView,
};
use crate::text::push_str;

verus! {

/// A status snapshot of a repository's index.
#[derive(Clone, Debug)]
pub struct Status {
    /// All chunks in the chunk store (not confined to the scope).
    pub chunks_total: u64,
    /// The chunk hashes active in the scope.
    pub active_hashes: u64,
    /// The embedder's model, to spot model drift.
    pub embedding_model: String,
    pub embedding_dim: usize,
}

/// The status from the store's chunk count, the number of hashes active in
/// the scope, and the embedder's identity.
pub fn status_of(chunks_total: u64, active_count: usize, model_id: &str, dim: usize) -> (r: Status)
    ensures
        r.chunks_total == chunks_total,
        r.active_hashes == (if active_count <= u64::MAX {
            active_count as u64
        } else {
            u64::MAX
        }),
        r.embedding_model@ == model_id@,
        r.embedding_dim == dim,
{
    Status {
        chunks_total,
        active_hashes: active_count as u64,
        embedding_model: String::from_str(model_id),
        embedding_dim: dim,
    }
}

/// The filter of a semantic search in `scope`: the scope's active hashes
/// are the hash allowlist, which is how a search is kept to its scope.
pub fn scoped_filter(scope: &Scope, active: Vec<ContentHash>) -> (r: Filter)
    ensures
        r.scope == Some(*scope),
        r.hash_allowlist matches Some(v) && v@ == active@,
        r.lang_allowlist is None,
        r.path_glob is None,
{
    Filter {
        scope: Some(scope.duplicate()),
        hash_allowlist: Some(active),
        lang_allowlist: None,
        path_glob: None,
    }
}

/// Checks that the embedder returned a vector for the query.
pub fn require_query_vector(count: usize) -> (r: Result<(), CtxError>)
    ensures
        count > 0 ==> r is Ok,
        count == 0 ==> r is Err && r->Err_0 is Embed && r->Err_0->Embed_0@
            == "embedder returned no vectors"@,
{
    if count == 0 {
        let mut m: Vec<char> = Vec::new();
        push_str(&mut m, "embedder returned no vectors");
        return Err(CtxError::Embed(crate::text::string_of(&m)));
    }
    Ok(())
}

/// A search is kept to its scope: with the scope's active hashes as the
/// allowlist (as `scoped_filter` sets it), every hit's chunk hash is one of
/// the scope's active hashes, whatever rows the table returns.
pub proof fn lemma_search_stays_in_scope(
    cands: Seq<(RowView, Option<usize>)>,
    active: Seq<ContentHash>,
    k: usize,
    dim: usize,
)
    ensures
        spec_select(cands, Some(hash_bytes(active)), None, k, dim) matches Ok(hits) ==> forall|j: int|
            0 <= j < hits.len() ==> hash_bytes(active).contains(#[trigger] hits[j].1.hash),
{
    lemma_select_respects_filter(cands, Some(hash_bytes(active)), None, k, dim);
    match spec_select(cands, Some(hash_bytes(active)), None, k, dim) {
        Ok(hits) => {
            assert forall|j: int| 0 <= j < hits.len() implies hash_bytes(active).contains(
                #[trigger] hits[j].1.hash,
            ) by {
                assert(good_hit(cands, Some(hash_bytes(active)), None, dim, hits[j]));
            }
        },
        Err(_) => {},
    }
}

} // verus!
