//! The indexing pipeline's decisions: which files a run indexes, the steps
//! of indexing one file (read, hash-dedup, chunk, embed-dedup, store, bind,
//! symbols), and the summary of a run.
//!
//! Indexing one file alternates store, embedder and language-server calls
//! with decisions. `FileIndexer` holds the decisions: each `step` takes the
//! outcome of the last action and says what to do next.

use vstd::prelude::*;

use crate::error::CtxError;
use crate::hash::ContentHash;
use crate::languages::{detect, spec_detect};
use crate::paths::{spec_starts_with, starts_with};
use crate::text::{decimal_chars, push_chars, push_str, spec_decimal, str_eq, string_of};
use crate::types::{syms_view, Chunk, ChunkRef, ChunkRefView, ChunkView, Language, Symbol, SymbolView};

verus! {

/// What indexing one file did.
#[derive(Clone, Copy, Debug)]
pub struct FileReport {
    pub skipped: bool,
    pub chunks_upserted: u64,
    pub chunks_embedded: u64,
    pub symbols_upserted: u64,
}

impl Default for FileReport {
    fn default() -> (r: FileReport)
        ensures
            !r.skipped,
            r.chunks_upserted == 0,
            r.chunks_embedded == 0,
            r.symbols_upserted == 0,
    {
        FileReport { skipped: false, chunks_upserted: 0, chunks_embedded: 0, symbols_upserted: 0 }
    }
}

/// Summary of one indexing run.
#[derive(Clone, Debug)]
pub struct IndexReport {
    pub files_indexed: u64,
    pub files_skipped: u64,
    pub chunks_upserted: u64,
    pub chunks_embedded: u64,
    pub symbols_upserted: u64,
    pub errors: u64,
}

impl Default for IndexReport {
    fn default() -> (r: IndexReport)
        ensures
            r.files_indexed == 0,
            r.files_skipped == 0,
            r.chunks_upserted == 0,
            r.chunks_embedded == 0,
            r.symbols_upserted == 0,
            r.errors == 0,
    {
        IndexReport {
            files_indexed: 0,
            files_skipped: 0,
            chunks_upserted: 0,
            chunks_embedded: 0,
            symbols_upserted: 0,
            errors: 0,
        }
    }
}

/// Whether adding the outcome of one file to `r` keeps every count in `u64`.
pub open spec fn fits_outcome(r: IndexReport, outcome: Result<FileReport, CtxError>) -> bool {
    match outcome {
        Ok(f) => if f.skipped {
            r.files_skipped + 1 <= u64::MAX
        } else {
            &&& r.files_indexed + 1 <= u64::MAX
            &&& r.chunks_upserted + f.chunks_upserted <= u64::MAX
            &&& r.chunks_embedded + f.chunks_embedded <= u64::MAX
            &&& r.symbols_upserted + f.symbols_upserted <= u64::MAX
        },
        Err(_) => r.errors + 1 <= u64::MAX,
    }
}

impl IndexReport {
    /// Whether `record` can add this outcome without a count overflowing.
    pub fn can_record(&self, outcome: &Result<FileReport, CtxError>) -> (r: bool)
        ensures
            r == fits_outcome(*self, *outcome),
    {
        match outcome {
            Ok(f) => {
                if f.skipped {
                    self.files_skipped < u64::MAX
                } else {
                    self.files_indexed < u64::MAX && f.chunks_upserted <= u64::MAX - self.chunks_upserted
                        && f.chunks_embedded <= u64::MAX - self.chunks_embedded && f.symbols_upserted
                        <= u64::MAX - self.symbols_upserted
                }
            },
            Err(_) => self.errors < u64::MAX,
        }
    }

    /// Adds the outcome of indexing one file: a skipped file counts as
    /// skipped; an indexed one counts as indexed and adds its chunk and
    /// symbol counts; a failed one counts as an error.
    pub fn record(&mut self, outcome: &Result<FileReport, CtxError>)
        requires
            fits_outcome(*old(self), *outcome),
        ensures
            match *outcome {
                Ok(f) => if f.skipped {
                    &&& final(self).files_skipped == old(self).files_skipped + 1
                    &&& final(self).files_indexed == old(self).files_indexed
                    &&& final(self).chunks_upserted == old(self).chunks_upserted
                    &&& final(self).chunks_embedded == old(self).chunks_embedded
                    &&& final(self).symbols_upserted == old(self).symbols_upserted
                    &&& final(self).errors == old(self).errors
                } else {
                    &&& final(self).files_skipped == old(self).files_skipped
                    &&& final(self).files_indexed == old(self).files_indexed + 1
                    &&& final(self).chunks_upserted == old(self).chunks_upserted + f.chunks_upserted
                    &&& final(self).chunks_embedded == old(self).chunks_embedded + f.chunks_embedded
                    &&& final(self).symbols_upserted == old(self).symbols_upserted
                        + f.symbols_upserted
                    &&& final(self).errors == old(self).errors
                },
                Err(_) => {
                    &&& final(self).files_skipped == old(self).files_skipped
                    &&& final(self).files_indexed == old(self).files_indexed
                    &&& final(self).chunks_upserted == old(self).chunks_upserted
                    &&& final(self).chunks_embedded == old(self).chunks_embedded
                    &&& final(self).symbols_upserted == old(self).symbols_upserted
                    &&& final(self).errors == old(self).errors + 1
                },
            },
    {
        match outcome {
            Ok(f) => {
                if f.skipped {
                    self.files_skipped = self.files_skipped + 1;
                } else {
                    self.files_indexed = self.files_indexed + 1;
                    self.chunks_upserted = self.chunks_upserted + f.chunks_upserted;
                    self.chunks_embedded = self.chunks_embedded + f.chunks_embedded;
                    self.symbols_upserted = self.symbols_upserted + f.symbols_upserted;
                }
            },
            Err(_) => {
                self.errors = self.errors + 1;
            },
        }
    }
}

/// Whether a full walk descends into an entry of this name: every entry but
/// `node_modules` (hidden and git-ignored entries are left out by the walk).
pub fn walk_admits(name: &str) -> (r: bool)
    ensures
        r == (name@ != "node_modules"@),
{
    !str_eq(name, "node_modules")
}

/// Whether a changed path that still exists is indexed by an incremental
/// run: it must be of a supported language and lie under `root`.
pub fn incremental_admits(path: &str, root: &str) -> (r: bool)
    ensures
        r == (spec_detect(path@) is Some && spec_starts_with(path@, root@)),
{
    match detect(path) {
        None => false,
        Some(_) => starts_with(path, root),
    }
}

/// Whether files of this language get symbols from the TypeScript server.
pub open spec fn spec_is_script(l: Option<Language>) -> bool {
    l == Some(Language::TypeScript) || l == Some(Language::Tsx) || l == Some(Language::JavaScript)
        || l == Some(Language::Jsx)
}

// ---------------------------------------------------------------------------
// Indexing one file
// ---------------------------------------------------------------------------

/// Where the indexing of one file stands.
#[derive(Clone, Copy, PartialEq, Eq, Debug, Structural)]
pub enum IndexStage {
    LookUp,
    Clear,
    Chunk,
    Check,
    Embed,
    Upsert,
    Bind,
    Extract,
    NavTree,
    Store,
    Record,
    Done,
}

/// What the caller does next.
#[derive(Debug)]
pub enum IndexAction {
    /// Look up the content hash last recorded for the file.
    LookUpFileHash,
    /// Remove the file's chunk references and symbols.
    ClearFileState,
    /// Split the file into chunks (`Chunker::chunk`).
    ChunkFile,
    /// Ask the chunk store whether it holds this hash.
    CheckStored(ContentHash),
    /// Embed the texts of the chunks at these indices.
    Embed(Vec<usize>),
    /// Store the chunks at these indices, each with its new vector.
    Upsert(Vec<usize>),
    /// Bind the file's chunk references in the scope.
    Bind(Vec<ChunkRef>),
    /// Extract the file's symbols (`extract_from_file`).
    ExtractSymbols,
    /// Ask the TypeScript server for the file's navigation tree.
    NavTree,
    /// Store these symbols.
    UpsertSymbols(Vec<Symbol>),
    /// Record this content hash for the file.
    RecordFileHash(ContentHash),
    /// The file is done.
    Finish(FileReport),
    /// Indexing the file failed.
    Fail(CtxError),
}

/// The outcome of the last action.
#[derive(Debug)]
pub enum IndexEvent {
    FileHash(Result<Option<ContentHash>, CtxError>),
    Cleared(Result<(), CtxError>),
    Chunked(Result<Vec<Chunk>, CtxError>),
    /// Whether the store holds the hash.
    Stored(Result<bool, CtxError>),
    /// How many vectors the embedder returned.
    Embedded(Result<usize, CtxError>),
    Upserted(Result<(), CtxError>),
    Bound(Result<(), CtxError>),
    Extracted(Result<Vec<Symbol>, CtxError>),
    NavTreeSymbols(Result<Vec<Symbol>, CtxError>),
    SymbolsUpserted(Result<(), CtxError>),
    Recorded(Result<(), CtxError>),
}

/// The decisions of indexing one file.
#[derive(Debug)]
pub struct FileIndexer {
    /// The file's path.
    pub file: String,
    /// The hash of the file's bytes.
    pub hash: ContentHash,
    /// Whether the TypeScript server is asked for symbols.
    pub navtree: bool,
    pub stage: IndexStage,
    /// The file's chunks, once chunked.
    pub chunks: Vec<Chunk>,
    /// The next chunk whose storage is checked.
    pub next: usize,
    /// The chunks not yet stored, in order.
    pub to_embed: Vec<usize>,
    /// The symbols extracted so far.
    pub symbols: Vec<Symbol>,
    /// How many symbols the pending upsert stores.
    pub symbol_count: u64,
    pub report: FileReport,
}

/// The reference binding each chunk to its file and lines.
pub open spec fn spec_refs(cs: Seq<ChunkView>, file: Seq<char>) -> Seq<ChunkRefView> {
    cs.map_values(|c: ChunkView| ChunkRefView { hash: c.hash, file, line_range: c.line_range })
}

/// The views of a list of chunk references.
pub open spec fn refs_view(v: Seq<ChunkRef>) -> Seq<ChunkRefView> {
    v.map_values(|r: ChunkRef| r@)
}

/// The views of a list of chunks.
pub open spec fn cviews(v: Seq<Chunk>) -> Seq<ChunkView> {
    v.map_values(|c: Chunk| c@)
}

/// The message when the embedder returns the wrong number of vectors.
pub open spec fn vector_count_msg(got: usize, wanted: usize) -> Seq<char> {
    "embedder returned "@ + spec_decimal(got as nat) + " vectors for "@ + spec_decimal(
        wanted as nat,
    ) + " texts"@
}

/// Which event each stage waits for.
pub open spec fn expects(stage: IndexStage, ev: IndexEvent) -> bool {
    match ev {
        IndexEvent::FileHash(_) => stage == IndexStage::LookUp,
        IndexEvent::Cleared(_) => stage == IndexStage::Clear,
        IndexEvent::Chunked(_) => stage == IndexStage::Chunk,
        IndexEvent::Stored(_) => stage == IndexStage::Check,
        IndexEvent::Embedded(_) => stage == IndexStage::Embed,
        IndexEvent::Upserted(_) => stage == IndexStage::Upsert,
        IndexEvent::Bound(_) => stage == IndexStage::Bind,
        IndexEvent::Extracted(_) => stage == IndexStage::Extract,
        IndexEvent::NavTreeSymbols(_) => stage == IndexStage::NavTree,
        IndexEvent::SymbolsUpserted(_) => stage == IndexStage::Store,
        IndexEvent::Recorded(_) => stage == IndexStage::Record,
    }
}

/// Whether `t` and `a` are what follows when the symbols `all` are known:
/// store them when there are any, then record the file's hash.
pub open spec fn after_symbols(s: FileIndexer, all: Seq<SymbolView>, t: FileIndexer, a: IndexAction) -> bool {
    if all.len() > 0 {
        &&& t.stage == IndexStage::Store
        &&& t.symbol_count == all.len()
        &&& a matches IndexAction::UpsertSymbols(v) && syms_view(v@) == all
    } else {
        &&& t.stage == IndexStage::Record
        &&& a matches IndexAction::RecordFileHash(h) && h == s.hash
    }
}

/// Whether `t` and `a` follow once the chunks needing vectors are known:
/// embed them when there are any, else bind the file's references.
pub open spec fn after_checks(s: FileIndexer, t: FileIndexer, a: IndexAction) -> bool {
    if t.to_embed@.len() > 0 {
        &&& t.stage == IndexStage::Embed
        &&& a matches IndexAction::Embed(v) && v@ == t.to_embed@
    } else {
        &&& t.stage == IndexStage::Bind
        &&& a matches IndexAction::Bind(v) && refs_view(v@) == spec_refs(cviews(t.chunks@), s.file@)
    }
}

/// Whether `t` fails with `e`.
pub open spec fn fails_with(t: FileIndexer, a: IndexAction, e: CtxError) -> bool {
    t.stage == IndexStage::Done && a == IndexAction::Fail(e)
}

/// The step from `s` on the event `ev` to `t`, taking the action `a`.
pub open spec fn spec_step(s: FileIndexer, ev: IndexEvent, t: FileIndexer, a: IndexAction) -> bool {
    &&& t.file == s.file
    &&& t.hash == s.hash
    &&& t.navtree == s.navtree
    &&& match ev {
        // An unchanged file is skipped; a failed lookup counts as a change.
        IndexEvent::FileHash(r) => if r matches Ok(Some(prev)) && prev.0@ == s.hash.0@ {
            &&& t.stage == IndexStage::Done
            &&& a matches IndexAction::Finish(f) && f.skipped && f.chunks_upserted == 0
                && f.chunks_embedded == 0 && f.symbols_upserted == 0
        } else {
            t.stage == IndexStage::Clear && a is ClearFileState
        },
        IndexEvent::Cleared(r) => match r {
            Err(e) => fails_with(t, a, e),
            Ok(()) => t.stage == IndexStage::Chunk && a is ChunkFile,
        },
        IndexEvent::Chunked(r) => match r {
            Err(e) => fails_with(t, a, e),
            Ok(cs) => if cs@.len() == 0 {
                &&& t.stage == IndexStage::Record
                &&& t.report == s.report
                &&& a matches IndexAction::RecordFileHash(h) && h == s.hash
            } else {
                &&& t.stage == IndexStage::Check
                &&& t.chunks@ == cs@
                &&& t.next == 0
                &&& t.to_embed@ == Seq::<usize>::empty()
                &&& t.report == s.report
                &&& a matches IndexAction::CheckStored(h) && h == cs@[0].hash
            },
        },
        // A chunk the store lacks is queued for embedding.
        IndexEvent::Stored(r) => match r {
            Err(e) => fails_with(t, a, e),
            Ok(exists) => {
                &&& t.chunks@ == s.chunks@
                &&& t.next == s.next + 1
                &&& t.to_embed@ == (if exists {
                    s.to_embed@
                } else {
                    s.to_embed@.push(s.next)
                })
                &&& t.report == s.report
                &&& if t.next < s.chunks@.len() {
                    &&& t.stage == IndexStage::Check
                    &&& a matches IndexAction::CheckStored(h) && h == s.chunks@[t.next as int].hash
                } else {
                    after_checks(s, t, a)
                }
            },
        },
        IndexEvent::Embedded(r) => match r {
            Err(e) => fails_with(t, a, e),
            Ok(n) => if n != s.to_embed@.len() {
                &&& t.stage == IndexStage::Done
                &&& a matches IndexAction::Fail(e) && e is Embed && e->Embed_0@ == vector_count_msg(
                    n,
                    s.to_embed@.len() as usize,
                )
            } else {
                &&& t.stage == IndexStage::Upsert
                &&& t.chunks@ == s.chunks@
                &&& t.to_embed@ == s.to_embed@
                &&& t.report == s.report
                &&& a matches IndexAction::Upsert(v) && v@ == s.to_embed@
            },
        },
        // Every embedded chunk is stored and counted.
        IndexEvent::Upserted(r) => match r {
            Err(e) => fails_with(t, a, e),
            Ok(()) => {
                &&& t.stage == IndexStage::Bind
                &&& t.report.skipped == s.report.skipped
                &&& t.report.chunks_embedded == s.to_embed@.len()
                &&& t.report.chunks_upserted == s.to_embed@.len()
                &&& t.report.symbols_upserted == s.report.symbols_upserted
                &&& a matches IndexAction::Bind(v) && refs_view(v@) == spec_refs(
                    cviews(s.chunks@),
                    s.file@,
                )
            },
        },
        IndexEvent::Bound(r) => match r {
            Err(e) => fails_with(t, a, e),
            Ok(()) => t.stage == IndexStage::Extract && t.report == s.report && a is ExtractSymbols,
        },
        IndexEvent::Extracted(r) => match r {
            Err(e) => fails_with(t, a, e),
            Ok(syms) => {
                &&& t.report == s.report
                &&& if s.navtree {
                    &&& t.stage == IndexStage::NavTree
                    &&& syms_view(t.symbols@) == syms_view(syms@)
                    &&& a is NavTree
                } else {
                    after_symbols(s, syms_view(syms@), t, a)
                }
            },
        },
        // A failing language server costs the file its script symbols only.
        IndexEvent::NavTreeSymbols(r) => {
            &&& t.report == s.report
            &&& after_symbols(
                s,
                match r {
                    Ok(ts) => syms_view(s.symbols@) + syms_view(ts@),
                    Err(_) => syms_view(s.symbols@),
                },
                t,
                a,
            )
        },
        IndexEvent::SymbolsUpserted(r) => match r {
            Err(e) => fails_with(t, a, e),
            Ok(()) => {
                &&& t.stage == IndexStage::Record
                &&& t.report.skipped == s.report.skipped
                &&& t.report.chunks_embedded == s.report.chunks_embedded
                &&& t.report.chunks_upserted == s.report.chunks_upserted
                &&& t.report.symbols_upserted == s.symbol_count
                &&& a matches IndexAction::RecordFileHash(h) && h == s.hash
            },
        },
        IndexEvent::Recorded(r) => match r {
            Err(e) => fails_with(t, a, e),
            Ok(()) => t.stage == IndexStage::Done && a == IndexAction::Finish(s.report),
        },
    }
}

/// The indices of the chunks the store lacked, given whether the store held
/// each chunk, in order.
pub open spec fn unstored(stored: Seq<bool>) -> Seq<usize>
    decreases stored.len(),
{
    if stored.len() == 0 {
        Seq::empty()
    } else {
        let p = unstored(stored.drop_last());
        if stored.last() {
            p
        } else {
            p.push((stored.len() - 1) as usize)
        }
    }
}

/// Only the chunks the store lacks are embedded: after the storage checks
/// of a file's chunks, the chunks queued for embedding are exactly those
/// the store did not hold, in order.
pub proof fn lemma_embeds_exactly_the_unstored(
    states: Seq<FileIndexer>,
    actions: Seq<IndexAction>,
    stored: Seq<bool>,
)
    requires
        states.len() == stored.len() + 1,
        actions.len() == stored.len(),
        states[0].next == 0,
        states[0].to_embed@ == Seq::<usize>::empty(),
        forall|i: int|
            0 <= i < stored.len() ==> #[trigger] spec_step(
                states[i],
                IndexEvent::Stored(Ok(stored[i])),
                states[i + 1],
                actions[i],
            ),
    ensures
        states.last().to_embed@ == unstored(stored),
        states.last().next == stored.len(),
        states.last().chunks@ == states[0].chunks@,
    decreases stored.len(),
{
    let n: int = stored.len() as int;
    if n == 0 {
        assert(states.last() == states[0]);
        assert(unstored(stored) =~= Seq::<usize>::empty());
    } else {
        let st = states.drop_last();
        let ac = actions.drop_last();
        let so = stored.drop_last();
        assert forall|i: int| 0 <= i < so.len() implies #[trigger] spec_step(
            st[i],
            IndexEvent::Stored(Ok(so[i])),
            st[i + 1],
            ac[i],
        ) by {
            assert(st[i] == states[i]);
            assert(st[i + 1] == states[i + 1]);
            assert(spec_step(states[i], IndexEvent::Stored(Ok(stored[i])), states[i + 1], actions[i]));
        }
        lemma_embeds_exactly_the_unstored(st, ac, so);
        assert(st.last() == states[n - 1]);
        assert(spec_step(states[n - 1], IndexEvent::Stored(Ok(stored[n - 1])), states[n], actions[n - 1]));
        assert(states.last() == states[n]);
    }
}

/// A changed file's run from its chunks to their binding. When the file
/// splits into chunks, each chunk's storage check succeeds, and (where some
/// chunk is missing) the embedding and the upsert succeed: the chunks
/// embedded and stored are exactly those the store lacked, the report
/// counts them as embedded and upserted, and the references binding every
/// chunk of the file to its lines are bound next.
pub proof fn lemma_changed_file_run(
    s0: FileIndexer,
    cs: Vec<Chunk>,
    checks: Seq<FileIndexer>,
    actions: Seq<IndexAction>,
    stored: Seq<bool>,
    embedded: FileIndexer,
    embed_action: IndexAction,
    upserted: FileIndexer,
    upsert_action: IndexAction,
)
    requires
        cs@.len() > 0,
        stored.len() == cs@.len(),
        checks.len() == stored.len() + 1,
        actions.len() == stored.len() + 1,
        spec_step(s0, IndexEvent::Chunked(Ok(cs)), checks[0], actions[0]),
        forall|i: int|
            0 <= i < stored.len() ==> #[trigger] spec_step(
                checks[i],
                IndexEvent::Stored(Ok(stored[i])),
                checks[i + 1],
                actions[i + 1],
            ),
        unstored(stored).len() > 0 ==> spec_step(
            checks.last(),
            IndexEvent::Embedded(Ok(unstored(stored).len() as usize)),
            embedded,
            embed_action,
        ),
        unstored(stored).len() > 0 ==> spec_step(
            embedded,
            IndexEvent::Upserted(Ok(())),
            upserted,
            upsert_action,
        ),
    ensures
        unstored(stored).len() > 0 ==> {
            &&& embed_action matches IndexAction::Upsert(v) && v@ == unstored(stored)
            &&& upserted.report.chunks_embedded == unstored(stored).len()
            &&& upserted.report.chunks_upserted == unstored(stored).len()
            &&& upsert_action matches IndexAction::Bind(v) && refs_view(v@) == spec_refs(
                cviews(cs@),
                s0.file@,
            )
        },
        unstored(stored).len() == 0 ==> (actions.last() matches IndexAction::Bind(v) && refs_view(
            v@,
        ) == spec_refs(cviews(cs@), s0.file@)),
{
    let n = stored.len() as int;
    let ac = actions.subrange(1, n + 1);
    assert forall|i: int| 0 <= i < stored.len() implies #[trigger] spec_step(
        checks[i],
        IndexEvent::Stored(Ok(stored[i])),
        checks[i + 1],
        ac[i],
    ) by {
        assert(ac[i] == actions[i + 1]);
        assert(spec_step(checks[i], IndexEvent::Stored(Ok(stored[i])), checks[i + 1], actions[i + 1]));
    }
    lemma_embeds_exactly_the_unstored(checks, ac, stored);
    let last = checks.last();
    let m = n - 1;
    assert(spec_step(checks[m], IndexEvent::Stored(Ok(stored[m])), checks[m + 1], ac[m]));
    assert(ac[m] == actions[n]);
    assert(checks[n - 1].file == s0.file) by {
        lemma_run_keeps_file(checks, ac, stored, s0.file, n - 1);
    }
    assert(checks[n].file == s0.file) by {
        lemma_run_keeps_file(checks, ac, stored, s0.file, n);
    }
    assert(checks[n - 1].next == n - 1) by {
        lemma_run_next(checks, ac, stored, n - 1);
    }
    assert(checks[n - 1].chunks@ == cs@) by {
        lemma_run_chunks(checks, ac, stored, n - 1);
    }
    if unstored(stored).len() > 0 {
        assert(last.to_embed.len() == last.to_embed@.len());
        assert(embedded.to_embed@ == unstored(stored));
    }
}

/// Along the storage checks, the file stays the same.
proof fn lemma_run_keeps_file(
    states: Seq<FileIndexer>,
    actions: Seq<IndexAction>,
    stored: Seq<bool>,
    file: String,
    i: int,
)
    requires
        states.len() == stored.len() + 1,
        actions.len() == stored.len(),
        states[0].file == file,
        0 <= i <= stored.len(),
        forall|j: int|
            0 <= j < stored.len() ==> #[trigger] spec_step(
                states[j],
                IndexEvent::Stored(Ok(stored[j])),
                states[j + 1],
                actions[j],
            ),
    ensures
        states[i].file == file,
    decreases i,
{
    if i > 0 {
        lemma_run_keeps_file(states, actions, stored, file, i - 1);
        let j = i - 1;
        assert(spec_step(states[j], IndexEvent::Stored(Ok(stored[j])), states[j + 1], actions[j]));
    }
}

/// Along the storage checks, the `i`-th check has checked `i` chunks.
proof fn lemma_run_next(states: Seq<FileIndexer>, actions: Seq<IndexAction>, stored: Seq<bool>, i: int)
    requires
        states.len() == stored.len() + 1,
        actions.len() == stored.len(),
        states[0].next == 0,
        0 <= i <= stored.len(),
        forall|j: int|
            0 <= j < stored.len() ==> #[trigger] spec_step(
                states[j],
                IndexEvent::Stored(Ok(stored[j])),
                states[j + 1],
                actions[j],
            ),
    ensures
        states[i].next == i,
    decreases i,
{
    if i > 0 {
        lemma_run_next(states, actions, stored, i - 1);
        let j = i - 1;
        assert(spec_step(states[j], IndexEvent::Stored(Ok(stored[j])), states[j + 1], actions[j]));
    }
}

/// Along the storage checks, the chunk list stays the same.
proof fn lemma_run_chunks(states: Seq<FileIndexer>, actions: Seq<IndexAction>, stored: Seq<bool>, i: int)
    requires
        states.len() == stored.len() + 1,
        actions.len() == stored.len(),
        0 <= i <= stored.len(),
        forall|j: int|
            0 <= j < stored.len() ==> #[trigger] spec_step(
                states[j],
                IndexEvent::Stored(Ok(stored[j])),
                states[j + 1],
                actions[j],
            ),
    ensures
        states[i].chunks@ == states[0].chunks@,
    decreases i,
{
    if i > 0 {
        lemma_run_chunks(states, actions, stored, i - 1);
        let j = i - 1;
        assert(spec_step(states[j], IndexEvent::Stored(Ok(stored[j])), states[j + 1], actions[j]));
    }
}

impl FileIndexer {
    /// The invariant of the indexer: the next chunk to check and the queued
    /// chunks lie within the chunk list, the queue in increasing order.
    pub open spec fn wf(&self) -> bool {
        &&& self.next <= self.chunks@.len()
        &&& forall|i: int| 0 <= i < self.to_embed@.len() ==> #[trigger] self.to_embed@[i] < self.next
        &&& forall|i: int, j: int|
            0 <= i < j < self.to_embed@.len() ==> self.to_embed@[i] < self.to_embed@[j]
        &&& self.stage == IndexStage::Check ==> self.next < self.chunks@.len()
        &&& (self.stage == IndexStage::Embed || self.stage == IndexStage::Upsert)
            ==> self.to_embed@.len() > 0
    }

    /// Starts indexing `file`, whose contents are `bytes`: the first action
    /// looks up the hash recorded for the file. The TypeScript server is
    /// asked for symbols of script files when one is attached.
    pub fn start(file: String, bytes: &[u8], tsserver: bool) -> (r: (FileIndexer, IndexAction))
        ensures
            r.0.wf(),
            r.0.file == file,
            r.0.hash.0@ == crate::hash::blake3_digest(bytes@),
            r.0.navtree == (tsserver && spec_is_script(spec_detect(file@))),
            r.0.stage == IndexStage::LookUp,
            !r.0.report.skipped && r.0.report.chunks_upserted == 0 && r.0.report.chunks_embedded == 0
                && r.0.report.symbols_upserted == 0,
            r.1 is LookUpFileHash,
    {
        let hash = ContentHash::of(bytes);
        let lang = detect(file.as_str());
        let script = match lang {
            Some(Language::TypeScript) | Some(Language::Tsx) | Some(Language::JavaScript) | Some(
                Language::Jsx,
            ) => true,
            _ => false,
        };
        let ix = FileIndexer {
            file,
            hash,
            navtree: tsserver && script,
            stage: IndexStage::LookUp,
            chunks: Vec::new(),
            next: 0,
            to_embed: Vec::new(),
            symbols: Vec::new(),
            symbol_count: 0,
            report: FileReport::default(),
        };
        (ix, IndexAction::LookUpFileHash)
    }

    /// Takes the outcome of the last action and decides the next one.
    pub fn step(&mut self, ev: IndexEvent) -> (a: IndexAction)
        requires
            old(self).wf(),
            expects(old(self).stage, ev),
        ensures
            final(self).wf(),
            spec_step(*old(self), ev, *final(self), a),
    {
        match ev {
            IndexEvent::FileHash(r) => {
                let unchanged = match &r {
                    Ok(Some(prev)) => crate::hash::same_hash(prev, &self.hash),
                    _ => false,
                };
                if unchanged {
                    self.stage = IndexStage::Done;
                    let mut f = FileReport::default();
                    f.skipped = true;
                    IndexAction::Finish(f)
                } else {
                    self.stage = IndexStage::Clear;
                    IndexAction::ClearFileState
                }
            },
            IndexEvent::Cleared(r) => match r {
                Err(e) => self.fail(e),
                Ok(()) => {
                    self.stage = IndexStage::Chunk;
                    IndexAction::ChunkFile
                },
            },
            IndexEvent::Chunked(r) => match r {
                Err(e) => self.fail(e),
                Ok(cs) => {
                    if cs.len() == 0 {
                        self.stage = IndexStage::Record;
                        IndexAction::RecordFileHash(self.hash)
                    } else {
                        let h = cs[0].hash;
                        self.chunks = cs;
                        self.next = 0;
                        self.to_embed = Vec::new();
                        self.stage = IndexStage::Check;
                        IndexAction::CheckStored(h)
                    }
                },
            },
            IndexEvent::Stored(r) => match r {
                Err(e) => self.fail(e),
                Ok(exists) => {
                    let cur = self.next;
                    let total = self.chunks.len();
                    assert(cur < total);
                    if !exists {
                        let ghost te = self.to_embed@;
                        self.to_embed.push(cur);
                        assert(self.to_embed@ == te.push(cur));
                    }
                    self.next = cur + 1;
                    if self.next < self.chunks.len() {
                        IndexAction::CheckStored(self.chunks[self.next].hash)
                    } else if self.to_embed.len() > 0 {
                        self.stage = IndexStage::Embed;
                        IndexAction::Embed(self.to_embed.clone())
                    } else {
                        self.stage = IndexStage::Bind;
                        IndexAction::Bind(chunk_refs(&self.chunks, self.file.as_str()))
                    }
                },
            },
            IndexEvent::Embedded(r) => match r {
                Err(e) => self.fail(e),
                Ok(n) => {
                    if n != self.to_embed.len() {
                        let mut m: Vec<char> = Vec::new();
                        push_str(&mut m, "embedder returned ");
                        let a = decimal_chars(n as u64);
                        push_chars(&mut m, &a);
                        push_str(&mut m, " vectors for ");
                        let b = decimal_chars(self.to_embed.len() as u64);
                        push_chars(&mut m, &b);
                        push_str(&mut m, " texts");
                        self.fail(CtxError::Embed(string_of(&m)))
                    } else {
                        self.stage = IndexStage::Upsert;
                        IndexAction::Upsert(self.to_embed.clone())
                    }
                },
            },
            IndexEvent::Upserted(r) => match r {
                Err(e) => self.fail(e),
                Ok(()) => {
                    let n = self.to_embed.len() as u64;
                    self.report.chunks_embedded = n;
                    self.report.chunks_upserted = n;
                    self.stage = IndexStage::Bind;
                    IndexAction::Bind(chunk_refs(&self.chunks, self.file.as_str()))
                },
            },
            IndexEvent::Bound(r) => match r {
                Err(e) => self.fail(e),
                Ok(()) => {
                    self.stage = IndexStage::Extract;
                    IndexAction::ExtractSymbols
                },
            },
            IndexEvent::Extracted(r) => match r {
                Err(e) => self.fail(e),
                Ok(syms) => {
                    if self.navtree {
                        self.symbols = syms;
                        self.stage = IndexStage::NavTree;
                        IndexAction::NavTree
                    } else {
                        self.symbols_known(syms)
                    }
                },
            },
            IndexEvent::NavTreeSymbols(r) => {
                let mut all: Vec<Symbol> = Vec::new();
                std::mem::swap(&mut all, &mut self.symbols);
                let ghost first = syms_view(all@);
                match r {
                    Ok(mut ts) => {
                        let ghost tv = syms_view(ts@);
                        all.append(&mut ts);
                        assert(syms_view(all@) =~= first + tv);
                    },
                    Err(_) => {},
                }
                self.symbols_known(all)
            },
            IndexEvent::SymbolsUpserted(r) => match r {
                Err(e) => self.fail(e),
                Ok(()) => {
                    self.report.symbols_upserted = self.symbol_count;
                    self.stage = IndexStage::Record;
                    IndexAction::RecordFileHash(self.hash)
                },
            },
            IndexEvent::Recorded(r) => match r {
                Err(e) => self.fail(e),
                Ok(()) => {
                    self.stage = IndexStage::Done;
                    IndexAction::Finish(
                        FileReport {
                            skipped: self.report.skipped,
                            chunks_upserted: self.report.chunks_upserted,
                            chunks_embedded: self.report.chunks_embedded,
                            symbols_upserted: self.report.symbols_upserted,
                        },
                    )
                },
            },
        }
    }

    /// Ends the file with the error `e`.
    fn fail(&mut self, e: CtxError) -> (a: IndexAction)
        requires
            old(self).wf(),
        ensures
            final(self).wf(),
            final(self).stage == IndexStage::Done,
            a == IndexAction::Fail(e),
            final(self).file == old(self).file,
            final(self).hash == old(self).hash,
            final(self).navtree == old(self).navtree,
    {
        self.stage = IndexStage::Done;
        IndexAction::Fail(e)
    }

    /// Stores the file's symbols when there are any, else records its hash.
    fn symbols_known(&mut self, all: Vec<Symbol>) -> (a: IndexAction)
        requires
            old(self).wf(),
        ensures
            final(self).wf(),
            after_symbols(*old(self), syms_view(all@), *final(self), a),
            final(self).file == old(self).file,
            final(self).hash == old(self).hash,
            final(self).navtree == old(self).navtree,
            final(self).report == old(self).report,
    {
        if all.len() > 0 {
            self.symbol_count = all.len() as u64;
            self.stage = IndexStage::Store;
            IndexAction::UpsertSymbols(all)
        } else {
            self.stage = IndexStage::Record;
            IndexAction::RecordFileHash(self.hash)
        }
    }

    /// Whether `ev` is the event this indexer waits for.
    pub fn expects_event(&self, ev: &IndexEvent) -> (r: bool)
        ensures
            r == expects(self.stage, *ev),
    {
        match ev {
            IndexEvent::FileHash(_) => self.stage == IndexStage::LookUp,
            IndexEvent::Cleared(_) => self.stage == IndexStage::Clear,
            IndexEvent::Chunked(_) => self.stage == IndexStage::Chunk,
            IndexEvent::Stored(_) => self.stage == IndexStage::Check,
            IndexEvent::Embedded(_) => self.stage == IndexStage::Embed,
            IndexEvent::Upserted(_) => self.stage == IndexStage::Upsert,
            IndexEvent::Bound(_) => self.stage == IndexStage::Bind,
            IndexEvent::Extracted(_) => self.stage == IndexStage::Extract,
            IndexEvent::NavTreeSymbols(_) => self.stage == IndexStage::NavTree,
            IndexEvent::SymbolsUpserted(_) => self.stage == IndexStage::Store,
            IndexEvent::Recorded(_) => self.stage == IndexStage::Record,
        }
    }
}

/// The references binding each chunk to `file` and its lines.
pub fn chunk_refs(chunks: &Vec<Chunk>, file: &str) -> (r: Vec<ChunkRef>)
    ensures
        refs_view(r@) == spec_refs(cviews(chunks@), file@),
{
    let mut out: Vec<ChunkRef> = Vec::new();
    let mut i: usize = 0;
    while i < chunks.len()
        invariant
            0 <= i <= chunks@.len(),
            refs_view(out@) == spec_refs(cviews(chunks@.subrange(0, i as int)), file@),
        decreases chunks@.len() - i,
    {
        let c = &chunks[i];
        let ghost before = refs_view(out@);
        out.push(ChunkRef { hash: c.hash, file: String::from_str(file), line_range: c.line_range });
        assert(cviews(chunks@.subrange(0, i + 1)) =~= cviews(chunks@.subrange(0, i as int)).push(
            c@,
        ));
        assert(refs_view(out@) =~= before.push(ChunkRefView { hash: c.hash.0@, file: file@, line_range: c.line_range }));
        i = i + 1;
        assert(refs_view(out@) =~= spec_refs(cviews(chunks@.subrange(0, i as int)), file@));
    }
    assert(chunks@.subrange(0, chunks@.len() as int) =~= chunks@);
    out
}

} // verus!
