//! Which changed paths the file watcher reports: junk directories are
//! dropped and each path is reported once per batch.

use vstd::prelude::*;

use crate::paths::{components, same_path, spec_components, sv, vv};
use crate::text::chars_eq_str;

verus! {

/// Directory names whose contents never trigger indexing.
pub open spec fn excluded_dir(name: Seq<char>) -> bool {
    ||| name == "node_modules"@
    ||| name == ".git"@
    ||| name == "target"@
    ||| name == "dist"@
    ||| name == ".next"@
    ||| name == "build"@
    ||| name == ".turbo"@
    ||| name == ".cache"@
    ||| name == ".parcel-cache"@
    ||| name == ".vercel"@
    ||| name == ".svelte-kit"@
    ||| name == "out"@
    ||| name == ".ctx"@
}

/// Whether the component `name` is one of the excluded directory names.
pub fn is_excluded_dir(name: &Vec<char>) -> (r: bool)
    ensures
        r == excluded_dir(name@),
{
    chars_eq_str(name, "node_modules") || chars_eq_str(name, ".git") || chars_eq_str(name, "target")
        || chars_eq_str(name, "dist") || chars_eq_str(name, ".next") || chars_eq_str(name, "build")
        || chars_eq_str(name, ".turbo") || chars_eq_str(name, ".cache") || chars_eq_str(
        name,
        ".parcel-cache",
    ) || chars_eq_str(name, ".vercel") || chars_eq_str(name, ".svelte-kit") || chars_eq_str(
        name,
        "out",
    ) || chars_eq_str(name, ".ctx")
}

/// A path is ignored when any of its components is an excluded directory name.
pub open spec fn spec_is_ignored(p: Seq<char>) -> bool {
    exists|i: int| 0 <= i < spec_components(p).len() && excluded_dir(#[trigger] spec_components(p)[i])
}

/// Whether changes to `path` are ignored.
pub fn is_ignored(path: &str) -> (r: bool)
    ensures
        r == spec_is_ignored(path@),
{
    let cs = components(path);
    let mut i: usize = 0;
    while i < cs.len()
        invariant
            0 <= i <= cs@.len(),
            vv(cs@) == spec_components(path@),
            forall|k: int| 0 <= k < i ==> !excluded_dir(#[trigger] spec_components(path@)[k]),
        decreases cs@.len() - i,
    {
        assert(cs@[i as int]@ == spec_components(path@)[i as int]);
        if is_excluded_dir(&cs[i]) {
            return true;
        }
        i = i + 1;
    }
    false
}

/// A path is ignored exactly when one of its components is one of the
/// junk directory names `node_modules`, `.git`, `target`, `dist`, `.next`,
/// `build`, `.turbo`, `.cache`, `.parcel-cache`, `.vercel`, `.svelte-kit`,
/// `out`, `.ctx`; so a cleaned batch holds no path under any of them, and
/// every other path of the input is in it.
pub proof fn lemma_ignored_exactly_under_junk_dirs(paths: Seq<Seq<char>>, n: int, p: Seq<char>)
    requires
        0 <= n <= paths.len(),
    ensures
        spec_is_ignored(p) <==> exists|i: int|
            0 <= i < spec_components(p).len() && {
                let c = #[trigger] spec_components(p)[i];
                ||| c == "node_modules"@
                ||| c == ".git"@
                ||| c == "target"@
                ||| c == "dist"@
                ||| c == ".next"@
                ||| c == "build"@
                ||| c == ".turbo"@
                ||| c == ".cache"@
                ||| c == ".parcel-cache"@
                ||| c == ".vercel"@
                ||| c == ".svelte-kit"@
                ||| c == "out"@
                ||| c == ".ctx"@
            },
        forall|j: int|
            0 <= j < clean_prefix(paths, n).len() ==> !spec_is_ignored(
                #[trigger] clean_prefix(paths, n)[j],
            ),
        forall|i: int|
            0 <= i < n && !spec_is_ignored(#[trigger] paths[i]) ==> seen_path(
                clean_prefix(paths, n),
                paths[i],
            ),
{
    lemma_clean_batch(paths, n);
}

/// Whether some path in `seen` equals `p` component for component.
pub open spec fn seen_path(seen: Seq<Seq<char>>, p: Seq<char>) -> bool {
    exists|i: int| 0 <= i < seen.len() && spec_components(#[trigger] seen[i]) == spec_components(p)
}

/// The batch made of the first `n` paths: ignored paths dropped, and each
/// path kept only at its first occurrence (by component equality).
pub open spec fn clean_prefix(paths: Seq<Seq<char>>, n: int) -> Seq<Seq<char>>
    decreases n,
{
    if n <= 0 {
        Seq::empty()
    } else {
        let prev = clean_prefix(paths, n - 1);
        let p = paths[n - 1];
        if spec_is_ignored(p) || seen_path(prev, p) {
            prev
        } else {
            prev.push(p)
        }
    }
}

/// Whether `p` is one of the first `n` paths.
pub open spec fn among(paths: Seq<Seq<char>>, n: int, p: Seq<char>) -> bool {
    exists|i: int| 0 <= i < n && #[trigger] paths[i] == p
}

/// A cleaned batch holds no ignored path and no path twice (by component
/// equality); every path it holds was in the input, and every input path
/// that is not ignored is in it.
pub proof fn lemma_clean_batch(paths: Seq<Seq<char>>, n: int)
    requires
        0 <= n <= paths.len(),
    ensures
        ({
            let out = clean_prefix(paths, n);
            &&& forall|j: int| 0 <= j < out.len() ==> !spec_is_ignored(#[trigger] out[j])
            &&& forall|a: int, b: int|
                0 <= a < b < out.len() ==> spec_components(#[trigger] out[a]) != spec_components(
                    #[trigger] out[b],
                )
            &&& forall|j: int| 0 <= j < out.len() ==> among(paths, n, #[trigger] out[j])
            &&& forall|i: int|
                0 <= i < n && !spec_is_ignored(#[trigger] paths[i]) ==> seen_path(out, paths[i])
        }),
    decreases n,
{
    if n > 0 {
        lemma_clean_batch(paths, n - 1);
        let prev = clean_prefix(paths, n - 1);
        let out = clean_prefix(paths, n);
        let p = paths[n - 1];
        assert forall|j: int| 0 <= j < out.len() implies among(paths, n, #[trigger] out[j]) by {
            if j < prev.len() {
                assert(out[j] == prev[j]);
                assert(among(paths, n - 1, prev[j]));
                let i = choose|i: int| 0 <= i < n - 1 && #[trigger] paths[i] == prev[j];
                assert(paths[i] == out[j]);
            } else {
                assert(paths[n - 1] == out[j]);
            }
        }
        assert forall|i: int| 0 <= i < n && !spec_is_ignored(#[trigger] paths[i]) implies seen_path(
            out,
            paths[i],
        ) by {
            if i < n - 1 {
                assert(seen_path(prev, paths[i]));
                let w = choose|w: int|
                    0 <= w < prev.len() && spec_components(#[trigger] prev[w]) == spec_components(
                        paths[i],
                    );
                assert(out[w] == prev[w]);
            } else if !seen_path(prev, p) {
                assert(out[out.len() - 1] == p);
            }
        }
        if !spec_is_ignored(p) && !seen_path(prev, p) {
            assert forall|a: int, b: int|
                0 <= a < b < out.len() implies spec_components(#[trigger] out[a]) != spec_components(
                #[trigger] out[b],
            ) by {
                assert(out[a] == prev[a]);
                if b < prev.len() {
                    assert(out[b] == prev[b]);
                } else {
                    assert(out[b] == p);
                }
            }
            assert forall|j: int| 0 <= j < out.len() implies !spec_is_ignored(#[trigger] out[j]) by {
                if j < prev.len() {
                    assert(out[j] == prev[j]);
                }
            }
        }
    }
}

/// Cleaning a batch that holds no ignored path and no path twice keeps its
/// first `k` paths as they are.
proof fn lemma_clean_prefix_of_clean(out: Seq<Seq<char>>, k: int)
    requires
        0 <= k <= out.len(),
        forall|j: int| 0 <= j < out.len() ==> !spec_is_ignored(#[trigger] out[j]),
        forall|a: int, b: int|
            0 <= a < b < out.len() ==> spec_components(#[trigger] out[a]) != spec_components(
                #[trigger] out[b],
            ),
    ensures
        clean_prefix(out, k) == out.subrange(0, k),
    decreases k,
{
    if k > 0 {
        lemma_clean_prefix_of_clean(out, k - 1);
        let prev = out.subrange(0, k - 1);
        let p = out[k - 1];
        if seen_path(prev, p) {
            let i = choose|i: int|
                0 <= i < prev.len() && spec_components(#[trigger] prev[i]) == spec_components(p);
            assert(prev[i] == out[i]);
            assert(false);
        }
        assert(out.subrange(0, k) =~= prev.push(p));
    }
}

/// Cleaning is idempotent: cleaning a cleaned batch gives it back unchanged.
pub proof fn lemma_clean_batch_idempotent(paths: Seq<Seq<char>>, n: int)
    requires
        0 <= n <= paths.len(),
    ensures
        clean_prefix(clean_prefix(paths, n), clean_prefix(paths, n).len() as int) == clean_prefix(
            paths,
            n,
        ),
{
    lemma_clean_batch(paths, n);
    let out = clean_prefix(paths, n);
    lemma_clean_prefix_of_clean(out, out.len() as int);
    assert(out.subrange(0, out.len() as int) =~= out);
}

/// Whether some path of `seen` equals `p` component for component.
pub fn seen_in(seen: &Vec<String>, p: &str) -> (r: bool)
    ensures
        r == seen_path(sv(seen@), p@),
{
    let mut j: usize = 0;
    while j < seen.len()
        invariant
            0 <= j <= seen@.len(),
            forall|k: int|
                0 <= k < j ==> spec_components(#[trigger] sv(seen@)[k]) != spec_components(p@),
        decreases seen@.len() - j,
    {
        if same_path(seen[j].as_str(), p) {
            assert(spec_components(sv(seen@)[j as int]) == spec_components(p@));
            return true;
        }
        j = j + 1;
    }
    false
}

/// Dedupes a batch of changed paths and drops the ignored ones, keeping the
/// order of first occurrence.
pub fn clean_batch(paths: Vec<String>) -> (r: Vec<String>)
    ensures
        sv(r@) == clean_prefix(sv(paths@), paths@.len() as int),
{
    let mut out: Vec<String> = Vec::new();
    let mut i: usize = 0;
    while i < paths.len()
        invariant
            0 <= i <= paths@.len(),
            sv(out@) == clean_prefix(sv(paths@), i as int),
        decreases paths@.len() - i,
    {
        let p = &paths[i];
        let ghost pv = p@;
        assert(sv(paths@)[i as int] == pv);
        if !is_ignored(p.as_str()) && !seen_in(&out, p.as_str()) {
            let ghost before = sv(out@);
            out.push(p.clone());
            assert(sv(out@) =~= before.push(pv));
        }
        i = i + 1;
    }
    out
}

/// The paths of a round's events, in order.
pub open spec fn event_paths(evs: Seq<Seq<Seq<char>>>) -> Seq<Seq<char>>
    decreases evs.len(),
{
    if evs.len() == 0 {
        Seq::empty()
    } else {
        event_paths(evs.drop_last()) + evs.last()
    }
}

/// The path lists of events, as characters.
pub open spec fn events_view(evs: Seq<Vec<String>>) -> Seq<Seq<Seq<char>>> {
    evs.map_values(|e: Vec<String>| sv(e@))
}

/// Watches a directory tree and hands out debounced batches of changed
/// paths, free of duplicates and of paths in excluded directories.
pub struct Watcher;

impl Watcher {
    /// The batch handed out for one debounced round: the paths of all its
    /// events, in order, cleaned; `None` when nothing is left to hand out.
    pub fn batch(events: Vec<Vec<String>>) -> (r: Option<Vec<String>>)
        ensures
            ({
                let all = event_paths(events_view(events@));
                let cleaned = clean_prefix(all, all.len() as int);
                match r {
                    Some(b) => sv(b@) == cleaned && cleaned.len() > 0,
                    None => cleaned.len() == 0,
                }
            }),
    {
        let ghost ev = events_view(events@);
        let mut paths: Vec<String> = Vec::new();
        let mut i: usize = 0;
        while i < events.len()
            invariant
                0 <= i <= events@.len(),
                ev == events_view(events@),
                sv(paths@) == event_paths(ev.subrange(0, i as int)),
            decreases events@.len() - i,
        {
            let e = &events[i];
            let mut j: usize = 0;
            let ghost before = sv(paths@);
            while j < e.len()
                invariant
                    0 <= j <= e@.len(),
                    sv(paths@) == before + sv(e@).subrange(0, j as int),
                decreases e@.len() - j,
            {
                let ghost before2 = sv(paths@);
                let p = e[j].clone();
                assert(p@ == e@[j as int]@);
                paths.push(p);
                assert(sv(paths@) =~= before2.push(e@[j as int]@));
                assert(sv(e@).subrange(0, j + 1) =~= sv(e@).subrange(0, j as int).push(e@[j as int]@));
                j = j + 1;
                assert(sv(paths@) =~= before + sv(e@).subrange(0, j as int));
            }
            assert(ev.subrange(0, i + 1).drop_last() =~= ev.subrange(0, i as int));
            assert(ev.subrange(0, i + 1).last() == sv(e@));
            assert(sv(e@).subrange(0, e@.len() as int) =~= sv(e@));
            i = i + 1;
        }
        assert(ev.subrange(0, events@.len() as int) =~= ev);
        let cleaned = clean_batch(paths);
        if cleaned.len() == 0 {
            None
        } else {
            Some(cleaned)
        }
    }
}

} // verus!
