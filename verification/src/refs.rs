//! The decisions of the reference store: which symbol name a query asks for,
//! how new symbols are grouped by name, and what clearing a file's state
//! removes and rewrites.

use vstd::prelude::*;

use crate::error::CtxError;
use crate::hash::ContentHash;
use crate::text::{push_str, str_eq, string_of};
use crate::types::{syms_view, ChunkRef, ChunkRefView, Symbol, SymbolView};

verus! {

/// A question about the symbols of a scope.
#[derive(Clone, Debug)]
pub enum SymbolQuery {
    Definition { name: String },
    References { name: String },
    Callers { name: String },
    /// Not answered yet: a store refuses it with `Unimplemented`.
    ByFile { file: String },
}

/// The symbol name a query looks up; `ByFile` is refused as unimplemented.
pub fn query_name(q: SymbolQuery) -> (r: Result<String, CtxError>)
    ensures
        match q {
            SymbolQuery::Definition { name } => r is Ok && r->Ok_0 == name,
            SymbolQuery::References { name } => r is Ok && r->Ok_0 == name,
            SymbolQuery::Callers { name } => r is Ok && r->Ok_0 == name,
            SymbolQuery::ByFile { .. } => r is Err && r->Err_0 is Unimplemented
                && r->Err_0->Unimplemented_0@ == "ByFile"@,
        },
{
    match q {
        SymbolQuery::Definition { name } | SymbolQuery::References { name }
        | SymbolQuery::Callers { name } => Ok(name),
        SymbolQuery::ByFile { .. } => {
            let mut m: Vec<char> = Vec::new();
            push_str(&mut m, "ByFile");
            Err(CtxError::Unimplemented(string_of(&m)))
        },
    }
}

/// The symbols of `syms` with the given name, in order.
pub open spec fn named(syms: Seq<SymbolView>, name: Seq<char>) -> Seq<SymbolView> {
    syms.filter(|s: SymbolView| s.name == name)
}

/// The symbols of `syms` not in `file`, in order.
pub open spec fn outside_file(syms: Seq<SymbolView>, file: Seq<char>) -> Seq<SymbolView> {
    syms.filter(|s: SymbolView| s.file != file)
}

/// The views of name groups.
pub open spec fn groups_view(g: Seq<(String, Vec<Symbol>)>) -> Seq<(Seq<char>, Seq<SymbolView>)> {
    g.map_values(|e: (String, Vec<Symbol>)| (e.0@, syms_view(e.1@)))
}

/// Every symbol's name has a group.
pub open spec fn names_covered(g: Seq<(Seq<char>, Seq<SymbolView>)>, syms: Seq<SymbolView>) -> bool {
    forall|k: int| 0 <= k < syms.len() ==> has_group(g, (#[trigger] syms[k]).name)
}

/// Some group has the name `name`.
pub open spec fn has_group(g: Seq<(Seq<char>, Seq<SymbolView>)>, name: Seq<char>) -> bool {
    exists|i: int| 0 <= i < g.len() && g[i].0 == name
}

/// Groups symbols by name: one group per distinct name, in order of first
/// appearance, each holding that name's symbols in their input order.
pub fn group_by_name(syms: Vec<Symbol>) -> (r: Vec<(String, Vec<Symbol>)>)
    ensures
        forall|i: int| 0 <= i < r@.len() ==> (#[trigger] groups_view(r@)[i]).1 == named(syms_view(syms@), groups_view(r@)[i].0),
        forall|i: int, j: int| 0 <= i < j < r@.len() ==> groups_view(r@)[i].0 != groups_view(r@)[j].0,
        names_covered(groups_view(r@), syms_view(syms@)),
{
    let ghost sv = syms_view(syms@);
    let mut groups: Vec<(String, Vec<Symbol>)> = Vec::new();
    let mut k: usize = 0;
    while k < syms.len()
        invariant
            0 <= k <= syms@.len(),
            sv == syms_view(syms@),
            forall|i: int| 0 <= i < groups@.len() ==> (#[trigger] groups_view(groups@)[i]).1 == named(sv.subrange(0, k as int), groups_view(groups@)[i].0),
            forall|i: int, j: int| 0 <= i < j < groups@.len() ==> groups_view(groups@)[i].0 != groups_view(groups@)[j].0,
            forall|m: int| 0 <= m < k ==> has_group(groups_view(groups@), (#[trigger] sv[m]).name),
        decreases syms@.len() - k,
    {
        let s = &syms[k];
        let ghost sk = sv[k as int];
        assert(s@ == sk);
        let ghost prefix = sv.subrange(0, k as int);
        let ghost next = sv.subrange(0, k + 1);
        assert(next =~= prefix.push(sk));
        let found = find_group(&groups, s.name.as_str());
        proof {
            assert forall|nm: Seq<char>| #[trigger] named(next, nm) == if nm == sk.name {
                named(prefix, nm).push(sk)
            } else {
                named(prefix, nm)
            } by {
                prefix.lemma_filter_push(sk, |x: SymbolView| x.name == nm);
            }
        }
        if let Some(g) = found {
            let ghost old_g = groups_view(groups@);
            let mut entry = groups.remove(g);
            entry.1.push(s.duplicate());
            groups.insert(g, entry);
            assert forall|i: int| 0 <= i < groups@.len() implies (#[trigger] groups_view(groups@)[i]).1 == named(next, groups_view(groups@)[i].0) by {
                if i == g {
                    assert(groups_view(groups@)[i].0 == sk.name);
                    assert(syms_view(groups@[i].1@) =~= old_g[i].1.push(sk));
                } else {
                    assert(groups_view(groups@)[i] == old_g[i]);
                }
            }
            assert forall|i: int, j: int| 0 <= i < j < groups@.len() implies groups_view(groups@)[i].0 != groups_view(groups@)[j].0 by {
                assert(groups_view(groups@)[i].0 == old_g[i].0);
                assert(groups_view(groups@)[j].0 == old_g[j].0);
            }
            assert forall|m: int| 0 <= m < k + 1 implies has_group(groups_view(groups@), (#[trigger] sv[m]).name) by {
                if m == k {
                    assert(groups_view(groups@)[g as int].0 == sv[m].name);
                } else {
                    assert(has_group(old_g, sv[m].name));
                    let i = choose|i: int| 0 <= i < old_g.len() && old_g[i].0 == sv[m].name;
                    assert(groups_view(groups@)[i].0 == old_g[i].0);
                }
            }
        } else {
            let ghost old_g = groups_view(groups@);
            let mut v: Vec<Symbol> = Vec::new();
            v.push(s.duplicate());
            assert(syms_view(v@) =~= seq![sk]);
            groups.push((s.name.clone(), v));
            assert(groups_view(groups@) =~= old_g.push((sk.name, seq![sk])));
            assert(named(prefix, sk.name) =~= Seq::<SymbolView>::empty()) by {
                if named(prefix, sk.name).len() > 0 {
                    let w = named(prefix, sk.name)[0];
                    assert(named(prefix, sk.name).contains(w));
                    prefix.lemma_filter_pred(|x: SymbolView| x.name == sk.name, 0);
                    prefix.lemma_filter_contains_rev(|x: SymbolView| x.name == sk.name, w);
                    let m = choose|m: int| 0 <= m < prefix.len() && prefix[m] == w;
                    assert(has_group(old_g, sv[m].name));
                    let i = choose|i: int| 0 <= i < old_g.len() && old_g[i].0 == sv[m].name;
                    assert(false);
                }
            }
            assert forall|i: int| 0 <= i < groups@.len() implies (#[trigger] groups_view(groups@)[i]).1 == named(next, groups_view(groups@)[i].0) by {
                if i < old_g.len() {
                    assert(groups_view(groups@)[i] == old_g[i]);
                }
            }
            assert forall|m: int| 0 <= m < k + 1 implies has_group(groups_view(groups@), (#[trigger] sv[m]).name) by {
                if m == k {
                    assert(groups_view(groups@)[old_g.len() as int].0 == sv[m].name);
                } else {
                    assert(has_group(old_g, sv[m].name));
                    let i = choose|i: int| 0 <= i < old_g.len() && old_g[i].0 == sv[m].name;
                    assert(groups_view(groups@)[i].0 == old_g[i].0);
                }
            }
        }
        k = k + 1;
    }
    assert(sv.subrange(0, syms@.len() as int) =~= sv);
    assert(k == syms@.len());
    assert(names_covered(groups_view(groups@), sv));
    groups
}

/// The index of the group named `name`, if there is one.
fn find_group(groups: &Vec<(String, Vec<Symbol>)>, name: &str) -> (r: Option<usize>)
    ensures
        match r {
            Some(g) => g < groups@.len() && groups_view(groups@)[g as int].0 == name@,
            None => forall|i: int| 0 <= i < groups@.len() ==> (#[trigger] groups_view(groups@)[i]).0 != name@,
        },
{
    let mut g: usize = 0;
    while g < groups.len()
        invariant
            0 <= g <= groups@.len(),
            forall|i: int| 0 <= i < g ==> (#[trigger] groups_view(groups@)[i]).0 != name@,
        decreases groups@.len() - g,
    {
        if str_eq(groups[g].0.as_str(), name) {
            return Some(g);
        }
        g = g + 1;
    }
    None
}

} // verus!

verus! {

/// An `ACTIVE` row of a scope: a chunk hash and the reference stored under it.
pub type ActiveRow = (ContentHash, ChunkRef);

/// A `SYMBOLS_BY_NAME` row of a scope: a name and its symbols.
pub type SymbolRow = (String, Vec<Symbol>);

/// What clearing a file's state does to a scope's rows.
#[derive(Clone, Debug)]
pub struct ClearPlan {
    /// Hashes whose `ACTIVE` row references the file: removed.
    pub remove_hashes: Vec<ContentHash>,
    /// Names all of whose symbols are in the file: their rows are removed.
    pub delete_names: Vec<String>,
    /// Names with symbols in other files too: their rows are rewritten with
    /// only those.
    pub updates: Vec<SymbolRow>,
}

/// The hashes of the first `n` active rows whose reference is in `file`.
pub open spec fn hashes_in_file(rows: Seq<(Seq<u8>, ChunkRefView)>, file: Seq<char>, n: int) -> Seq<
    Seq<u8>,
>
    decreases n,
{
    if n <= 0 {
        Seq::empty()
    } else {
        let prev = hashes_in_file(rows, file, n - 1);
        if rows[n - 1].1.file == file {
            prev.push(rows[n - 1].0)
        } else {
            prev
        }
    }
}

/// The rows removed and the rows rewritten, for the first `n` symbol rows.
pub open spec fn symbol_rows_plan(
    rows: Seq<(Seq<char>, Seq<SymbolView>)>,
    file: Seq<char>,
    n: int,
) -> (Seq<Seq<char>>, Seq<(Seq<char>, Seq<SymbolView>)>)
    decreases n,
{
    if n <= 0 {
        (Seq::empty(), Seq::empty())
    } else {
        let prev = symbol_rows_plan(rows, file, n - 1);
        let kept = outside_file(rows[n - 1].1, file);
        if kept.len() == 0 {
            (prev.0.push(rows[n - 1].0), prev.1)
        } else {
            (prev.0, prev.1.push((rows[n - 1].0, kept)))
        }
    }
}

/// Clearing a file leaves none of its symbols: every rewritten row keeps
/// only symbols of other files and is not empty, and every row is either
/// removed or rewritten under its own name, in order.
pub proof fn lemma_clear_leaves_no_symbol_of_file(
    rows: Seq<(Seq<char>, Seq<SymbolView>)>,
    file: Seq<char>,
    n: int,
)
    requires
        0 <= n <= rows.len(),
    ensures
        ({
            let (del, upd) = symbol_rows_plan(rows, file, n);
            &&& forall|j: int, k: int|
                0 <= j < upd.len() && 0 <= k < upd[j].1.len() ==> (#[trigger] upd[j].1[k]).file != file
            &&& forall|j: int| 0 <= j < upd.len() ==> (#[trigger] upd[j]).1.len() > 0
            &&& del.len() + upd.len() == n
        }),
    decreases n,
{
    if n > 0 {
        lemma_clear_leaves_no_symbol_of_file(rows, file, n - 1);
        let prev = symbol_rows_plan(rows, file, n - 1);
        let kept = outside_file(rows[n - 1].1, file);
        let pred = |x: SymbolView| x.file != file;
        assert forall|k: int| 0 <= k < kept.len() implies (#[trigger] kept[k]).file != file by {
            rows[n - 1].1.lemma_filter_pred(pred, k);
        }
        let (del, upd) = symbol_rows_plan(rows, file, n);
        if kept.len() != 0 {
            assert forall|j: int, k: int|
                0 <= j < upd.len() && 0 <= k < upd[j].1.len() implies (#[trigger] upd[j].1[k]).file
                != file by {
                if j < prev.1.len() {
                    assert(upd[j] == prev.1[j]);
                }
            }
            assert forall|j: int| 0 <= j < upd.len() implies (#[trigger] upd[j]).1.len() > 0 by {
                if j < prev.1.len() {
                    assert(upd[j] == prev.1[j]);
                }
            }
        }
    }
}

/// Whether one of the first `n` active rows references `file` under hash `h`.
pub open spec fn file_row_hash(rows: Seq<(Seq<u8>, ChunkRefView)>, file: Seq<char>, n: int, h: Seq<u8>) -> bool {
    exists|i: int| 0 <= i < n && #[trigger] rows[i].1.file == file && rows[i].0 == h
}

/// Clearing a file removes exactly the active rows that reference it: every
/// such row's hash is removed, and every removed hash is such a row's.
pub proof fn lemma_clear_removes_file_refs(rows: Seq<(Seq<u8>, ChunkRefView)>, file: Seq<char>, n: int)
    requires
        0 <= n <= rows.len(),
    ensures
        forall|i: int|
            0 <= i < n && (#[trigger] rows[i]).1.file == file ==> hashes_in_file(rows, file, n).contains(
                rows[i].0,
            ),
        forall|j: int|
            0 <= j < hashes_in_file(rows, file, n).len() ==> file_row_hash(
                rows,
                file,
                n,
                #[trigger] hashes_in_file(rows, file, n)[j],
            ),
    decreases n,
{
    if n > 0 {
        lemma_clear_removes_file_refs(rows, file, n - 1);
        let prev = hashes_in_file(rows, file, n - 1);
        let cur = hashes_in_file(rows, file, n);
        assert forall|i: int| 0 <= i < n && (#[trigger] rows[i]).1.file == file implies cur.contains(
            rows[i].0,
        ) by {
            if i < n - 1 {
                assert(prev.contains(rows[i].0));
                let w = choose|w: int| 0 <= w < prev.len() && prev[w] == rows[i].0;
                if rows[n - 1].1.file == file {
                    assert(cur[w] == prev[w]);
                }
            } else {
                assert(cur[cur.len() - 1] == rows[n - 1].0);
            }
        }
        assert forall|j: int| 0 <= j < cur.len() implies file_row_hash(rows, file, n, #[trigger] cur[j]) by {
            if j < prev.len() {
                assert(cur[j] == prev[j]);
                assert(file_row_hash(rows, file, n - 1, prev[j]));
                let i = choose|i: int| 0 <= i < n - 1 && #[trigger] rows[i].1.file == file && rows[i].0 == prev[j];
                assert(rows[i].1.file == file);
            } else {
                assert(rows[n - 1].1.file == file);
                assert(rows[n - 1].0 == cur[j]);
            }
        }
    }
}

/// Filtering by two predicates that agree on every element gives the same
/// sequence.
proof fn lemma_filter_agree<A>(s: Seq<A>, p: spec_fn(A) -> bool, q: spec_fn(A) -> bool, n: int)
    requires
        0 <= n <= s.len(),
        forall|i: int| 0 <= i < s.len() ==> p(#[trigger] s[i]) == q(s[i]),
    ensures
        s.subrange(0, n).filter(p) == s.subrange(0, n).filter(q),
    decreases n,
{
    if n == 0 {
        s.subrange(0, 0).lemma_filter_len(p);
        s.subrange(0, 0).lemma_filter_len(q);
        assert(s.subrange(0, 0).filter(p) =~= s.subrange(0, 0).filter(q));
    } else {
        lemma_filter_agree(s, p, q, n - 1);
        let t = s.subrange(0, n - 1);
        assert(s.subrange(0, n) =~= t.push(s[n - 1]));
        t.lemma_filter_push(s[n - 1], p);
        t.lemma_filter_push(s[n - 1], q);
    }
}

/// The rows of `rows` whose hash is not in `removed`, in order.
pub open spec fn without_hashes(rows: Seq<(Seq<u8>, ChunkRefView)>, removed: Seq<Seq<u8>>) -> Seq<
    (Seq<u8>, ChunkRefView),
> {
    rows.filter(|r: (Seq<u8>, ChunkRefView)| !removed.contains(r.0))
}

/// The rows of `rows` that reference a file other than `file`, in order.
pub open spec fn rows_of_other_files(rows: Seq<(Seq<u8>, ChunkRefView)>, file: Seq<char>) -> Seq<
    (Seq<u8>, ChunkRefView),
> {
    rows.filter(|r: (Seq<u8>, ChunkRefView)| r.1.file != file)
}

/// Clearing a file keeps exactly the active rows of the other files, in
/// order: removing the planned hashes from a scope's rows (one row per hash,
/// as the table keys them) leaves the rows that reference other files.
pub proof fn lemma_clear_keeps_other_files(rows: Seq<(Seq<u8>, ChunkRefView)>, file: Seq<char>)
    requires
        forall|a: int, b: int| 0 <= a < b < rows.len() ==> (#[trigger] rows[a]).0 != (#[trigger] rows[b]).0,
    ensures
        without_hashes(rows, hashes_in_file(rows, file, rows.len() as int)) == rows_of_other_files(
            rows,
            file,
        ),
{
    let n = rows.len() as int;
    lemma_clear_removes_file_refs(rows, file, n);
    let removed = hashes_in_file(rows, file, n);
    let p = |r: (Seq<u8>, ChunkRefView)| !removed.contains(r.0);
    let q = |r: (Seq<u8>, ChunkRefView)| r.1.file != file;
    assert forall|i: int| 0 <= i < rows.len() implies p(#[trigger] rows[i]) == q(rows[i]) by {
        if rows[i].1.file == file {
            assert(removed.contains(rows[i].0));
        } else if removed.contains(rows[i].0) {
            let j = choose|j: int| 0 <= j < removed.len() && removed[j] == rows[i].0;
            assert(file_row_hash(rows, file, n, removed[j]));
            let m = choose|m: int| 0 <= m < n && #[trigger] rows[m].1.file == file && rows[m].0 == removed[j];
            if m < i {
                assert(rows[m].0 != rows[i].0);
            } else if i < m {
                assert(rows[i].0 != rows[m].0);
            }
            assert(false);
        }
    }
    lemma_filter_agree(rows, p, q, n);
    assert(rows.subrange(0, n) =~= rows);
}

/// What clearing a file does to each symbol row, exactly: a row all of
/// whose symbols are in the file is removed, any other row is rewritten with
/// the symbols of the other files, in order; and nothing else is removed or
/// rewritten.
pub proof fn lemma_clear_symbol_rows_exact(
    rows: Seq<(Seq<char>, Seq<SymbolView>)>,
    file: Seq<char>,
    n: int,
)
    requires
        0 <= n <= rows.len(),
    ensures
        ({
            let (del, upd) = symbol_rows_plan(rows, file, n);
            &&& forall|i: int|
                0 <= i < n && outside_file((#[trigger] rows[i]).1, file).len() == 0 ==> del.contains(
                    rows[i].0,
                )
            &&& forall|i: int|
                0 <= i < n && outside_file((#[trigger] rows[i]).1, file).len() > 0 ==> upd.contains(
                    (rows[i].0, outside_file(rows[i].1, file)),
                )
            &&& forall|j: int|
                0 <= j < del.len() ==> exists|i: int|
                    0 <= i < n && (#[trigger] rows[i]).0 == #[trigger] del[j] && outside_file(
                        rows[i].1,
                        file,
                    ).len() == 0
            &&& forall|j: int|
                0 <= j < upd.len() ==> exists|i: int|
                    0 <= i < n && #[trigger] upd[j] == (
                        (#[trigger] rows[i]).0,
                        outside_file(rows[i].1, file),
                    ) && outside_file(rows[i].1, file).len() > 0
        }),
    decreases n,
{
    if n > 0 {
        lemma_clear_symbol_rows_exact(rows, file, n - 1);
        let prev = symbol_rows_plan(rows, file, n - 1);
        let (del, upd) = symbol_rows_plan(rows, file, n);
        let r = rows[n - 1];
        let kept = outside_file(r.1, file);
        if kept.len() == 0 {
            assert(del =~= prev.0.push(r.0));
            assert(upd == prev.1);
            assert forall|i: int|
                0 <= i < n && outside_file((#[trigger] rows[i]).1, file).len() == 0 implies del.contains(
                rows[i].0,
            ) by {
                if i < n - 1 {
                    assert(prev.0.contains(rows[i].0));
                    let w = choose|w: int| 0 <= w < prev.0.len() && prev.0[w] == rows[i].0;
                    assert(del[w] == prev.0[w]);
                } else {
                    assert(del[del.len() - 1] == r.0);
                }
            }
            assert forall|j: int| 0 <= j < del.len() implies exists|i: int|
                0 <= i < n && (#[trigger] rows[i]).0 == #[trigger] del[j] && outside_file(
                    rows[i].1,
                    file,
                ).len() == 0 by {
                if j < prev.0.len() {
                    assert(del[j] == prev.0[j]);
                    let i = choose|i: int|
                        0 <= i < n - 1 && (#[trigger] rows[i]).0 == #[trigger] prev.0[j]
                            && outside_file(rows[i].1, file).len() == 0;
                    assert(rows[i].0 == del[j]);
                } else {
                    assert(rows[n - 1].0 == del[j]);
                }
            }
            assert forall|j: int| 0 <= j < upd.len() implies exists|i: int|
                0 <= i < n && #[trigger] upd[j] == ((#[trigger] rows[i]).0, outside_file(rows[i].1, file))
                    && outside_file(rows[i].1, file).len() > 0 by {
                let i = choose|i: int|
                    0 <= i < n - 1 && #[trigger] prev.1[j] == ((#[trigger] rows[i]).0, outside_file(
                        rows[i].1,
                        file,
                    )) && outside_file(rows[i].1, file).len() > 0;
                assert(upd[j] == (rows[i].0, outside_file(rows[i].1, file)));
            }
        } else {
            assert(upd =~= prev.1.push((r.0, kept)));
            assert(del == prev.0);
            assert forall|i: int|
                0 <= i < n && outside_file((#[trigger] rows[i]).1, file).len() > 0 implies upd.contains(
                (rows[i].0, outside_file(rows[i].1, file)),
            ) by {
                if i < n - 1 {
                    assert(prev.1.contains((rows[i].0, outside_file(rows[i].1, file))));
                    let w = choose|w: int|
                        0 <= w < prev.1.len() && prev.1[w] == (rows[i].0, outside_file(rows[i].1, file));
                    assert(upd[w] == prev.1[w]);
                } else {
                    assert(upd[upd.len() - 1] == (r.0, kept));
                }
            }
            assert forall|j: int| 0 <= j < upd.len() implies exists|i: int|
                0 <= i < n && #[trigger] upd[j] == ((#[trigger] rows[i]).0, outside_file(rows[i].1, file))
                    && outside_file(rows[i].1, file).len() > 0 by {
                if j < prev.1.len() {
                    assert(upd[j] == prev.1[j]);
                    let i = choose|i: int|
                        0 <= i < n - 1 && #[trigger] prev.1[j] == ((#[trigger] rows[i]).0, outside_file(
                            rows[i].1,
                            file,
                        )) && outside_file(rows[i].1, file).len() > 0;
                    assert(upd[j] == (rows[i].0, outside_file(rows[i].1, file)));
                } else {
                    assert(upd[j] == (rows[n - 1].0, outside_file(rows[n - 1].1, file)));
                }
            }
            assert forall|j: int| 0 <= j < del.len() implies exists|i: int|
                0 <= i < n && (#[trigger] rows[i]).0 == #[trigger] del[j] && outside_file(
                    rows[i].1,
                    file,
                ).len() == 0 by {
                let i = choose|i: int|
                    0 <= i < n - 1 && (#[trigger] rows[i]).0 == #[trigger] prev.0[j] && outside_file(
                        rows[i].1,
                        file,
                    ).len() == 0;
                assert(rows[i].0 == del[j]);
            }
        }
    }
}

/// The symbols stored under a name after new ones are added: those already
/// stored, then the new ones (duplicates are kept).
pub fn merge_symbols(prior: Option<Vec<Symbol>>, new: Vec<Symbol>) -> (r: Vec<Symbol>)
    ensures
        syms_view(r@) == match prior {
            Some(p) => syms_view(p@) + syms_view(new@),
            None => syms_view(new@),
        },
{
    match prior {
        Some(mut p) => {
            let ghost a = syms_view(p@);
            let mut n = new;
            let ghost b = syms_view(n@);
            p.append(&mut n);
            assert(syms_view(p@) =~= a + b);
            p
        },
        None => new,
    }
}

/// What a scope holds under `name` once `syms` are added to what it held
/// (`prior`, `None` for no row): the symbols already stored, then the new
/// ones with that name in input order, duplicates kept.
pub open spec fn upserted(prior: Option<Seq<SymbolView>>, syms: Seq<SymbolView>, name: Seq<char>) -> Seq<
    SymbolView,
> {
    match prior {
        Some(p) => p + named(syms, name),
        None => named(syms, name),
    }
}

/// Adding symbols appends, name by name. With the symbols grouped as
/// `group_by_name` groups them, merging a group into what its name held
/// (as `merge_symbols` does) gives what the name holds afterwards; and a
/// name with no group gains no symbol, so leaving its row as it was is
/// right too.
pub proof fn lemma_upsert_appends(
    syms: Seq<SymbolView>,
    groups: Seq<(Seq<char>, Seq<SymbolView>)>,
    prior: Option<Seq<SymbolView>>,
    name: Seq<char>,
)
    requires
        forall|i: int| 0 <= i < groups.len() ==> (#[trigger] groups[i]).1 == named(syms, groups[i].0),
        names_covered(groups, syms),
    ensures
        forall|i: int|
            0 <= i < groups.len() && (#[trigger] groups[i]).0 == name ==> match prior {
                Some(p) => p + groups[i].1,
                None => groups[i].1,
            } == upserted(prior, syms, name),
        !has_group(groups, name) ==> upserted(prior, syms, name) == match prior {
            Some(p) => p,
            None => Seq::<SymbolView>::empty(),
        },
{
    if !has_group(groups, name) {
        let f = named(syms, name);
        if f.len() > 0 {
            let w = f[0];
            syms.lemma_filter_pred(|x: SymbolView| x.name == name, 0);
            syms.lemma_filter_contains_rev(|x: SymbolView| x.name == name, w);
            let m = choose|m: int| 0 <= m < syms.len() && syms[m] == w;
            assert(has_group(groups, syms[m].name));
            assert(false);
        }
        assert(f =~= Seq::<SymbolView>::empty());
        match prior {
            Some(p) => assert(p + f =~= p),
            None => {},
        }
    }
}

/// The views of active rows.
pub open spec fn active_view(rows: Seq<ActiveRow>) -> Seq<(Seq<u8>, ChunkRefView)> {
    rows.map_values(|r: ActiveRow| (r.0.0@, r.1@))
}

/// The symbols of `syms` that are not in `file`, in order.
pub fn keep_outside_file(syms: &Vec<Symbol>, file: &str) -> (r: Vec<Symbol>)
    ensures
        syms_view(r@) == outside_file(syms_view(syms@), file@),
{
    let ghost sv = syms_view(syms@);
    let mut out: Vec<Symbol> = Vec::new();
    let mut i: usize = 0;
    while i < syms.len()
        invariant
            0 <= i <= syms@.len(),
            sv == syms_view(syms@),
            syms_view(out@) == outside_file(sv.subrange(0, i as int), file@),
        decreases syms@.len() - i,
    {
        let s = &syms[i];
        assert(sv.subrange(0, i + 1) =~= sv.subrange(0, i as int).push(s@));
        proof {
            sv.subrange(0, i as int).lemma_filter_push(s@, |x: SymbolView| x.file != file@);
        }
        if !str_eq(s.file.as_str(), file) {
            let ghost before = syms_view(out@);
            out.push(s.duplicate());
            assert(syms_view(out@) =~= before.push(s@));
        }
        i = i + 1;
    }
    assert(sv.subrange(0, syms@.len() as int) =~= sv);
    out
}

/// What clearing `file` removes and rewrites, given a scope's active rows and
/// symbol rows: the active rows referencing the file go; each name loses the
/// symbols in the file, its row going when none are left.
pub fn plan_clear(active: &Vec<ActiveRow>, symbol_rows: &Vec<SymbolRow>, file: &str) -> (r: ClearPlan)
    ensures
        r.remove_hashes@.map_values(|h: ContentHash| h.0@) == hashes_in_file(
            active_view(active@),
            file@,
            active@.len() as int,
        ),
        r.delete_names@.map_values(|s: String| s@) == symbol_rows_plan(
            groups_view(symbol_rows@),
            file@,
            symbol_rows@.len() as int,
        ).0,
        groups_view(r.updates@) == symbol_rows_plan(
            groups_view(symbol_rows@),
            file@,
            symbol_rows@.len() as int,
        ).1,
{
    let ghost av = active_view(active@);
    let mut remove: Vec<ContentHash> = Vec::new();
    let mut i: usize = 0;
    while i < active.len()
        invariant
            0 <= i <= active@.len(),
            av == active_view(active@),
            remove@.map_values(|h: ContentHash| h.0@) == hashes_in_file(av, file@, i as int),
        decreases active@.len() - i,
    {
        let row = &active[i];
        assert(av[i as int] == (row.0.0@, row.1@));
        if str_eq(row.1.file.as_str(), file) {
            let ghost before = remove@.map_values(|h: ContentHash| h.0@);
            remove.push(row.0);
            assert(remove@.map_values(|h: ContentHash| h.0@) =~= before.push(row.0.0@));
        }
        i = i + 1;
    }
    let ghost gv = groups_view(symbol_rows@);
    let mut deletes: Vec<String> = Vec::new();
    let mut updates: Vec<SymbolRow> = Vec::new();
    let mut j: usize = 0;
    while j < symbol_rows.len()
        invariant
            0 <= j <= symbol_rows@.len(),
            gv == groups_view(symbol_rows@),
            deletes@.map_values(|s: String| s@) == symbol_rows_plan(gv, file@, j as int).0,
            groups_view(updates@) == symbol_rows_plan(gv, file@, j as int).1,
        decreases symbol_rows@.len() - j,
    {
        let row = &symbol_rows[j];
        assert(gv[j as int] == (row.0@, syms_view(row.1@)));
        let kept = keep_outside_file(&row.1, file);
        if kept.len() == 0 {
            let ghost before = deletes@.map_values(|s: String| s@);
            deletes.push(row.0.clone());
            assert(deletes@.map_values(|s: String| s@) =~= before.push(row.0@));
        } else {
            let ghost before = groups_view(updates@);
            let ghost kv = syms_view(kept@);
            updates.push((row.0.clone(), kept));
            assert(groups_view(updates@) =~= before.push((row.0@, kv)));
        }
        j = j + 1;
    }
    ClearPlan { remove_hashes: remove, delete_names: deletes, updates }
}

} // verus!
