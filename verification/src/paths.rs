//! Unix path arithmetic on UTF-8 path strings: components, component-wise
//! equality and prefix, joining, file name and extension.

use vstd::prelude::*;

use crate::text::{chars_eq, chars_of, copy_chars, push_str, string_of};

verus! {

/// The views of a list of character vectors.
pub open spec fn vv(v: Seq<Vec<char>>) -> Seq<Seq<char>> {
    v.map_values(|x: Vec<char>| x@)
}

/// The views of a list of strings.
pub open spec fn sv(v: Seq<String>) -> Seq<Seq<char>> {
    v.map_values(|x: String| x@)
}

/// A finished run of non-`/` characters as a component: empty runs and `.`
/// runs give none.
pub open spec fn emit(cur: Seq<char>) -> Seq<Seq<char>> {
    if cur.len() == 0 || cur == seq!['.'] {
        Seq::empty()
    } else {
        seq![cur]
    }
}

/// The components of `p` when the characters `cur` precede it in the run
/// being read.
pub open spec fn runs_from(p: Seq<char>, cur: Seq<char>) -> Seq<Seq<char>>
    decreases p.len(),
{
    if p.len() == 0 {
        emit(cur)
    } else if p[0] == '/' {
        emit(cur) + runs_from(p.drop_first(), Seq::empty())
    } else {
        runs_from(p.drop_first(), cur.push(p[0]))
    }
}

/// Whether a relative path starts with a `.` component (`.` or `./...`).
pub open spec fn leads_with_dot(p: Seq<char>) -> bool {
    p.len() >= 1 && p[0] == '.' && (p.len() == 1 || p[1] == '/')
}

/// The components of a Unix path, as `std::path::Path::components` yields
/// them: `/` for the root, `.` for a leading current-directory component,
/// then every non-empty part between separators other than `.`.
pub open spec fn spec_components(p: Seq<char>) -> Seq<Seq<char>> {
    (if p.len() > 0 && p[0] == '/' {
        seq![seq!['/']]
    } else if leads_with_dot(p) {
        seq![seq!['.']]
    } else {
        Seq::empty()
    }) + runs_from(p, Seq::empty())
}

/// The components of `p`.
pub fn components(p: &str) -> (r: Vec<Vec<char>>)
    ensures
        vv(r@) == spec_components(p@),
{
    let cs = chars_of(p);
    let mut out: Vec<Vec<char>> = Vec::new();
    if cs.len() > 0 && cs[0] == '/' {
        let mut root: Vec<char> = Vec::new();
        root.push('/');
        out.push(root);
    } else if cs.len() >= 1 && cs[0] == '.' && (cs.len() == 1 || cs[1] == '/') {
        let mut dot: Vec<char> = Vec::new();
        dot.push('.');
        out.push(dot);
    }
    let ghost head = vv(out@);
    assert(head == (if p@.len() > 0 && p@[0] == '/' {
        seq![seq!['/']]
    } else if leads_with_dot(p@) {
        seq![seq!['.']]
    } else {
        Seq::<Seq<char>>::empty()
    }));
    let mut cur: Vec<char> = Vec::new();
    let mut i: usize = 0;
    assert(cs@.skip(0) =~= cs@);
    while i < cs.len()
        invariant
            0 <= i <= cs@.len(),
            cs@ == p@,
            vv(out@) + runs_from(cs@.skip(i as int), cur@) == head + runs_from(
                cs@,
                Seq::empty(),
            ),
        decreases cs@.len() - i,
    {
        let c = cs[i];
        let ghost rest = cs@.skip(i as int);
        assert(rest[0] == c);
        assert(rest.drop_first() =~= cs@.skip(i + 1));
        if c == '/' {
            let ghost before = vv(out@);
            if cur.len() > 0 && !(cur.len() == 1 && cur[0] == '.') {
                let done = copy_chars(&cur);
                out.push(done);
                assert(vv(out@) =~= before + seq![cur@]);
                assert(emit(cur@) == seq![cur@]);
            } else {
                assert(cur@.len() == 0 || cur@ =~= seq!['.']);
                assert(emit(cur@) == Seq::<Seq<char>>::empty());
                assert(vv(out@) =~= before + emit(cur@));
            }
            assert(vv(out@) + runs_from(cs@.skip(i + 1), Seq::empty()) =~= before + (emit(cur@)
                + runs_from(rest.drop_first(), Seq::empty())));
            cur = Vec::new();
        } else {
            cur.push(c);
        }
        i = i + 1;
    }
    assert(cs@.skip(i as int) =~= Seq::<char>::empty());
    let ghost before = vv(out@);
    let ghost cv = cur@;
    if cur.len() > 0 && !(cur.len() == 1 && cur[0] == '.') {
        out.push(cur);
        assert(vv(out@) =~= before + emit(cv));
    } else {
        assert(cur@.len() == 0 || cur@ =~= seq!['.']);
        assert(vv(out@) =~= before + emit(cur@));
    }
    out
}

/// Whether two lists of components are equal.
pub fn same_components(a: &Vec<Vec<char>>, b: &Vec<Vec<char>>) -> (r: bool)
    ensures
        r == (vv(a@) == vv(b@)),
{
    if a.len() != b.len() {
        assert(vv(a@).len() != vv(b@).len());
        return false;
    }
    let mut i: usize = 0;
    while i < a.len()
        invariant
            0 <= i <= a@.len(),
            a@.len() == b@.len(),
            forall|k: int| 0 <= k < i ==> a@[k]@ == b@[k]@,
        decreases a@.len() - i,
    {
        if !chars_eq(&a[i], &b[i]) {
            assert(vv(a@)[i as int] != vv(b@)[i as int]);
            return false;
        }
        i = i + 1;
    }
    assert(vv(a@) =~= vv(b@));
    true
}

/// Whether `p` and `q` name the same path component for component
/// (`Path` equality: `a//b` and `a/b/` equal `a/b`).
pub fn same_path(p: &str, q: &str) -> (r: bool)
    ensures
        r == (spec_components(p@) == spec_components(q@)),
{
    let a = components(p);
    let b = components(q);
    same_components(&a, &b)
}

/// Whether the components of `base` are a prefix of those of `p`.
pub open spec fn spec_starts_with(p: Seq<char>, base: Seq<char>) -> bool {
    let a = spec_components(p);
    let b = spec_components(base);
    b.len() <= a.len() && a.subrange(0, b.len() as int) == b
}

/// `Path::starts_with`: whether `base` is a component-wise prefix of `p`.
pub fn starts_with(p: &str, base: &str) -> (r: bool)
    ensures
        r == spec_starts_with(p@, base@),
{
    let a = components(p);
    let b = components(base);
    if b.len() > a.len() {
        return false;
    }
    let mut i: usize = 0;
    while i < b.len()
        invariant
            0 <= i <= b@.len(),
            b@.len() <= a@.len(),
            vv(a@) == spec_components(p@),
            vv(b@) == spec_components(base@),
            forall|k: int| 0 <= k < i ==> a@[k]@ == b@[k]@,
        decreases b@.len() - i,
    {
        if !chars_eq(&a[i], &b[i]) {
            assert(vv(a@).subrange(0, b@.len() as int)[i as int] != vv(b@)[i as int]);
            return false;
        }
        i = i + 1;
    }
    assert(vv(a@).subrange(0, b@.len() as int) =~= vv(b@));
    true
}

/// `PathBuf::join` of a relative `rel` onto `base`: a `/` goes between them
/// unless `base` is empty or already ends with one.
pub open spec fn spec_join(base: Seq<char>, rel: Seq<char>) -> Seq<char> {
    if base.len() > 0 && base.last() != '/' {
        base + seq!['/'] + rel
    } else {
        base + rel
    }
}

/// Joins the relative path `rel` onto `base`.
pub fn join(base: &str, rel: &str) -> (r: String)
    ensures
        r@ == spec_join(base@, rel@),
{
    let b = chars_of(base);
    let mut out: Vec<char> = Vec::new();
    push_str(&mut out, base);
    if b.len() > 0 && b[b.len() - 1] != '/' {
        out.push('/');
    }
    push_str(&mut out, rel);
    string_of(&out)
}

/// The last component of a path when it is a name (not `/`, `.` or `..`).
pub open spec fn spec_file_name(p: Seq<char>) -> Option<Seq<char>> {
    let cs = spec_components(p);
    if cs.len() == 0 {
        None
    } else {
        let last = cs.last();
        if last == seq!['/'] || last == seq!['.'] || last == seq!['.', '.'] {
            None
        } else {
            Some(last)
        }
    }
}

/// The index of the last `.` in `s` at or before index `j`.
pub open spec fn last_dot_upto(s: Seq<char>, j: int) -> Option<int>
    decreases j + 1,
{
    if j < 0 {
        None
    } else if s[j] == '.' {
        Some(j)
    } else {
        last_dot_upto(s, j - 1)
    }
}

/// The extension of a file name: the text after its last `.`, unless the
/// name has no `.`, or its only `.` is its first character.
pub open spec fn name_extension(name: Seq<char>) -> Option<Seq<char>> {
    match last_dot_upto(name, name.len() - 1) {
        None => None,
        Some(k) => if k == 0 {
            None
        } else {
            Some(name.subrange(k + 1, name.len() as int))
        },
    }
}

/// `Path::extension` of a Unix path.
pub open spec fn spec_extension(p: Seq<char>) -> Option<Seq<char>> {
    match spec_file_name(p) {
        None => None,
        Some(name) => name_extension(name),
    }
}

/// The extension of the path `p`.
pub fn extension(p: &str) -> (r: Option<Vec<char>>)
    ensures
        match spec_extension(p@) {
            Some(e) => r is Some && r->Some_0@ == e,
            None => r is None,
        },
{
    let cs = components(p);
    if cs.len() == 0 {
        return None;
    }
    let last = &cs[cs.len() - 1];
    let ghost lv = last@;
    assert(lv == spec_components(p@).last());
    if (last.len() == 1 && (last[0] == '/' || last[0] == '.')) || (last.len() == 2 && last[0]
        == '.' && last[1] == '.') {
        assert(lv == seq!['/'] || lv == seq!['.'] || lv == seq!['.', '.']);
        return None;
    }
    assert(!(lv =~= seq!['/']) && !(lv =~= seq!['.']) && !(lv =~= seq!['.', '.']));
    assert(spec_file_name(p@) == Some(lv));
    // Find the last '.'.
    let mut j: usize = last.len();
    while j > 0
        invariant
            0 <= j <= lv.len(),
            last@ == lv,
            spec_file_name(p@) == Some(lv),
            forall|k: int| j <= k < lv.len() ==> lv[k] != '.',
            last_dot_upto(lv, lv.len() - 1) == last_dot_upto(lv, j - 1),
        decreases j,
    {
        if last[j - 1] == '.' {
            let k = j - 1;
            assert(last_dot_upto(lv, k as int) == Some(k as int));
            if k == 0 {
                return None;
            }
            let mut e: Vec<char> = Vec::new();
            let mut t: usize = k + 1;
            while t < last.len()
                invariant
                    k + 1 <= t <= lv.len(),
                    last@ == lv,
                    spec_file_name(p@) == Some(lv),
                    last_dot_upto(lv, lv.len() - 1) == Some(k as int),
                    e@ == lv.subrange(k + 1, t as int),
                decreases lv.len() - t,
            {
                e.push(last[t]);
                t = t + 1;
                assert(e@ =~= lv.subrange(k + 1, t as int));
            }
            return Some(e);
        }
        j = j - 1;
    }
    None
}

} // verus!
