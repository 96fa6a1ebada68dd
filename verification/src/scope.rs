//! Scopes (tenant, repo, worktree, branch) and the storage key derived from one.

use vstd::prelude::*;

use crate::error::{other_error, CtxError};
use crate::hash::{blake3_digest, lemma_hex_injective, spec_hex, ContentHash};
use crate::text::{chars_of, contains_char, push_str, str_eq, string_of};
use crate::types::opt_view;
use vstd::string::StringSliceAdditionalSpecFns;
use vstd::utf8::encode_utf8;

verus! {

/// Identity of a repository: the hash of its absolute path.
#[derive(Clone, Debug, PartialEq, Eq, Hash)]
pub struct RepoId(pub ContentHash);

/// Identity of a worktree: the hash of its absolute path.
#[derive(Clone, Debug, PartialEq, Eq, Hash)]
pub struct WorktreeId(pub ContentHash);

/// Where indexed data belongs: a tenant, a repository, one of its worktrees
/// and (optionally) a branch.
#[derive(Clone, Debug, PartialEq, Eq, Hash)]
pub struct Scope {
    pub tenant: String,
    pub repo: RepoId,
    pub worktree: WorktreeId,
    pub branch: Option<String>,
}

/// A path is absolute when it starts at the root `/`.
pub open spec fn spec_is_absolute(p: Seq<char>) -> bool {
    p.len() > 0 && p[0] == '/'
}

/// Whether `p` is an absolute path.
pub fn is_absolute(p: &str) -> (r: bool)
    ensures
        r == spec_is_absolute(p@),
{
    let cs = chars_of(p);
    cs.len() > 0 && cs[0] == '/'
}

impl Scope {
    /// A field-for-field copy.
    pub fn duplicate(&self) -> (r: Scope)
        ensures
            r == *self,
    {
        Scope {
            tenant: self.tenant.clone(),
            repo: RepoId(self.repo.0),
            worktree: WorktreeId(self.worktree.0),
            branch: crate::types::copy_opt_string(&self.branch),
        }
    }

    /// A local scope for a repository and worktree given by absolute paths.
    /// Fails (with an `Other` error) when either path is relative.
    pub fn local(repo_abs: &str, worktree_abs: &str, branch: Option<String>) -> (r: Result<
        Scope,
        CtxError,
    >)
        ensures
            !spec_is_absolute(repo_abs@) ==> r is Err && r->Err_0 is Other,
            spec_is_absolute(repo_abs@) && !spec_is_absolute(worktree_abs@) ==> r is Err
                && r->Err_0 is Other,
            spec_is_absolute(repo_abs@) && spec_is_absolute(worktree_abs@) ==> r is Ok && {
                let s = r->Ok_0;
                &&& s.tenant@ == "local"@
                &&& s.repo.0.0@ == blake3_digest(encode_utf8(repo_abs@))
                &&& s.worktree.0.0@ == blake3_digest(encode_utf8(worktree_abs@))
                &&& s.branch == branch
            },
    {
        if !is_absolute(repo_abs) {
            let mut m: Vec<char> = Vec::new();
            push_str(&mut m, "repo path must be absolute, got: ");
            push_str(&mut m, repo_abs);
            return Err(other_error(string_of(&m)));
        }
        if !is_absolute(worktree_abs) {
            let mut m: Vec<char> = Vec::new();
            push_str(&mut m, "worktree path must be absolute, got: ");
            push_str(&mut m, worktree_abs);
            return Err(other_error(string_of(&m)));
        }
        let repo = ContentHash::of(repo_abs.as_bytes());
        let wt = ContentHash::of(worktree_abs.as_bytes());
        Ok(
            Scope {
                tenant: String::from_str("local"),
                repo: RepoId(repo),
                worktree: WorktreeId(wt),
                branch,
            },
        )
    }
}

/// The text `{:?}` formatting gives a string (quoted and escaped).
pub uninterp spec fn str_debug(s: Seq<char>) -> Seq<char>;

/// `<str as Debug>::fmt` through `format!("{:?}")`.
/// Trusted: the text is `str_debug(s)`, a function of `s` alone.
#[verifier::external_body]
fn debug_text(s: &str) -> (r: String)
    ensures
        r@ == str_debug(s@),
{
    format!("{:?}", s)
}

/// The branch part of a scope key: the branch name, or `_none` without one.
pub open spec fn branch_part(b: Option<Seq<char>>) -> Seq<char> {
    match b {
        Some(name) => name,
        None => "_none"@,
    }
}

/// The error message for a tenant containing `:`.
pub open spec fn tenant_colon_msg(tenant: Seq<char>) -> Seq<char> {
    "scope.tenant must not contain ':': "@ + str_debug(tenant)
}

/// The error message for the reserved branch name `_none`.
pub open spec fn reserved_branch_msg() -> Seq<char> {
    "branch name '_none' is reserved as the scope-key None sentinel"@
}

/// The storage key of a scope: `tenant:repo-hex:worktree-hex:branch`, or the
/// reason the scope has none (a `:` in the tenant, or the branch `_none`).
pub open spec fn spec_scope_key(
    tenant: Seq<char>,
    repo: Seq<u8>,
    worktree: Seq<u8>,
    branch: Option<Seq<char>>,
) -> Result<Seq<char>, Seq<char>> {
    if tenant.contains(':') {
        Err(tenant_colon_msg(tenant))
    } else if branch == Some("_none"@) {
        Err(reserved_branch_msg())
    } else {
        Ok(
            tenant + seq![':'] + spec_hex(repo) + seq![':'] + spec_hex(worktree) + seq![':']
                + branch_part(branch),
        )
    }
}

/// The key of `s`, on views.
pub open spec fn scope_key_of(s: Scope) -> Result<Seq<char>, Seq<char>> {
    spec_scope_key(s.tenant@, s.repo.0.0@, s.worktree.0.0@, opt_view(s.branch))
}

/// The storage key of `scope`; a `Store` error when the scope cannot have one.
pub fn scope_key(scope: &Scope) -> (r: Result<String, CtxError>)
    ensures
        match scope_key_of(*scope) {
            Ok(k) => r is Ok && r->Ok_0@ == k,
            Err(m) => r is Err && r->Err_0 is Store && r->Err_0->Store_0@ == m,
        },
{
    if contains_char(scope.tenant.as_str(), ':') {
        let mut m: Vec<char> = Vec::new();
        push_str(&mut m, "scope.tenant must not contain ':': ");
        let d = debug_text(scope.tenant.as_str());
        push_str(&mut m, d.as_str());
        return Err(CtxError::Store(string_of(&m)));
    }
    let mut out: Vec<char> = Vec::new();
    push_str(&mut out, scope.tenant.as_str());
    out.push(':');
    let rh = scope.repo.0.to_hex();
    push_str(&mut out, rh.as_str());
    out.push(':');
    let wh = scope.worktree.0.to_hex();
    push_str(&mut out, wh.as_str());
    out.push(':');
    match &scope.branch {
        Some(b) => {
            if str_eq(b.as_str(), "_none") {
                let mut m: Vec<char> = Vec::new();
                push_str(
                    &mut m,
                    "branch name '_none' is reserved as the scope-key None sentinel",
                );
                return Err(CtxError::Store(string_of(&m)));
            }
            push_str(&mut out, b.as_str());
        },
        None => {
            push_str(&mut out, "_none");
        },
    }
    proof {
        assert(out@ =~= scope.tenant@ + seq![':'] + spec_hex(scope.repo.0.0@) + seq![':']
            + spec_hex(scope.worktree.0.0@) + seq![':'] + branch_part(opt_view(scope.branch)));
    }
    Ok(string_of(&out))
}

/// Two scopes that have keys have the same key only when they agree in
/// tenant, repository, worktree and branch: keys never collide across scopes.
pub proof fn lemma_scope_key_injective(a: Scope, b: Scope)
    requires
        scope_key_of(a) is Ok,
        scope_key_of(b) is Ok,
        scope_key_of(a) == scope_key_of(b),
    ensures
        a.tenant@ == b.tenant@,
        a.repo == b.repo,
        a.worktree == b.worktree,
        opt_view(a.branch) == opt_view(b.branch),
{
    let ta = a.tenant@;
    let tb = b.tenant@;
    let ka = scope_key_of(a)->Ok_0;
    let ra = spec_hex(a.repo.0.0@);
    let rb = spec_hex(b.repo.0.0@);
    let wa = spec_hex(a.worktree.0.0@);
    let wb = spec_hex(b.worktree.0.0@);
    let ba = branch_part(opt_view(a.branch));
    let bb = branch_part(opt_view(b.branch));
    assert(ra.len() == 64 && rb.len() == 64 && wa.len() == 64 && wb.len() == 64) by {
        assert(a.repo.0.0@.len() == 32);
        assert(b.repo.0.0@.len() == 32);
        assert(a.worktree.0.0@.len() == 32);
        assert(b.worktree.0.0@.len() == 32);
    }
    assert(ka == ta + seq![':'] + ra + seq![':'] + wa + seq![':'] + ba);
    assert(ka == tb + seq![':'] + rb + seq![':'] + wb + seq![':'] + bb);
    // The first `:` ends the tenant in both keys.
    if ta.len() < tb.len() {
        assert(ka[ta.len() as int] == ':');
        assert(ka[ta.len() as int] == tb[ta.len() as int]);
        assert(tb.contains(':'));
        assert(false);
    }
    if tb.len() < ta.len() {
        assert(ka[tb.len() as int] == ':');
        assert(ka[tb.len() as int] == ta[tb.len() as int]);
        assert(ta.contains(':'));
        assert(false);
    }
    assert(ta =~= ka.subrange(0, ta.len() as int));
    assert(tb =~= ka.subrange(0, tb.len() as int));
    let n = ta.len() as int;
    assert(ra =~= ka.subrange(n + 1, n + 65));
    assert(rb =~= ka.subrange(n + 1, n + 65));
    assert(wa =~= ka.subrange(n + 66, n + 130));
    assert(wb =~= ka.subrange(n + 66, n + 130));
    assert(ba =~= ka.subrange(n + 131, ka.len() as int));
    assert(bb =~= ka.subrange(n + 131, ka.len() as int));
    lemma_hex_injective(a.repo.0.0@, b.repo.0.0@);
    lemma_hex_injective(a.worktree.0.0@, b.worktree.0.0@);
    assert(a.repo.0.0 == b.repo.0.0);
    assert(a.worktree.0.0 == b.worktree.0.0);
    match (opt_view(a.branch), opt_view(b.branch)) {
        (Some(x), None) => {
            assert(x == "_none"@);
        },
        (None, Some(y)) => {
            assert(y == "_none"@);
        },
        _ => {},
    }
}

} // verus!
