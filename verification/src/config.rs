//! Where the indexer keeps its per-repository state, and the version text.

use vstd::prelude::*;

use crate::error::{other_error, CtxError};
use crate::hash::{blake3_digest, spec_hex, ContentHash};
use crate::paths::{join, spec_join};
use crate::text::{chars_of, string_of};
use vstd::string::StringSliceAdditionalSpecFns;
use vstd::utf8::encode_utf8;

verus! {

/// A version text without its leading `v`, if it has one.
pub open spec fn spec_trim_leading_v(s: Seq<char>) -> Seq<char> {
    if s.len() > 0 && s[0] == 'v' {
        s.skip(1)
    } else {
        s
    }
}

/// Drops a leading `v` from a release tag (`v0.1.0` gives `0.1.0`).
pub fn trim_leading_v(s: &str) -> (r: String)
    ensures
        r@ == spec_trim_leading_v(s@),
{
    let cs = chars_of(s);
    if cs.len() > 0 && cs[0] == 'v' {
        let mut out: Vec<char> = Vec::new();
        let mut i: usize = 1;
        while i < cs.len()
            invariant
                1 <= i <= cs@.len(),
                cs@ == s@,
                out@ == cs@.subrange(1, i as int),
            decreases cs@.len() - i,
        {
            out.push(cs[i]);
            i = i + 1;
            assert(out@ =~= cs@.subrange(1, i as int));
        }
        assert(cs@.subrange(1, cs@.len() as int) =~= s@.skip(1));
        string_of(&out)
    } else {
        String::from_str(s)
    }
}

/// `dirs::home_dir`: the current user's home directory, when it can be
/// found, as text. It depends on the environment, so nothing is stated of it.
#[verifier::external_body]
fn home_dir() -> Option<String> {
    dirs::home_dir().map(|p| p.to_string_lossy().into_owned())
}

/// `<home>/.ctx/repos/<hex of the BLAKE3 hash of the repository's path>`.
pub open spec fn spec_per_repo_dir(home: Seq<char>, abs_path: Seq<char>) -> Seq<char> {
    spec_join(
        spec_join(spec_join(home, ".ctx"@), "repos"@),
        spec_hex(blake3_digest(encode_utf8(abs_path))),
    )
}

/// The state directory of the repository at `abs_path` under `home`.
pub fn per_repo_dir_under(home: &str, abs_path: &str) -> (r: String)
    ensures
        r@ == spec_per_repo_dir(home@, abs_path@),
{
    let base = join(home, ".ctx");
    let repos = join(base.as_str(), "repos");
    let hash = ContentHash::of(abs_path.as_bytes());
    let hex = hash.to_hex();
    join(repos.as_str(), hex.as_str())
}

/// The state directory of the repository at `abs_path` under `home`, the
/// home directory as found (`None`: none was found, an `Other` error).
pub fn per_repo_dir_in(home: Option<&str>, abs_path: &str) -> (r: Result<String, CtxError>)
    ensures
        match home {
            Some(h) => r is Ok && r->Ok_0@ == spec_per_repo_dir(h@, abs_path@),
            None => r is Err && r->Err_0 is Other,
        },
{
    match home {
        Some(h) => Ok(per_repo_dir_under(h, abs_path)),
        None => Err(other_error(String::from_str("cannot resolve home directory"))),
    }
}

/// The chunk table's directory under a repository's state directory.
pub open spec fn spec_lance_dir(home: Seq<char>, abs_path: Seq<char>) -> Seq<char> {
    spec_join(spec_per_repo_dir(home, abs_path), "lance"@)
}

/// The reference database's file under a repository's state directory.
pub open spec fn spec_refs_file(home: Seq<char>, abs_path: Seq<char>) -> Seq<char> {
    spec_join(spec_per_repo_dir(home, abs_path), "refs.redb"@)
}

/// The chunk table and the reference database of a repository lie in the
/// same directory: the repository's state directory.
pub proof fn lemma_state_paths_share_the_repo_dir(home: Seq<char>, abs_path: Seq<char>)
    ensures
        spec_lance_dir(home, abs_path) == spec_join(spec_per_repo_dir(home, abs_path), "lance"@),
        spec_refs_file(home, abs_path) == spec_join(spec_per_repo_dir(home, abs_path), "refs.redb"@),
{
}

/// The state directory of the repository at `abs_path`: under the user's
/// home directory, named by the hash of the path. Fails (with an `Other`
/// error) when there is no home directory. The home directory comes from the
/// environment; what holds whatever it is, is stated.
pub fn per_repo_dir(abs_path: &str) -> (r: Result<String, CtxError>)
    ensures
        r matches Ok(p) ==> exists|home: Seq<char>| p@ == spec_per_repo_dir(home, abs_path@),
        r matches Err(e) ==> e is Other,
{
    let home = home_dir();
    let r = match &home {
        Some(h) => per_repo_dir_in(Some(h.as_str()), abs_path),
        None => per_repo_dir_in(None, abs_path),
    };
    r
}

/// The chunk table's directory under `home`, the home directory as found:
/// `<per-repo-dir>/lance` (`None`: no home directory, an `Other` error).
pub fn lance_dir_in(home: Option<&str>, abs_path: &str) -> (r: Result<String, CtxError>)
    ensures
        match home {
            Some(h) => r is Ok && r->Ok_0@ == spec_lance_dir(h@, abs_path@),
            None => r is Err && r->Err_0 is Other,
        },
{
    let dir = match per_repo_dir_in(home, abs_path) {
        Ok(d) => d,
        Err(e) => return Err(e),
    };
    Ok(join(dir.as_str(), "lance"))
}

/// The reference database's file under `home`, the home directory as found:
/// `<per-repo-dir>/refs.redb` (`None`: no home directory, an `Other` error).
pub fn refs_file_in(home: Option<&str>, abs_path: &str) -> (r: Result<String, CtxError>)
    ensures
        match home {
            Some(h) => r is Ok && r->Ok_0@ == spec_refs_file(h@, abs_path@),
            None => r is Err && r->Err_0 is Other,
        },
{
    let dir = match per_repo_dir_in(home, abs_path) {
        Ok(d) => d,
        Err(e) => return Err(e),
    };
    Ok(join(dir.as_str(), "refs.redb"))
}

/// The chunk table's directory: `<per-repo-dir>/lance`, under the home
/// directory the environment gives.
pub fn lance_dir(abs_path: &str) -> (r: Result<String, CtxError>)
    ensures
        r matches Ok(p) ==> exists|home: Seq<char>| p@ == spec_lance_dir(home, abs_path@),
        r matches Err(e) ==> e is Other,
{
    let home = home_dir();
    match &home {
        Some(h) => lance_dir_in(Some(h.as_str()), abs_path),
        None => lance_dir_in(None, abs_path),
    }
}

/// The reference database's file: `<per-repo-dir>/refs.redb`, under the
/// home directory the environment gives.
pub fn refs_file(abs_path: &str) -> (r: Result<String, CtxError>)
    ensures
        r matches Ok(p) ==> exists|home: Seq<char>| p@ == spec_refs_file(home, abs_path@),
        r matches Err(e) ==> e is Other,
{
    let home = home_dir();
    match &home {
        Some(h) => refs_file_in(Some(h.as_str()), abs_path),
        None => refs_file_in(None, abs_path),
    }
}

} // verus!
