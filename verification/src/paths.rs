//! Where a repository's index database lives: under the platform cache
//! directory, named by the hash of the repository's absolute path.

use vstd::prelude::*;

use crate::hasher::{hash_bytes, sha256_hex};

verus! {

/// The database file name stem of a repository: the first sixteen hex
/// characters of the SHA-256 of its absolute path.
pub open spec fn spec_db_stem(repo_path: Seq<char>) -> Seq<char> {
    sha256_hex(vstd::utf8::encode_utf8(repo_path)).take(16)
}

/// The database file name stem of a repository path.
pub fn db_file_stem(repo_path: &str) -> (r: String)
    ensures
        r@ == spec_db_stem(repo_path@),
{
    let bytes = repo_path.as_bytes();
    let hash = hash_bytes(bytes);
    let stem = hash.as_str().substring_char(0, 16);
    proof {
        assert(stem@ =~= spec_db_stem(repo_path@));
    }
    stem.to_owned()
}

/// The database path under a given base directory:
/// `<base>/ctxhelpr/<stem>.db`.
pub open spec fn spec_db_path(base: Seq<char>, repo_path: Seq<char>) -> Seq<char> {
    base + "/ctxhelpr/"@ + spec_db_stem(repo_path) + ".db"@
}

/// Builds the database path under a base directory.
pub fn db_path_in(base: &str, repo_path: &str) -> (r: String)
    ensures
        r@ == spec_db_path(base@, repo_path@),
{
    let mut out = base.to_owned();
    out.append("/ctxhelpr/");
    let stem = db_file_stem(repo_path);
    out.append(stem.as_str());
    out.append(".db");
    proof {
        assert(out@ =~= spec_db_path(base@, repo_path@));
    }
    out
}

/// Relies on dirs' `cache_dir`: the platform cache directory, which depends
/// on the machine and environment; nothing when the platform defines none or
/// the path is not UTF-8.
#[verifier::external_body]
fn cache_dir_string() -> Option<String> {
    dirs::cache_dir().and_then(|d| d.to_str().map(|s| s.to_string()))
}

/// Relies on std's `Path::exists`: whether something exists on disk at the
/// path now; the answer depends on the filesystem.
#[verifier::external_body]
fn path_exists(p: &str) -> bool {
    std::path::Path::new(p).exists()
}

/// The database path of a repository, under the platform cache directory or
/// `/tmp` without one.
pub fn db_path_for_repo(repo_path: &str) -> (r: String)
    ensures
        exists|base: Seq<char>| r@ == spec_db_path(base, repo_path@),
{
    let base = match cache_dir_string() {
        Some(d) => d,
        None => {
            let mut t = String::new();
            t.append("/tmp");
            t
        },
    };
    let r = db_path_in(base.as_str(), repo_path);
    proof {
        assert(r@ == spec_db_path(base@, repo_path@));
    }
    r
}

/// True when a database file for the repository exists on disk; the answer
/// depends on the filesystem.
pub fn has_index_db(repo_path: &str) -> bool {
    let p = db_path_for_repo(repo_path);
    path_exists(p.as_str())
}

} // verus!
