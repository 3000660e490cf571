//! Per-repository configuration values and the per-repo config cache. The
//! merged files themselves are read and parsed outside the library; the
//! cache decides which loaded value a repository uses.

use vstd::prelude::*;

use crate::strutil::str_eq;

verus! {

/// Output shaping limits.
#[derive(Debug)]
pub struct OutputConfig {
    /// Max tokens for responses; none means unlimited.
    pub max_tokens: Option<usize>,
    /// Max signature length before truncation.
    pub truncate_signatures: usize,
    /// Max doc comment length in brief views.
    pub truncate_doc_comments: usize,
}

/// Search limits.
#[derive(Debug)]
pub struct SearchConfig {
    /// Max search results returned.
    pub max_results: usize,
}

/// Indexer limits.
#[derive(Debug)]
pub struct IndexerConfig {
    /// Patterns of paths to ignore during indexing.
    pub ignore: Vec<String>,
    /// Max file size in bytes; larger files are skipped.
    pub max_file_size: u64,
}

/// One repository's effective configuration.
#[derive(Debug)]
pub struct Config {
    pub output: OutputConfig,
    pub search: SearchConfig,
    pub indexer: IndexerConfig,
}

impl Default for OutputConfig {
    fn default() -> (r: OutputConfig)
        ensures
            r.max_tokens is None,
            r.truncate_signatures == 120,
            r.truncate_doc_comments == 100,
    {
        OutputConfig { max_tokens: None, truncate_signatures: 120, truncate_doc_comments: 100 }
    }
}

impl Default for SearchConfig {
    fn default() -> (r: SearchConfig)
        ensures
            r.max_results == 20,
    {
        SearchConfig { max_results: 20 }
    }
}

impl Default for IndexerConfig {
    fn default() -> (r: IndexerConfig)
        ensures
            r.ignore@.len() == 0,
            r.max_file_size == 1048576,
    {
        IndexerConfig { ignore: Vec::new(), max_file_size: 1048576 }
    }
}

impl Default for Config {
    fn default() -> (r: Config)
        ensures
            r.output.max_tokens is None,
            r.output.truncate_signatures == 120,
            r.output.truncate_doc_comments == 100,
            r.search.max_results == 20,
            r.indexer.ignore@.len() == 0,
            r.indexer.max_file_size == 1048576,
    {
        Config {
            output: OutputConfig {
                max_tokens: None,
                truncate_signatures: 120,
                truncate_doc_comments: 100,
            },
            search: SearchConfig { max_results: 20 },
            indexer: IndexerConfig { ignore: Vec::new(), max_file_size: 1048576 },
        }
    }
}

fn clone_string_vec(v: &Vec<String>) -> (r: Vec<String>)
    ensures
        r@ == v@,
{
    let mut out: Vec<String> = Vec::new();
    let n = v.len();
    let mut i: usize = 0;
    while i < n
        invariant
            n == v@.len(),
            i <= n,
            out@.len() == i,
            forall|k: int| 0 <= k < i ==> out@[k] == v@[k],
        decreases n - i,
    {
        out.push(v[i].clone());
        i = i + 1;
    }
    proof {
        assert(out@ =~= v@);
    }
    out
}

fn clone_opt_usize(o: &Option<usize>) -> (r: Option<usize>)
    ensures
        r == *o,
{
    match o {
        Some(x) => Some(*x),
        None => None,
    }
}

/// Two configurations hold the same values.
pub open spec fn cfg_eq(a: Config, b: Config) -> bool {
    a.output == b.output && a.search == b.search && a.indexer.max_file_size
        == b.indexer.max_file_size && a.indexer.ignore@ == b.indexer.ignore@
}

impl Config {
    /// A value-for-value copy.
    pub fn duplicate(&self) -> (r: Config)
        ensures
            cfg_eq(r, *self),
    {
        let r = Config {
            output: OutputConfig {
                max_tokens: clone_opt_usize(&self.output.max_tokens),
                truncate_signatures: self.output.truncate_signatures,
                truncate_doc_comments: self.output.truncate_doc_comments,
            },
            search: SearchConfig { max_results: self.search.max_results },
            indexer: IndexerConfig {
                ignore: clone_string_vec(&self.indexer.ignore),
                max_file_size: self.indexer.max_file_size,
            },
        };
        proof {
            assert(r.output == self.output);
            assert(r.search == self.search);
        }
        r
    }
}

/// The index of the first cached entry for a repository path.
pub open spec fn find_cached(entries: Seq<(String, Config)>, path: Seq<char>, i: int) -> Option<
    int,
>
    decreases entries.len() - i,
{
    if !(0 <= i < entries.len()) {
        None
    } else if entries[i].0@ == path {
        Some(i)
    } else {
        find_cached(entries, path, i + 1)
    }
}

/// A cache of per-repository configurations; loading is the caller's part,
/// remembering what a repository uses is the cache's.
pub struct ConfigCache {
    pub entries: Vec<(String, Config)>,
}

impl ConfigCache {
    /// An empty cache.
    pub fn new() -> (r: ConfigCache)
        ensures
            r.entries@.len() == 0,
    {
        ConfigCache { entries: Vec::new() }
    }

    /// The configuration a repository uses: the cached one when present,
    /// otherwise the freshly loaded one handed in, which is remembered.
    pub fn get(&mut self, repo_path: &str, loaded: Config) -> (r: Config)
        ensures
            match find_cached(old(self).entries@, repo_path@, 0) {
                Some(j) => cfg_eq(r, old(self).entries@[j].1) && final(self).entries@ == old(
                    self,
                ).entries@,
                None => cfg_eq(r, loaded) && final(self).entries@ == old(self).entries@.push(
                    (final(self).entries@.last().0, loaded),
                ) && final(self).entries@.last().0@ == repo_path@,
            },
    {
        let n = self.entries.len();
        let mut i: usize = 0;
        while i < n
            invariant
                n == self.entries@.len(),
                self.entries@ == old(self).entries@,
                i <= n,
                find_cached(self.entries@, repo_path@, 0) == find_cached(
                    self.entries@,
                    repo_path@,
                    i as int,
                ),
            decreases n - i,
        {
            if str_eq(self.entries[i].0.as_str(), repo_path) {
                return self.entries[i].1.duplicate();
            }
            i = i + 1;
        }
        let out = loaded.duplicate();
        self.entries.push((repo_path.to_owned(), loaded));
        out
    }
}

} // verus!
