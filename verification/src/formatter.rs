//! The compact formatter's verified core: its limits and the path
//! deduplication table the JSON rendering uses.

use vstd::prelude::*;

use crate::config::OutputConfig;
use crate::strutil::str_eq;

verus! {

/// The size limits compact output is rendered under.
#[derive(Debug)]
pub struct CompactFormatter {
    pub max_sig_len: usize,
    pub max_doc_brief_len: usize,
}

impl CompactFormatter {
    /// A formatter with the configured truncation limits.
    pub fn new(config: &OutputConfig) -> (r: CompactFormatter)
        ensures
            r.max_sig_len == config.truncate_signatures,
            r.max_doc_brief_len == config.truncate_doc_comments,
    {
        CompactFormatter {
            max_sig_len: config.truncate_signatures,
            max_doc_brief_len: config.truncate_doc_comments,
        }
    }
}

/// The index of the first occurrence of a path, at or after `i`.
pub open spec fn find_path(ps: Seq<Seq<char>>, p: Seq<char>, i: int) -> Option<int>
    decreases ps.len() - i,
{
    if !(0 <= i < ps.len()) {
        None
    } else if ps[i] == p {
        Some(i)
    } else {
        find_path(ps, p, i + 1)
    }
}

/// A deduplicated table of file paths: each distinct path appears once, at
/// the index it first received.
#[derive(Debug)]
pub struct PathIndex {
    pub paths: Vec<String>,
}

impl PathIndex {
    /// An empty table.
    pub fn new() -> (r: PathIndex)
        ensures
            r.paths@.len() == 0,
    {
        PathIndex { paths: Vec::new() }
    }

    /// The index of a path, handing a known path its first index and a new
    /// one the next free slot.
    pub fn index(&mut self, path: &str) -> (r: usize)
        ensures
            match find_path(old(self).paths.deep_view(), path@, 0) {
                Some(j) => r as int == j && final(self).paths@ == old(self).paths@,
                None => r as int == old(self).paths@.len() && final(self).paths.deep_view() == old(
                    self,
                ).paths.deep_view().push(path@),
            },
    {
        let n = self.paths.len();
        let mut i: usize = 0;
        while i < n
            invariant
                n == self.paths@.len(),
                self.paths@ == old(self).paths@,
                i <= n,
                find_path(self.paths.deep_view(), path@, 0) == find_path(
                    self.paths.deep_view(),
                    path@,
                    i as int,
                ),
            decreases n - i,
        {
            proof {
                assert(self.paths.deep_view()[i as int] == self.paths@[i as int]@);
            }
            if str_eq(self.paths[i].as_str(), path) {
                return i;
            }
            i = i + 1;
        }
        let ghost before = self.paths.deep_view();
        self.paths.push(path.to_owned());
        proof {
            assert(self.paths.deep_view() =~= before.push(path@));
        }
        n
    }

    /// How many distinct paths the table holds.
    pub fn len(&self) -> (r: usize)
        ensures
            r == self.paths@.len(),
    {
        self.paths.len()
    }

    /// The table as a list, in first-seen order.
    pub fn into_list(self) -> (r: Vec<String>)
        ensures
            r@ == self.paths@,
    {
        self.paths
    }
}

} // verus!
