//! The indexing tracker's decision core: at most one indexing job per
//! repository at a time. The asynchronous signalling around it — channels,
//! waiters, worker threads — lives outside the library; every decision about
//! who may start and who is running is taken here.

use vstd::prelude::*;

use crate::strutil::str_eq;

verus! {

/// The index of the first entry for a repository path.
pub open spec fn find_tracked(entries: Seq<(String, bool)>, path: Seq<char>, i: int) -> Option<int>
    decreases entries.len() - i,
{
    if !(0 <= i < entries.len()) {
        None
    } else if entries[i].0@ == path {
        Some(i)
    } else {
        find_tracked(entries, path, i + 1)
    }
}

/// A repository is actively indexing: its first entry is not yet done.
pub open spec fn spec_is_indexing(entries: Seq<(String, bool)>, path: Seq<char>) -> bool {
    match find_tracked(entries, path, 0) {
        Some(j) => !entries[j].1,
        None => false,
    }
}

/// Which repositories have an indexing run in flight. Each entry is a path
/// and whether its run has completed.
pub struct IndexingTracker {
    pub entries: Vec<(String, bool)>,
}

impl IndexingTracker {
    /// A tracker with nothing in flight.
    pub fn new() -> (r: IndexingTracker)
        ensures
            r.entries@.len() == 0,
    {
        IndexingTracker { entries: Vec::new() }
    }

    /// True while the repository's run has started and not completed.
    pub fn is_indexing(&self, path: &str) -> (r: bool)
        ensures
            r == spec_is_indexing(self.entries@, path@),
    {
        let n = self.entries.len();
        let mut i: usize = 0;
        while i < n
            invariant
                n == self.entries@.len(),
                i <= n,
                find_tracked(self.entries@, path@, 0) == find_tracked(
                    self.entries@,
                    path@,
                    i as int,
                ),
                forall|k: int| 0 <= k < i ==> (#[trigger] self.entries@[k]).0@ != path@,
            decreases n - i,
        {
            if str_eq(self.entries[i].0.as_str(), path) {
                return !self.entries[i].1;
            }
            i = i + 1;
        }
        false
    }

    /// Claims the repository for one indexing run: refused (false) while a
    /// run is active; otherwise any finished entry is replaced by a fresh
    /// active one.
    pub fn start_indexing(&mut self, path: &str) -> (r: bool)
        ensures
            r == !spec_is_indexing(old(self).entries@, path@),
            r ==> spec_is_indexing(final(self).entries@, path@),
            !r ==> final(self).entries@ == old(self).entries@,
            match find_tracked(old(self).entries@, path@, 0) {
                Some(j) => final(self).entries@ == old(self).entries@.update(
                    j,
                    (final(self).entries@[j].0, !r && old(self).entries@[j].1),
                ) && final(self).entries@[j].0@ == path@,
                None => final(self).entries@ == old(self).entries@.push(
                    (final(self).entries@.last().0, false),
                ) && final(self).entries@.last().0@ == path@,
            },
    {
        let n = self.entries.len();
        let mut i: usize = 0;
        while i < n
            invariant
                n == self.entries@.len(),
                self.entries@ == old(self).entries@,
                i <= n,
                find_tracked(self.entries@, path@, 0) == find_tracked(
                    self.entries@,
                    path@,
                    i as int,
                ),
                forall|k: int| 0 <= k < i ==> (#[trigger] self.entries@[k]).0@ != path@,
            decreases n - i,
        {
            if str_eq(self.entries[i].0.as_str(), path) {
                proof {
                    lemma_find_first_match(self.entries@, path@, i as int);
                }
                if !self.entries[i].1 {
                    return false;
                }
                let key = self.entries[i].0.clone();
                self.entries.set(i, (key, false));
                proof {
                    lemma_find_first_match(self.entries@, path@, i as int);
                }
                return true;
            }
            i = i + 1;
        }
        let ghost before = self.entries@;
        self.entries.push((path.to_owned(), false));
        proof {
            lemma_find_appended(before, path@);
        }
        true
    }

    /// Marks the repository's run as done; without an active run this
    /// changes nothing.
    pub fn complete(&mut self, path: &str)
        ensures
            !spec_is_indexing(final(self).entries@, path@),
            match find_tracked(old(self).entries@, path@, 0) {
                Some(j) => final(self).entries@ == old(self).entries@.update(
                    j,
                    (final(self).entries@[j].0, true),
                ) && final(self).entries@[j].0@ == path@,
                None => final(self).entries@ == old(self).entries@,
            },
    {
        let n = self.entries.len();
        let mut i: usize = 0;
        while i < n
            invariant
                n == self.entries@.len(),
                self.entries@ == old(self).entries@,
                i <= n,
                find_tracked(self.entries@, path@, 0) == find_tracked(
                    self.entries@,
                    path@,
                    i as int,
                ),
                forall|k: int| 0 <= k < i ==> (#[trigger] self.entries@[k]).0@ != path@,
            decreases n - i,
        {
            if str_eq(self.entries[i].0.as_str(), path) {
                proof {
                    lemma_find_first_match(self.entries@, path@, i as int);
                }
                let key = self.entries[i].0.clone();
                self.entries.set(i, (key, true));
                proof {
                    lemma_find_first_match(self.entries@, path@, i as int);
                }
                return;
            }
            i = i + 1;
        }
    }
}

/// An update at the found index is what a later lookup sees.
proof fn lemma_find_first_match(entries: Seq<(String, bool)>, path: Seq<char>, i: int)
    requires
        0 <= i < entries.len(),
        entries[i].0@ == path,
        forall|k: int| 0 <= k < i ==> (#[trigger] entries[k]).0@ != path,
    ensures
        find_tracked(entries, path, 0) == Some(i),
    decreases i,
{
    lemma_find_from(entries, path, 0, i);
}

proof fn lemma_find_from(entries: Seq<(String, bool)>, path: Seq<char>, j: int, i: int)
    requires
        0 <= j <= i < entries.len(),
        entries[i].0@ == path,
        forall|k: int| j <= k < i ==> (#[trigger] entries[k]).0@ != path,
    ensures
        find_tracked(entries, path, j) == Some(i),
    decreases i - j,
{
    if j < i {
        lemma_find_from(entries, path, j + 1, i);
    }
}

proof fn lemma_find_appended(before: Seq<(String, bool)>, path: Seq<char>)
    requires
        forall|k: int| 0 <= k < before.len() ==> (#[trigger] before[k]).0@ != path,
    ensures
        forall|e: (String, bool)|
            e.0@ == path ==> find_tracked(#[trigger] before.push(e), path, 0) == Some(
                before.len() as int,
            ),
{
    assert forall|e: (String, bool)| e.0@ == path implies find_tracked(
        #[trigger] before.push(e),
        path,
        0,
    ) == Some(before.len() as int) by {
        lemma_find_from(before.push(e), path, 0, before.len() as int);
    }
}

} // verus!
