//! Batches file change events per repository with a timer-based debounce.
//! After two seconds of quiet (no new events), pending changes are flushed.
//!
//! The debouncer holds no clock of its own: callers pass the current time in
//! milliseconds, so every decision is a function of its arguments.

use vstd::prelude::*;

use crate::strutil::str_eq;

verus! {

/// The debounce window in milliseconds.
pub const DEBOUNCE_DELAY_MS: u64 = 2000;

/// What happened to a file on disk.
#[derive(Debug, Clone, Copy, PartialEq, Eq, Structural)]
pub enum FileChangeKind {
    Modified,
    Deleted,
}

/// The pending changes of one repository, as a map from relative path to the
/// latest change kind recorded for it.
pub open spec fn inner_view(s: Seq<(String, FileChangeKind)>) -> Map<Seq<char>, FileChangeKind>
    decreases s.len(),
{
    if s.len() == 0 {
        Map::<Seq<char>, FileChangeKind>::empty()
    } else {
        inner_view(s.drop_last()).insert(s.last().0@, s.last().1)
    }
}

pub open spec fn inner_unique(s: Seq<(String, FileChangeKind)>) -> bool {
    forall|i: int, j: int| 0 <= i < j < s.len() ==> s[i].0@ != s[j].0@
}

/// All pending changes, as a map from repository path to its inner map.
pub open spec fn pending_view(p: Seq<(String, Vec<(String, FileChangeKind)>)>) -> Map<
    Seq<char>,
    Map<Seq<char>, FileChangeKind>,
>
    decreases p.len(),
{
    if p.len() == 0 {
        Map::<Seq<char>, Map<Seq<char>, FileChangeKind>>::empty()
    } else {
        pending_view(p.drop_last()).insert(p.last().0@, inner_view(p.last().1@))
    }
}

pub open spec fn outer_unique(p: Seq<(String, Vec<(String, FileChangeKind)>)>) -> bool {
    forall|i: int, j: int| 0 <= i < j < p.len() ==> p[i].0@ != p[j].0@
}

proof fn lemma_inner_absent(s: Seq<(String, FileChangeKind)>, k: Seq<char>)
    requires
        forall|i: int| 0 <= i < s.len() ==> s[i].0@ != k,
    ensures
        !inner_view(s).contains_key(k),
    decreases s.len(),
{
    if s.len() > 0 {
        lemma_inner_absent(s.drop_last(), k);
    }
}

proof fn lemma_outer_absent(p: Seq<(String, Vec<(String, FileChangeKind)>)>, k: Seq<char>)
    requires
        forall|i: int| 0 <= i < p.len() ==> p[i].0@ != k,
    ensures
        !pending_view(p).contains_key(k),
    decreases p.len(),
{
    if p.len() > 0 {
        lemma_outer_absent(p.drop_last(), k);
    }
}

proof fn lemma_inner_get(s: Seq<(String, FileChangeKind)>, i: int)
    requires
        inner_unique(s),
        0 <= i < s.len(),
    ensures
        inner_view(s).contains_key(s[i].0@),
    decreases s.len(),
{
    if i < s.len() - 1 {
        lemma_inner_get(s.drop_last(), i);
    }
}

proof fn lemma_outer_get(p: Seq<(String, Vec<(String, FileChangeKind)>)>, i: int)
    requires
        outer_unique(p),
        0 <= i < p.len(),
    ensures
        pending_view(p).contains_key(p[i].0@),
        pending_view(p)[p[i].0@] == inner_view(p[i].1@),
    decreases p.len(),
{
    if i < p.len() - 1 {
        lemma_outer_get(p.drop_last(), i);
        assert(p.drop_last()[i] == p[i]);
    }
}

proof fn lemma_inner_update(s: Seq<(String, FileChangeKind)>, i: int, v: FileChangeKind)
    requires
        inner_unique(s),
        0 <= i < s.len(),
    ensures
        inner_view(s.update(i, (s[i].0, v))) == inner_view(s).insert(s[i].0@, v),
    decreases s.len(),
{
    let t = s.update(i, (s[i].0, v));
    if i == s.len() - 1 {
        assert(t.drop_last() =~= s.drop_last());
        assert(inner_view(t) =~= inner_view(s).insert(s[i].0@, v));
    } else {
        lemma_inner_update(s.drop_last(), i, v);
        assert(t.drop_last() =~= s.drop_last().update(i, (s[i].0, v)));
        assert(t.last() == s.last());
        assert(inner_view(t) =~= inner_view(s).insert(s[i].0@, v));
    }
}

proof fn lemma_outer_update(
    p: Seq<(String, Vec<(String, FileChangeKind)>)>,
    i: int,
    v: Vec<(String, FileChangeKind)>,
)
    requires
        outer_unique(p),
        0 <= i < p.len(),
    ensures
        pending_view(p.update(i, (p[i].0, v))) == pending_view(p).insert(p[i].0@, inner_view(v@)),
    decreases p.len(),
{
    let t = p.update(i, (p[i].0, v));
    if i == p.len() - 1 {
        assert(t.drop_last() =~= p.drop_last());
        assert(pending_view(t) =~= pending_view(p).insert(p[i].0@, inner_view(v@)));
    } else {
        lemma_outer_update(p.drop_last(), i, v);
        assert(t.drop_last() =~= p.drop_last().update(i, (p[i].0, v)));
        assert(t.last() == p.last());
        assert(pending_view(t) =~= pending_view(p).insert(p[i].0@, inner_view(v@)));
    }
}

/// What `record` does to the pending map: the repository's inner map gains or
/// overwrites the entry for the file.
pub open spec fn spec_record(
    m: Map<Seq<char>, Map<Seq<char>, FileChangeKind>>,
    repo: Seq<char>,
    rel: Seq<char>,
    kind: FileChangeKind,
) -> Map<Seq<char>, Map<Seq<char>, FileChangeKind>> {
    let inner = if m.contains_key(repo) {
        m[repo]
    } else {
        Map::<Seq<char>, FileChangeKind>::empty()
    };
    m.insert(repo, inner.insert(rel, kind))
}

/// The index of the first entry under the given key, if any.
fn find_key<V>(v: &Vec<(String, V)>, key: &str) -> (r: Option<usize>)
    ensures
        match r {
            Some(i) => i < v@.len() && v@[i as int].0@ == key@,
            None => forall|k: int| 0 <= k < v@.len() ==> v@[k].0@ != key@,
        },
{
    let mut i: usize = 0;
    let n = v.len();
    while i < n
        invariant
            n == v@.len(),
            i <= n,
            forall|k: int| 0 <= k < i ==> v@[k].0@ != key@,
        decreases n - i,
    {
        if str_eq(v[i].0.as_str(), key) {
            return Some(i);
        }
        i = i + 1;
    }
    None
}

/// Batches file change events per repository; flushed after a quiet period.
pub struct Debouncer {
    pub pending: Vec<(String, Vec<(String, FileChangeKind)>)>,
    pub last_event_at: Option<u64>,
}

impl View for Debouncer {
    type V = Map<Seq<char>, Map<Seq<char>, FileChangeKind>>;

    open spec fn view(&self) -> Map<Seq<char>, Map<Seq<char>, FileChangeKind>> {
        pending_view(self.pending@)
    }
}

impl Debouncer {
    /// Entry lists are per-key unique, so the maps they stand for lose
    /// nothing; and anything pending has a timer armed.
    pub open spec fn wf(&self) -> bool {
        &&& outer_unique(self.pending@)
        &&& forall|i: int|
            0 <= i < self.pending@.len() ==> inner_unique(#[trigger] self.pending@[i].1@)
        &&& self.pending@.len() > 0 ==> self.last_event_at is Some
    }

    /// When the last event came in, in milliseconds; nothing pending if none.
    pub open spec fn spec_last_event_at(&self) -> Option<u64> {
        self.last_event_at
    }

    /// True when some change is pending.
    pub open spec fn spec_has_pending(&self) -> bool {
        self.pending@.len() > 0
    }

    /// Milliseconds until the pending changes should flush: the remainder of
    /// the debounce window, zero once it has elapsed, nothing while nothing
    /// is pending.
    pub open spec fn spec_time_until_flush(&self, now_ms: u64) -> Option<u64> {
        match self.last_event_at {
            None => None,
            Some(last) => if self.pending@.len() == 0 {
                None
            } else {
                let elapsed = if now_ms >= last {
                    now_ms - last
                } else {
                    0
                };
                if elapsed >= DEBOUNCE_DELAY_MS as int {
                    Some(0u64)
                } else {
                    Some((DEBOUNCE_DELAY_MS as int - elapsed) as u64)
                }
            },
        }
    }

    pub fn new() -> (r: Debouncer)
        ensures
            r.wf(),
            r@ == Map::<Seq<char>, Map<Seq<char>, FileChangeKind>>::empty(),
            r.spec_last_event_at() is None,
            !r.spec_has_pending(),
    {
        Debouncer { pending: Vec::new(), last_event_at: None }
    }

    /// Records a file change event and resets the debounce timer. A later
    /// kind overrides an earlier one for the same file.
    pub fn record(&mut self, repo_path: &str, rel_path: &str, kind: FileChangeKind, now_ms: u64)
        requires
            old(self).wf(),
        ensures
            final(self).wf(),
            final(self)@ == spec_record(old(self)@, repo_path@, rel_path@, kind),
            final(self).spec_last_event_at() == Some(now_ms),
            final(self).spec_has_pending(),
    {
        let ghost p0 = self.pending@;
        if let Some(ri) = find_key(&self.pending, repo_path) {
            // The repository already has pending changes.
            proof {
                lemma_outer_get(self.pending@, ri as int);
            }
            let mut entry = self.pending.remove(ri);
            let ghost inner0 = entry.1@;
            if let Some(fi) = find_key(&entry.1, rel_path) {
                let key = entry.1[fi].0.clone();
                proof {
                    assert(inner_unique(inner0));
                    lemma_inner_update(inner0, fi as int, kind);
                }
                entry.1.set(fi, (key, kind));
            } else {
                proof {
                    lemma_inner_absent(inner0, rel_path@);
                }
                entry.1.push((rel_path.to_owned(), kind));
                proof {
                    assert(entry.1@.drop_last() =~= inner0);
                }
            }
            let ghost inner1 = entry.1@;
            self.pending.insert(ri, entry);
            proof {
                assert(self.pending@ =~= p0.update(ri as int, (p0[ri as int].0, self.pending@[ri as int].1)));
                lemma_outer_update(p0, ri as int, self.pending@[ri as int].1);
                assert(inner_view(inner1) =~= inner_view(inner0).insert(rel_path@, kind));
                assert(pending_view(self.pending@) =~= spec_record(
                    pending_view(p0),
                    repo_path@,
                    rel_path@,
                    kind,
                ));
                assert forall|a: int, b: int|
                    0 <= a < b < self.pending@.len() implies self.pending@[a].0@
                    != self.pending@[b].0@ by {
                    assert(p0[a] == self.pending@[a] || a == ri);
                    assert(p0[b] == self.pending@[b] || b == ri);
                }
                assert forall|i: int| 0 <= i < self.pending@.len() implies inner_unique(
                    #[trigger] self.pending@[i].1@,
                ) by {
                    if i != ri {
                        assert(self.pending@[i] == p0[i]);
                    }
                }
            }
        } else {
            // First event for this repository.
            proof {
                lemma_outer_absent(p0, repo_path@);
            }
            let mut inner: Vec<(String, FileChangeKind)> = Vec::new();
            inner.push((rel_path.to_owned(), kind));
            let ghost inner_seq = inner@;
            self.pending.push((repo_path.to_owned(), inner));
            proof {
                assert(self.pending@.drop_last() =~= p0);
                assert(self.pending@.last().1@ == inner_seq);
                assert(inner_seq.drop_last() =~= Seq::<(String, FileChangeKind)>::empty());
                assert(inner_view(Seq::<(String, FileChangeKind)>::empty()) =~= Map::<
                    Seq<char>,
                    FileChangeKind,
                >::empty());
                assert(inner_view(self.pending@.last().1@) =~= Map::<
                    Seq<char>,
                    FileChangeKind,
                >::empty().insert(rel_path@, kind));
                assert(pending_view(self.pending@) =~= spec_record(
                    pending_view(p0),
                    repo_path@,
                    rel_path@,
                    kind,
                ));
                assert forall|i: int| 0 <= i < self.pending@.len() implies inner_unique(
                    #[trigger] self.pending@[i].1@,
                ) by {
                    if i < p0.len() {
                        assert(self.pending@[i] == p0[i]);
                    }
                }
            }
        }
        self.last_event_at = Some(now_ms);
    }

    /// The time until the next flush, or nothing while nothing is pending.
    pub fn time_until_flush(&self, now_ms: u64) -> (r: Option<u64>)
        ensures
            r == self.spec_time_until_flush(now_ms),
    {
        match self.last_event_at {
            None => None,
            Some(last) => {
                if self.pending.len() == 0 {
                    None
                } else {
                    let elapsed = if now_ms >= last {
                        now_ms - last
                    } else {
                        0
                    };
                    if elapsed >= DEBOUNCE_DELAY_MS {
                        Some(0)
                    } else {
                        Some(DEBOUNCE_DELAY_MS - elapsed)
                    }
                }
            },
        }
    }

    /// True when pending changes are ready to flush.
    pub fn is_ready(&self, now_ms: u64) -> (r: bool)
        ensures
            r == (self.spec_time_until_flush(now_ms) == Some(0u64)),
    {
        match self.time_until_flush(now_ms) {
            Some(d) => d == 0,
            None => false,
        }
    }

    /// Drains all pending changes, grouped by repository, and rearms the
    /// timer. A later `record` starts a new accumulation.
    pub fn flush(&mut self) -> (r: Vec<(String, Vec<(String, FileChangeKind)>)>)
        requires
            old(self).wf(),
        ensures
            final(self).wf(),
            final(self)@ == Map::<Seq<char>, Map<Seq<char>, FileChangeKind>>::empty(),
            !final(self).spec_has_pending(),
            final(self).spec_last_event_at() is None,
            r@ == old(self).pending@,
            pending_view(r@) == old(self)@,
            outer_unique(r@),
    {
        self.last_event_at = None;
        let mut out: Vec<(String, Vec<(String, FileChangeKind)>)> = Vec::new();
        core::mem::swap(&mut out, &mut self.pending);
        out
    }

    /// True when some change is pending.
    pub fn has_pending(&self) -> (r: bool)
        ensures
            r == self.spec_has_pending(),
    {
        self.pending.len() > 0
    }
}

} // verus!
