//! The per-repository symbol store: repository, file, symbol and reference
//! tables with an incremental upsert/delete pipeline and name-based
//! reference resolution. Every operation's effect is stated exactly over a
//! mathematical model of the tables.

use vstd::prelude::*;

use crate::strutil::{str_eq, str_starts_with};
use crate::symbols::{SpecRef, SpecSymbol};
use crate::tokenizer::{spec_tokenize, split_code_identifier};

verus! {

broadcast use vstd::std_specs::vec::axiom_vec_decreases_to_view;

/// Why a store operation was refused.
#[derive(Debug, Clone, Copy, PartialEq, Eq, Structural)]
pub enum StoreError {
    /// The store already belongs to a different repository path.
    RepoMismatch,
    /// The id space is exhausted.
    Full,
    /// No repository row matches the path.
    NotIndexed,
    /// No symbol has the requested id.
    SymbolNotFound,
}

/// One repository row. A store holds at most one.
#[derive(Debug)]
pub struct RepoRow {
    pub id: i64,
    pub abs_path: String,
    pub last_indexed_at: Option<String>,
}

/// One file row.
#[derive(Debug)]
pub struct FileRecord {
    pub id: i64,
    pub repo_id: i64,
    pub rel_path: String,
    pub content_hash: String,
    pub language: String,
    pub last_indexed_at: String,
}

/// One symbol row.
#[derive(Debug)]
pub struct SymbolRecord {
    pub id: i64,
    pub file_id: i64,
    pub repo_id: i64,
    pub name: String,
    pub kind: String,
    pub signature: Option<String>,
    pub doc_comment: Option<String>,
    pub start_line: i64,
    pub end_line: i64,
    pub file_rel_path: String,
    pub parent_symbol_id: Option<i64>,
    pub name_tokens: String,
}

/// One stored reference edge.
#[derive(Debug)]
pub struct StoredRef {
    pub from_symbol_id: i64,
    pub to_symbol_id: Option<i64>,
    pub to_name: String,
    pub ref_kind: String,
    pub line: i64,
}

/// A reference row joined back to its from-symbol, as queries return it.
#[derive(Debug)]
pub struct RefRecord {
    pub from_symbol_id: i64,
    pub from_name: Option<String>,
    pub from_file: Option<String>,
    pub to_symbol_id: Option<i64>,
    pub to_name: String,
    pub ref_kind: String,
    pub line: Option<i64>,
}

// ── The mathematical model ──

pub ghost struct SpecRepoRow {
    pub id: int,
    pub abs_path: Seq<char>,
    pub last_indexed_at: Option<Seq<char>>,
}

pub ghost struct SpecFileRow {
    pub id: int,
    pub repo_id: int,
    pub rel_path: Seq<char>,
    pub content_hash: Seq<char>,
    pub language: Seq<char>,
    pub last_indexed_at: Seq<char>,
}

pub ghost struct SpecSymbolRow {
    pub id: int,
    pub file_id: int,
    pub repo_id: int,
    pub name: Seq<char>,
    pub kind: Seq<char>,
    pub signature: Option<Seq<char>>,
    pub doc_comment: Option<Seq<char>>,
    pub start_line: int,
    pub end_line: int,
    pub file_rel_path: Seq<char>,
    pub parent_symbol_id: Option<int>,
    pub name_tokens: Seq<char>,
}

pub ghost struct SpecRefRow {
    pub from_symbol_id: int,
    pub to_symbol_id: Option<int>,
    pub to_name: Seq<char>,
    pub ref_kind: Seq<char>,
    pub line: int,
}

pub ghost struct StoreModel {
    pub repo: Option<SpecRepoRow>,
    pub files: Seq<SpecFileRow>,
    pub symbols: Seq<SpecSymbolRow>,
    pub refs: Seq<SpecRefRow>,
    pub next_file_id: int,
    pub next_symbol_id: int,
}

pub open spec fn opt_str_view(o: Option<String>) -> Option<Seq<char>> {
    match o {
        Some(s) => Some(s@),
        None => None,
    }
}

pub open spec fn opt_id_view(o: Option<i64>) -> Option<int> {
    match o {
        Some(i) => Some(i as int),
        None => None,
    }
}

pub open spec fn repo_view(r: RepoRow) -> SpecRepoRow {
    SpecRepoRow {
        id: r.id as int,
        abs_path: r.abs_path@,
        last_indexed_at: opt_str_view(r.last_indexed_at),
    }
}

pub open spec fn file_view(f: FileRecord) -> SpecFileRow {
    SpecFileRow {
        id: f.id as int,
        repo_id: f.repo_id as int,
        rel_path: f.rel_path@,
        content_hash: f.content_hash@,
        language: f.language@,
        last_indexed_at: f.last_indexed_at@,
    }
}

pub open spec fn symbol_view(s: SymbolRecord) -> SpecSymbolRow {
    SpecSymbolRow {
        id: s.id as int,
        file_id: s.file_id as int,
        repo_id: s.repo_id as int,
        name: s.name@,
        kind: s.kind@,
        signature: opt_str_view(s.signature),
        doc_comment: opt_str_view(s.doc_comment),
        start_line: s.start_line as int,
        end_line: s.end_line as int,
        file_rel_path: s.file_rel_path@,
        parent_symbol_id: opt_id_view(s.parent_symbol_id),
        name_tokens: s.name_tokens@,
    }
}

pub open spec fn ref_row_view(r: StoredRef) -> SpecRefRow {
    SpecRefRow {
        from_symbol_id: r.from_symbol_id as int,
        to_symbol_id: opt_id_view(r.to_symbol_id),
        to_name: r.to_name@,
        ref_kind: r.ref_kind@,
        line: r.line as int,
    }
}

pub open spec fn files_view(fs: Seq<FileRecord>) -> Seq<SpecFileRow> {
    fs.map_values(|f: FileRecord| file_view(f))
}

pub open spec fn symbols_view(ss: Seq<SymbolRecord>) -> Seq<SpecSymbolRow> {
    ss.map_values(|s: SymbolRecord| symbol_view(s))
}

pub open spec fn refs_rows_view(rs: Seq<StoredRef>) -> Seq<SpecRefRow> {
    rs.map_values(|r: StoredRef| ref_row_view(r))
}

/// The in-memory store of one repository's index.
pub struct Store {
    pub repo: Option<RepoRow>,
    pub files: Vec<FileRecord>,
    pub symbols: Vec<SymbolRecord>,
    pub refs: Vec<StoredRef>,
    pub next_file_id: i64,
    pub next_symbol_id: i64,
}

impl View for Store {
    type V = StoreModel;

    open spec fn view(&self) -> StoreModel {
        StoreModel {
            repo: match self.repo {
                Some(r) => Some(repo_view(r)),
                None => None,
            },
            files: files_view(self.files@),
            symbols: symbols_view(self.symbols@),
            refs: refs_rows_view(self.refs@),
            next_file_id: self.next_file_id as int,
            next_symbol_id: self.next_symbol_id as int,
        }
    }
}

// ── Model search helpers ──

/// The index of the first file row with this repo and path, at or after `i`.
pub open spec fn find_file_from(fs: Seq<SpecFileRow>, repo_id: int, rel: Seq<char>, i: int) -> Option<
    int,
>
    decreases fs.len() - i,
{
    if !(0 <= i < fs.len()) {
        None
    } else if fs[i].repo_id == repo_id && fs[i].rel_path == rel {
        Some(i)
    } else {
        find_file_from(fs, repo_id, rel, i + 1)
    }
}

/// The index of the first symbol row with this id, at or after `i`.
pub open spec fn find_symbol_from(ss: Seq<SpecSymbolRow>, id: int, i: int) -> Option<int>
    decreases ss.len() - i,
{
    if !(0 <= i < ss.len()) {
        None
    } else if ss[i].id == id {
        Some(i)
    } else {
        find_symbol_from(ss, id, i + 1)
    }
}

// ── Well-formedness: the invariants of §the data model ──

/// Every symbol row points at an existing file row whose path and repository
/// it repeats; its `name_tokens` are the tokenizer's output for its name; its
/// parent, when set, is a symbol of the same file. Every reference's from-id
/// is a symbol; a resolved reference points at a symbol of the same
/// repository whose name is the reference's target name.
pub open spec fn model_wf(m: StoreModel) -> bool {
    &&& forall|i: int|
        0 <= i < m.symbols.len() ==> exists|j: int|
            0 <= j < m.files.len() && (#[trigger] m.files[j]).id == (#[trigger] m.symbols[i]).file_id
                && m.files[j].rel_path == m.symbols[i].file_rel_path && m.files[j].repo_id
                == m.symbols[i].repo_id
    &&& forall|i: int|
        0 <= i < m.symbols.len() ==> (#[trigger] m.symbols[i]).name_tokens == spec_tokenize(
            m.symbols[i].name,
        )
    &&& forall|i: int|
        0 <= i < m.symbols.len() ==> ((#[trigger] m.symbols[i]).parent_symbol_id matches Some(p)
            ==> exists|j: int|
                0 <= j < m.symbols.len() && (#[trigger] m.symbols[j]).id == p && m.symbols[j].file_id
                    == m.symbols[i].file_id)
    &&& forall|i: int|
        0 <= i < m.refs.len() ==> exists|j: int|
            0 <= j < m.symbols.len() && (#[trigger] m.symbols[j]).id == (#[trigger] m.refs[i]).from_symbol_id
    &&& forall|i: int|
        0 <= i < m.refs.len() ==> ((#[trigger] m.refs[i]).to_symbol_id matches Some(t)
            ==> exists|j: int, k: int|
                0 <= j < m.symbols.len() && (#[trigger] m.symbols[j]).id == t && m.symbols[j].name
                    == m.refs[i].to_name && 0 <= k < m.symbols.len() && (#[trigger] m.symbols[k]).id
                    == m.refs[i].from_symbol_id && m.symbols[k].repo_id == m.symbols[j].repo_id)
    &&& forall|i: int| 0 <= i < m.symbols.len() ==> 0 <= (#[trigger] m.symbols[i]).id < m.next_symbol_id
    &&& forall|i: int| 0 <= i < m.files.len() ==> 0 <= (#[trigger] m.files[i]).id < m.next_file_id
    &&& 0 <= m.next_symbol_id <= i64::MAX
    &&& 0 <= m.next_file_id <= i64::MAX
}

// ── Operations ──

/// What `ensure_repo` does: creates the single repository row on first call;
/// repeats its id thereafter; refuses a different path.
pub open spec fn spec_ensure_repo(m: StoreModel, abs_path: Seq<char>) -> Result<
    (StoreModel, int),
    StoreError,
> {
    match m.repo {
        Some(r) => if r.abs_path == abs_path {
            Ok((m, r.id))
        } else {
            Err(StoreError::RepoMismatch)
        },
        None => Ok(
            (
                StoreModel {
                    repo: Some(SpecRepoRow { id: 1, abs_path, last_indexed_at: None }),
                    ..m
                },
                1,
            ),
        ),
    }
}

/// What `upsert_file` does: updates the hash, language and timestamp of the
/// existing row for `(repo_id, rel_path)`, or appends a fresh row under a new
/// id; refuses only when the id space is exhausted.
pub open spec fn spec_upsert_file(
    m: StoreModel,
    repo_id: int,
    rel: Seq<char>,
    hash: Seq<char>,
    language: Seq<char>,
    now: Seq<char>,
) -> Result<(StoreModel, int), StoreError> {
    match find_file_from(m.files, repo_id, rel, 0) {
        Some(i) => {
            let row = SpecFileRow {
                id: m.files[i].id,
                repo_id,
                rel_path: rel,
                content_hash: hash,
                language,
                last_indexed_at: now,
            };
            Ok((StoreModel { files: m.files.update(i, row), ..m }, m.files[i].id))
        },
        None => {
            if m.next_file_id >= i64::MAX {
                Err(StoreError::Full)
            } else {
                let row = SpecFileRow {
                    id: m.next_file_id,
                    repo_id,
                    rel_path: rel,
                    content_hash: hash,
                    language,
                    last_indexed_at: now,
                };
                Ok(
                    (
                        StoreModel {
                            files: m.files.push(row),
                            next_file_id: m.next_file_id + 1,
                            ..m
                        },
                        m.next_file_id,
                    ),
                )
            }
        },
    }
}

/// A line number clamped into an `i64` column.
pub open spec fn clamp_line(x: int) -> int {
    if x > i64::MAX {
        i64::MAX as int
    } else {
        x
    }
}

fn line_i64(x: usize) -> (r: i64)
    ensures
        r as int == clamp_line(x as int),
{
    if (x as u64) > (i64::MAX as u64) {
        i64::MAX
    } else {
        x as i64
    }
}

/// The symbol rows kept when a file's symbols are cleared.
pub open spec fn keep_symbols(ss: Seq<SpecSymbolRow>, fid: int) -> Seq<SpecSymbolRow>
    decreases ss.len(),
{
    if ss.len() == 0 {
        Seq::<SpecSymbolRow>::empty()
    } else {
        keep_symbols(ss.drop_last(), fid) + (if ss.last().file_id != fid {
            seq![ss.last()]
        } else {
            Seq::<SpecSymbolRow>::empty()
        })
    }
}

/// A reference survives while its from-symbol does: looked up by id in the
/// symbol rows, it must exist and sit outside the cleared file.
pub open spec fn ref_survives(r: SpecRefRow, ss: Seq<SpecSymbolRow>, fid: int) -> bool {
    match find_symbol_from(ss, r.from_symbol_id, 0) {
        Some(j) => ss[j].file_id != fid,
        None => false,
    }
}

/// The reference rows kept when a file's symbols are cleared.
pub open spec fn keep_refs(rs: Seq<SpecRefRow>, ss: Seq<SpecSymbolRow>, fid: int) -> Seq<
    SpecRefRow,
>
    decreases rs.len(),
{
    if rs.len() == 0 {
        Seq::<SpecRefRow>::empty()
    } else {
        keep_refs(rs.drop_last(), ss, fid) + (if ref_survives(rs.last(), ss, fid) {
            seq![rs.last()]
        } else {
            Seq::<SpecRefRow>::empty()
        })
    }
}

/// The file rows kept when a file is deleted.
pub open spec fn keep_files(fs: Seq<SpecFileRow>, fid: int) -> Seq<SpecFileRow>
    decreases fs.len(),
{
    if fs.len() == 0 {
        Seq::<SpecFileRow>::empty()
    } else {
        keep_files(fs.drop_last(), fid) + (if fs.last().id != fid {
            seq![fs.last()]
        } else {
            Seq::<SpecFileRow>::empty()
        })
    }
}

/// What `clear_file_symbols` does: the file's symbol rows go, and with them
/// every reference whose from-symbol they held.
pub open spec fn spec_clear_file_symbols(m: StoreModel, fid: int) -> StoreModel {
    StoreModel {
        symbols: keep_symbols(m.symbols, fid),
        refs: keep_refs(m.refs, m.symbols, fid),
        ..m
    }
}

/// What `delete_file` does: `clear_file_symbols`, then the file row itself.
pub open spec fn spec_delete_file(m: StoreModel, fid: int) -> StoreModel {
    StoreModel { files: keep_files(m.files, fid), ..spec_clear_file_symbols(m, fid) }
}

/// A duplicate reference row (same from, target name, kind and line) is
/// already present at or after `i`.
pub open spec fn ref_dup_from(
    rs: Seq<SpecRefRow>,
    from: int,
    name: Seq<char>,
    kind: Seq<char>,
    line: int,
    i: int,
) -> bool
    decreases rs.len() - i,
{
    if !(0 <= i < rs.len()) {
        false
    } else if rs[i].from_symbol_id == from && rs[i].to_name == name && rs[i].ref_kind == kind
        && rs[i].line == line {
        true
    } else {
        ref_dup_from(rs, from, name, kind, line, i + 1)
    }
}

/// The reference table after inserting a symbol's outgoing references, in
/// order, each unresolved, exact duplicates dropped.
pub open spec fn spec_add_refs(rs: Seq<SpecRefRow>, from: int, refs: Seq<SpecRef>) -> Seq<
    SpecRefRow,
>
    decreases refs.len(),
{
    if refs.len() == 0 {
        rs
    } else {
        let prev = spec_add_refs(rs, from, refs.drop_last());
        let r = refs.last();
        let kind = crate::symbols::spec_ref_kind_str(r.kind);
        if ref_dup_from(prev, from, r.name, kind, clamp_line(r.line), 0) {
            prev
        } else {
            prev.push(
                SpecRefRow {
                    from_symbol_id: from,
                    to_symbol_id: None,
                    to_name: r.name,
                    ref_kind: kind,
                    line: clamp_line(r.line),
                },
            )
        }
    }
}

/// The symbol row one extracted symbol becomes.
pub open spec fn row_of(
    t: SpecSymbol,
    id: int,
    fid: int,
    rid: int,
    rel: Seq<char>,
    parent: Option<int>,
) -> SpecSymbolRow {
    SpecSymbolRow {
        id,
        file_id: fid,
        repo_id: rid,
        name: t.name,
        kind: crate::symbols::spec_kind_str(t.kind),
        signature: t.signature,
        doc_comment: t.doc_comment,
        start_line: clamp_line(t.start_line),
        end_line: clamp_line(t.end_line),
        file_rel_path: rel,
        parent_symbol_id: parent,
        name_tokens: spec_tokenize(t.name),
    }
}

/// What inserting a forest of extracted symbols does: each tree in order
/// claims the next id, adds its row and its deduplicated references, then
/// its children under it.
pub open spec fn spec_insert_forest(
    m: StoreModel,
    fid: int,
    rid: int,
    rel: Seq<char>,
    ts: Seq<SpecSymbol>,
    parent: Option<int>,
) -> StoreModel
    decreases ts,
{
    if ts.len() == 0 {
        m
    } else {
        let mp = spec_insert_forest(m, fid, rid, rel, ts.drop_last(), parent);
        let t = ts.last();
        let id = mp.next_symbol_id;
        let m1 = StoreModel {
            symbols: mp.symbols.push(row_of(t, id, fid, rid, rel, parent)),
            refs: spec_add_refs(mp.refs, id, t.references),
            next_symbol_id: id + 1,
            ..mp
        };
        spec_insert_forest(m1, fid, rid, rel, t.children, Some(id))
    }
}

/// How many symbols a spec-level forest holds.
pub open spec fn spec_forest_count(ts: Seq<SpecSymbol>) -> nat
    decreases ts,
{
    if ts.len() == 0 {
        0
    } else {
        spec_forest_count(ts.drop_last()) + 1 + spec_forest_count(ts.last().children)
    }
}

/// The forest count agrees with the executable count over views.
pub proof fn lemma_forest_count_view(ss: Seq<crate::symbols::ExtractedSymbol>)
    ensures
        spec_forest_count(crate::symbols::syms_view(ss)) == crate::symbols::spec_count_symbols_seq(
            ss,
        ),
    decreases ss,
{
    if ss.len() > 0 {
        lemma_forest_count_view(ss.drop_last());
        crate::symbols::lemma_syms_view_len(ss);
        crate::symbols::lemma_syms_view_len(ss.drop_last());
        assert(crate::symbols::syms_view(ss).drop_last() =~= crate::symbols::syms_view(
            ss.drop_last(),
        )) by {
            crate::symbols::lemma_syms_view_len(ss);
        }
        assert(crate::symbols::syms_view(ss).last() == crate::symbols::sym_view(ss.last())) by {
            crate::symbols::lemma_syms_view_index(ss, ss.len() - 1);
        }
        lemma_forest_count_view(ss.last().children@);
    }
}

/// Appending one tree to a forest inserts it after the forest.
pub proof fn lemma_insert_forest_push(
    m: StoreModel,
    fid: int,
    rid: int,
    rel: Seq<char>,
    ts: Seq<SpecSymbol>,
    t: SpecSymbol,
    parent: Option<int>,
)
    ensures
        spec_insert_forest(m, fid, rid, rel, ts.push(t), parent) == spec_insert_forest(
            spec_insert_forest(m, fid, rid, rel, ts, parent),
            fid,
            rid,
            rel,
            seq![t],
            parent,
        ),
{
    let u = ts.push(t);
    assert(u.drop_last() =~= ts);
    assert(u.last() == t);
    let one = seq![t];
    assert(one.drop_last() =~= Seq::<SpecSymbol>::empty());
    assert(one.last() == t);
    let mp = spec_insert_forest(m, fid, rid, rel, ts, parent);
    assert(spec_insert_forest(mp, fid, rid, rel, Seq::<SpecSymbol>::empty(), parent) == mp);
}

/// Inserting a forest leaves the repository, the files and the file-id
/// counter alone, and advances the symbol-id counter by the forest's count.
pub proof fn lemma_insert_forest_frame(
    m: StoreModel,
    fid: int,
    rid: int,
    rel: Seq<char>,
    ts: Seq<SpecSymbol>,
    parent: Option<int>,
)
    ensures
        spec_insert_forest(m, fid, rid, rel, ts, parent).repo == m.repo,
        spec_insert_forest(m, fid, rid, rel, ts, parent).files == m.files,
        spec_insert_forest(m, fid, rid, rel, ts, parent).next_file_id == m.next_file_id,
        spec_insert_forest(m, fid, rid, rel, ts, parent).next_symbol_id == m.next_symbol_id
            + spec_forest_count(ts),
    decreases ts,
{
    if ts.len() > 0 {
        lemma_insert_forest_frame(m, fid, rid, rel, ts.drop_last(), parent);
        let mp = spec_insert_forest(m, fid, rid, rel, ts.drop_last(), parent);
        let t = ts.last();
        let id = mp.next_symbol_id;
        let m1 = StoreModel {
            symbols: mp.symbols.push(row_of(t, id, fid, rid, rel, parent)),
            refs: spec_add_refs(mp.refs, id, t.references),
            next_symbol_id: id + 1,
            ..mp
        };
        lemma_insert_forest_frame(m1, fid, rid, rel, t.children, Some(id));
    }
}

/// Whether a whole tree can be inserted without exhausting the id space.
pub open spec fn can_insert(m: StoreModel, t: SpecSymbol) -> bool {
    &&& 0 <= m.next_symbol_id
    &&& spec_forest_count(seq![t]) < usize::MAX as nat
    &&& m.next_symbol_id + spec_forest_count(seq![t]) <= i64::MAX
}

impl Store {
    /// An empty store.
    pub fn new() -> (r: Store)
        ensures
            r@.repo is None,
            r@.files == Seq::<SpecFileRow>::empty(),
            r@.symbols == Seq::<SpecSymbolRow>::empty(),
            r@.refs == Seq::<SpecRefRow>::empty(),
            r@.next_file_id == 1,
            r@.next_symbol_id == 1,
            model_wf(r@),
    {
        let r = Store {
            repo: None,
            files: Vec::new(),
            symbols: Vec::new(),
            refs: Vec::new(),
            next_file_id: 1,
            next_symbol_id: 1,
        };
        proof {
            assert(r@.files =~= Seq::<SpecFileRow>::empty());
            assert(r@.symbols =~= Seq::<SpecSymbolRow>::empty());
            assert(r@.refs =~= Seq::<SpecRefRow>::empty());
        }
        r
    }

    /// Creates or finds the single repository row; idempotent for one path.
    pub fn ensure_repo(&mut self, abs_path: &str) -> (r: Result<i64, StoreError>)
        ensures
            match r {
                Ok(id) => Ok::<(StoreModel, int), StoreError>((final(self)@, id as int)) == spec_ensure_repo(old(self)@, abs_path@),
                Err(e) => Err::<(StoreModel, int), StoreError>(e) == spec_ensure_repo(
                    old(self)@,
                    abs_path@,
                ) && final(self)@ == old(self)@,
            },
    {
        match &self.repo {
            Some(r) => {
                if str_eq(r.abs_path.as_str(), abs_path) {
                    Ok(r.id)
                } else {
                    Err(StoreError::RepoMismatch)
                }
            },
            None => {
                self.repo = Some(
                    RepoRow { id: 1, abs_path: abs_path.to_owned(), last_indexed_at: None },
                );
                Ok(1)
            },
        }
    }

    /// Stamps the repository row as freshly indexed.
    pub fn update_repo_timestamp(&mut self, now: &str)
        ensures
            final(self)@ == (StoreModel {
                repo: match old(self)@.repo {
                    Some(r) => Some(SpecRepoRow { last_indexed_at: Some(now@), ..r }),
                    None => None,
                },
                ..old(self)@
            }),
    {
        match &self.repo {
            Some(r) => {
                let id = r.id;
                let path = r.abs_path.clone();
                self.repo = Some(
                    RepoRow { id, abs_path: path, last_indexed_at: Some(now.to_owned()) },
                );
            },
            None => {},
        }
    }

    /// True exactly when a repository row for this path exists and has been
    /// indexed at least once.
    pub fn is_repo_indexed(&self, abs_path: &str) -> (r: bool)
        ensures
            r == (self@.repo matches Some(rr) && rr.abs_path == abs_path@ && rr.last_indexed_at
                is Some),
    {
        match &self.repo {
            Some(rr) => str_eq(rr.abs_path.as_str(), abs_path) && rr.last_indexed_at.is_some(),
            None => false,
        }
    }

    /// Inserts or updates the file row for `(repo_id, rel_path)`.
    pub fn upsert_file(
        &mut self,
        repo_id: i64,
        rel_path: &str,
        content_hash: &str,
        language: &str,
        now: &str,
    ) -> (r: Result<i64, StoreError>)
        ensures
            match r {
                Ok(id) => Ok::<(StoreModel, int), StoreError>((final(self)@, id as int)) == spec_upsert_file(
                    old(self)@,
                    repo_id as int,
                    rel_path@,
                    content_hash@,
                    language@,
                    now@,
                ),
                Err(e) => Err::<(StoreModel, int), StoreError>(e) == spec_upsert_file(
                    old(self)@,
                    repo_id as int,
                    rel_path@,
                    content_hash@,
                    language@,
                    now@,
                ) && final(self)@ == old(self)@,
            },
    {
        let ghost m0 = self@;
        let n = self.files.len();
        let mut i: usize = 0;
        while i < n
            invariant
                n == self.files@.len(),
                i <= n,
                m0 == self@,
                m0 == old(self)@,
                find_file_from(m0.files, repo_id as int, rel_path@, 0) == find_file_from(
                    m0.files,
                    repo_id as int,
                    rel_path@,
                    i as int,
                ),
            decreases n - i,
        {
            if self.files[i].repo_id == repo_id && str_eq(self.files[i].rel_path.as_str(), rel_path)
            {
                proof {
                    assert(m0.files[i as int] == file_view(self.files@[i as int]));
                    assert(m0.files[i as int].repo_id == repo_id as int && m0.files[i as int].rel_path
                        == rel_path@);
                    assert(find_file_from(m0.files, repo_id as int, rel_path@, i as int) == Some(
                        i as int,
                    ));
                }
                let id = self.files[i].id;
                let row = FileRecord {
                    id,
                    repo_id,
                    rel_path: rel_path.to_owned(),
                    content_hash: content_hash.to_owned(),
                    language: language.to_owned(),
                    last_indexed_at: now.to_owned(),
                };
                self.files.set(i, row);
                proof {
                    assert(m0 == old(self)@);
                    assert(files_view(self.files@) =~= m0.files.update(
                        i as int,
                        file_view(self.files@[i as int]),
                    ));
                    assert(file_view(self.files@[i as int]) == (SpecFileRow {
                        id: m0.files[i as int].id,
                        repo_id: repo_id as int,
                        rel_path: rel_path@,
                        content_hash: content_hash@,
                        language: language@,
                        last_indexed_at: now@,
                    }));
                    assert(Ok::<(StoreModel, int), StoreError>((self@, id as int))
                        == spec_upsert_file(
                        m0,
                        repo_id as int,
                        rel_path@,
                        content_hash@,
                        language@,
                        now@,
                    ));
                }
                return Ok(id);
            }
            i = i + 1;
        }
        if self.next_file_id >= i64::MAX {
            return Err(StoreError::Full);
        }
        let id = self.next_file_id;
        let row = FileRecord {
            id,
            repo_id,
            rel_path: rel_path.to_owned(),
            content_hash: content_hash.to_owned(),
            language: language.to_owned(),
            last_indexed_at: now.to_owned(),
        };
        self.files.push(row);
        self.next_file_id = self.next_file_id + 1;
        proof {
            assert(files_view(self.files@) =~= m0.files.push(
                file_view(self.files@[self.files@.len() - 1]),
            ));
        }
        Ok(id)
    }

    /// Removes all symbols of a file; their outgoing references go with them.
    pub fn clear_file_symbols(&mut self, file_id: i64)
        ensures
            final(self)@ == spec_clear_file_symbols(old(self)@, file_id as int),
    {
        let ghost m0 = self@;
        let mut kept_refs: Vec<StoredRef> = Vec::new();
        let n = self.refs.len();
        let mut i: usize = 0;
        proof {
            assert(refs_rows_view(kept_refs@) =~= keep_refs(
                m0.refs.take(0),
                m0.symbols,
                file_id as int,
            ));
        }
        while i < n
            invariant
                n == self.refs@.len(),
                i <= n,
                self@ == m0,
                m0 == old(self)@,
                refs_rows_view(kept_refs@) == keep_refs(
                    m0.refs.take(i as int),
                    m0.symbols,
                    file_id as int,
                ),
            decreases n - i,
        {
            proof {
                assert(m0.refs.take(i + 1).drop_last() =~= m0.refs.take(i as int));
                assert(m0.refs.take(i + 1).last() == m0.refs[i as int]);
            }
            let keep = match find_symbol_index(&self.symbols, self.refs[i].from_symbol_id) {
                Some(j) => self.symbols[j].file_id != file_id,
                None => false,
            };
            proof {
                assert(keep == ref_survives(m0.refs[i as int], m0.symbols, file_id as int));
            }
            if keep {
                let ghost before = kept_refs@;
                kept_refs.push(self.refs[i].duplicate());
                proof {
                    assert(refs_rows_view(kept_refs@) =~= refs_rows_view(before).push(
                        ref_row_view(kept_refs@.last()),
                    ));
                    assert(refs_rows_view(kept_refs@) =~= keep_refs(
                        m0.refs.take(i + 1),
                        m0.symbols,
                        file_id as int,
                    ));
                }
            } else {
                proof {
                    assert(keep_refs(m0.refs.take(i + 1), m0.symbols, file_id as int) =~= keep_refs(
                        m0.refs.take(i as int),
                        m0.symbols,
                        file_id as int,
                    ));
                }
            }
            i = i + 1;
        }
        proof {
            assert(m0.refs.take(n as int) =~= m0.refs);
        }
        self.refs = kept_refs;

        let mut kept_syms: Vec<SymbolRecord> = Vec::new();
        let sn = self.symbols.len();
        let mut k: usize = 0;
        proof {
            assert(symbols_view(kept_syms@) =~= keep_symbols(m0.symbols.take(0), file_id as int));
        }
        while k < sn
            invariant
                sn == self.symbols@.len(),
                k <= sn,
                symbols_view(self.symbols@) == m0.symbols,
                symbols_view(kept_syms@) == keep_symbols(m0.symbols.take(k as int), file_id as int),
            decreases sn - k,
        {
            proof {
                assert(m0.symbols.take(k + 1).drop_last() =~= m0.symbols.take(k as int));
                assert(m0.symbols.take(k + 1).last() == m0.symbols[k as int]);
            }
            if self.symbols[k].file_id != file_id {
                let ghost before = kept_syms@;
                kept_syms.push(self.symbols[k].duplicate());
                proof {
                    assert(symbols_view(kept_syms@) =~= symbols_view(before).push(
                        symbol_view(kept_syms@.last()),
                    ));
                    assert(symbols_view(kept_syms@) =~= keep_symbols(
                        m0.symbols.take(k + 1),
                        file_id as int,
                    ));
                }
            } else {
                proof {
                    assert(keep_symbols(m0.symbols.take(k + 1), file_id as int) =~= keep_symbols(
                        m0.symbols.take(k as int),
                        file_id as int,
                    ));
                }
            }
            k = k + 1;
        }
        proof {
            assert(m0.symbols.take(sn as int) =~= m0.symbols);
        }
        self.symbols = kept_syms;
    }

    /// Removes a file row; its symbols and their references cascade away.
    pub fn delete_file(&mut self, file_id: i64)
        ensures
            final(self)@ == spec_delete_file(old(self)@, file_id as int),
    {
        let ghost m0 = self@;
        self.clear_file_symbols(file_id);
        let ghost mc = self@;
        let mut kept: Vec<FileRecord> = Vec::new();
        let n = self.files.len();
        let mut i: usize = 0;
        proof {
            assert(files_view(kept@) =~= keep_files(m0.files.take(0), file_id as int));
        }
        while i < n
            invariant
                n == self.files@.len(),
                i <= n,
                self@ == mc,
                mc == spec_clear_file_symbols(m0, file_id as int),
                files_view(self.files@) == m0.files,
                files_view(kept@) == keep_files(m0.files.take(i as int), file_id as int),
            decreases n - i,
        {
            proof {
                assert(m0.files.take(i + 1).drop_last() =~= m0.files.take(i as int));
                assert(m0.files.take(i + 1).last() == m0.files[i as int]);
            }
            if self.files[i].id != file_id {
                let ghost before = kept@;
                kept.push(self.files[i].duplicate());
                proof {
                    assert(files_view(kept@) =~= files_view(before).push(file_view(kept@.last())));
                    assert(files_view(kept@) =~= keep_files(m0.files.take(i + 1), file_id as int));
                }
            } else {
                proof {
                    assert(keep_files(m0.files.take(i + 1), file_id as int) =~= keep_files(
                        m0.files.take(i as int),
                        file_id as int,
                    ));
                }
            }
            i = i + 1;
        }
        proof {
            assert(m0.files.take(n as int) =~= m0.files);
        }
        self.files = kept;
    }
}

/// The index of the first symbol row of the repository with this name, at or
/// after `i`.
pub open spec fn find_named_from(ss: Seq<SpecSymbolRow>, rid: int, name: Seq<char>, i: int) -> Option<
    int,
>
    decreases ss.len() - i,
{
    if !(0 <= i < ss.len()) {
        None
    } else if ss[i].repo_id == rid && ss[i].name == name {
        Some(i)
    } else {
        find_named_from(ss, rid, name, i + 1)
    }
}

/// The index of the first symbol row of the repository with this name under
/// this parent, at or after `i`.
pub open spec fn find_named_child_from(
    ss: Seq<SpecSymbolRow>,
    rid: int,
    name: Seq<char>,
    parent: int,
    i: int,
) -> Option<int>
    decreases ss.len() - i,
{
    if !(0 <= i < ss.len()) {
        None
    } else if ss[i].repo_id == rid && ss[i].name == name && ss[i].parent_symbol_id == Some(parent) {
        Some(i)
    } else {
        find_named_child_from(ss, rid, name, parent, i + 1)
    }
}

/// Where one unresolved reference of the repository points after resolution:
/// a target named `this.X` first tries an `X` under the referring symbol's
/// own parent; otherwise the first symbol of the repository with the target
/// name; otherwise it stays unresolved.
pub open spec fn resolve_one(m: StoreModel, r: SpecRefRow, rid: int) -> Option<int> {
    if r.to_symbol_id is Some {
        r.to_symbol_id
    } else {
        match find_symbol_from(m.symbols, r.from_symbol_id, 0) {
            None => None,
            Some(fj) => {
                if m.symbols[fj].repo_id != rid {
                    None
                } else {
                    let this_match = if crate::strutil::spec_starts_with(r.to_name, "this."@) {
                        match m.symbols[fj].parent_symbol_id {
                            Some(p) => find_named_child_from(m.symbols, rid, r.to_name.skip(5), p, 0),
                            None => None,
                        }
                    } else {
                        None
                    };
                    match this_match {
                        Some(j) => Some(m.symbols[j].id),
                        None => match find_named_from(m.symbols, rid, r.to_name, 0) {
                            Some(j) => Some(m.symbols[j].id),
                            None => None,
                        },
                    }
                }
            },
        }
    }
}

/// What `resolve_references` does: every reference row gets the target that
/// `resolve_one` finds against the symbol table as it stood.
pub open spec fn spec_resolve(m: StoreModel, rid: int) -> StoreModel {
    StoreModel {
        refs: Seq::new(
            m.refs.len(),
            |i: int| SpecRefRow { to_symbol_id: resolve_one(m, m.refs[i], rid), ..m.refs[i] },
        ),
        ..m
    }
}

/// The repository row carries this absolute path.
pub open spec fn repo_ok(m: StoreModel, path: Seq<char>) -> bool {
    m.repo matches Some(rr) && rr.abs_path == path
}

/// The repository row's id, or zero without one.
pub open spec fn repo_id_of(m: StoreModel) -> int {
    match m.repo {
        Some(rr) => rr.id,
        None => 0,
    }
}

/// The symbol rows of one file of the repository, in stored (insertion)
/// order: parents before their children, files in walk order.
pub open spec fn spec_file_symbols(
    ss: Seq<SpecSymbolRow>,
    rid: int,
    rel: Seq<char>,
) -> Seq<SpecSymbolRow>
    decreases ss.len(),
{
    if ss.len() == 0 {
        Seq::<SpecSymbolRow>::empty()
    } else {
        spec_file_symbols(ss.drop_last(), rid, rel) + (if ss.last().repo_id == rid
            && ss.last().file_rel_path == rel {
            seq![ss.last()]
        } else {
            Seq::<SpecSymbolRow>::empty()
        })
    }
}

/// The references pointing at a symbol, joined back to their from-symbols,
/// in stored order.
pub open spec fn spec_references_to(m: StoreModel, sid: int) -> Seq<SpecRefRow>
    decreases m.refs.len(),
{
    if m.refs.len() == 0 {
        Seq::<SpecRefRow>::empty()
    } else {
        spec_references_to(StoreModel { refs: m.refs.drop_last(), ..m }, sid) + (if m.refs.last().to_symbol_id
            == Some(sid) {
            seq![m.refs.last()]
        } else {
            Seq::<SpecRefRow>::empty()
        })
    }
}

/// The outgoing references of a symbol, in stored order.
pub open spec fn spec_dependencies_of(rs: Seq<SpecRefRow>, sid: int) -> Seq<SpecRefRow>
    decreases rs.len(),
{
    if rs.len() == 0 {
        Seq::<SpecRefRow>::empty()
    } else {
        spec_dependencies_of(rs.drop_last(), sid) + (if rs.last().from_symbol_id == sid {
            seq![rs.last()]
        } else {
            Seq::<SpecRefRow>::empty()
        })
    }
}

impl Store {
    /// True when the store's repository row carries this absolute path.
    fn repo_matches(&self, repo_path: &str) -> (r: bool)
        ensures
            r == repo_ok(self@, repo_path@),
    {
        match &self.repo {
            Some(rr) => str_eq(rr.abs_path.as_str(), repo_path),
            None => false,
        }
    }

    /// All symbols of one file of the repository — exactly the rows
    /// `spec_file_symbols` names, ordered by starting line (rows sharing a
    /// line in no particular order); empty when the path names another
    /// repository.
    pub fn get_file_symbols(&self, repo_path: &str, file: &str) -> (r: Vec<SymbolRecord>)
        ensures
            symbols_view(r@).to_multiset() == (if repo_ok(self@, repo_path@) {
                spec_file_symbols(self@.symbols, repo_id_of(self@), file@)
            } else {
                Seq::<SpecSymbolRow>::empty()
            }).to_multiset(),
            forall|a: int, b: int|
                0 <= a < b < r@.len() ==> #[trigger] crate::sorting::spec_sym_line_le(
                    r@[a],
                    r@[b],
                ),
    {
        let mut out: Vec<SymbolRecord> = Vec::new();
        proof {
            assert(symbols_view(out@) =~= Seq::<SpecSymbolRow>::empty());
        }
        if !self.repo_matches(repo_path) {
            return out;
        }
        let rid = match &self.repo {
            Some(rr) => rr.id,
            None => {
                return out;
            },
        };
        let n = self.symbols.len();
        let mut i: usize = 0;
        while i < n
            invariant
                n == self.symbols@.len(),
                i <= n,
                self@.repo is Some,
                repo_id_of(self@) == rid as int,
                symbols_view(out@) == spec_file_symbols(
                    self@.symbols.take(i as int),
                    rid as int,
                    file@,
                ),
            decreases n - i,
        {
            proof {
                assert(self@.symbols.take(i + 1).drop_last() =~= self@.symbols.take(i as int));
                assert(self@.symbols.take(i + 1).last() == self@.symbols[i as int]);
            }
            if self.symbols[i].repo_id == rid && str_eq(
                self.symbols[i].file_rel_path.as_str(),
                file,
            ) {
                let ghost before = out@;
                out.push(self.symbols[i].duplicate());
                proof {
                    assert(symbols_view(out@) =~= symbols_view(before).push(
                        symbol_view(out@.last()),
                    ));
                    assert(symbols_view(out@) =~= spec_file_symbols(
                        self@.symbols.take(i + 1),
                        rid as int,
                        file@,
                    ));
                }
            } else {
                proof {
                    assert(symbols_view(out@) =~= spec_file_symbols(
                        self@.symbols.take(i + 1),
                        rid as int,
                        file@,
                    ));
                }
            }
            i = i + 1;
        }
        proof {
            assert(self@.symbols.take(n as int) =~= self@.symbols);
        }
        let ghost pre_sort = out@;
        let sorted = crate::sorting::sort_symbols_by_line(out);
        proof {
            crate::sorting::lemma_map_values_multiset(
                sorted@,
                pre_sort,
                |x: SymbolRecord| symbol_view(x),
            );
        }
        sorted
    }

    /// The symbol with this id in the repository; refused when the path
    /// names another repository or no symbol has the id.
    pub fn get_symbol_detail(&self, repo_path: &str, symbol_id: i64) -> (r: Result<
        SymbolRecord,
        StoreError,
    >)
        ensures
            match r {
                Ok(s) => repo_ok(self@, repo_path@) && (match find_symbol_from(
                    self@.symbols,
                    symbol_id as int,
                    0,
                ) {
                    Some(j) => symbol_view(s) == self@.symbols[j],
                    None => false,
                }),
                Err(e) => e == StoreError::SymbolNotFound && (repo_ok(self@, repo_path@)
                    ==> find_symbol_from(self@.symbols, symbol_id as int, 0) is None),
            },
    {
        if !self.repo_matches(repo_path) {
            return Err(StoreError::SymbolNotFound);
        }
        match find_symbol_index(&self.symbols, symbol_id) {
            Some(j) => Ok(self.symbols[j].duplicate()),
            None => Err(StoreError::SymbolNotFound),
        }
    }

    /// All references whose target is this symbol — exactly the rows
    /// `spec_references_to` names — each joined back to its from-symbol's
    /// name and file, ordered by from-file then line.
    pub fn get_references(&self, repo_path: &str, symbol_id: i64) -> (r: Vec<RefRecord>)
        ensures
            repo_ok(self@, repo_path@) ==> rows_of_ref_records(r@).to_multiset()
                == spec_references_to(self@, symbol_id as int).to_multiset(),
            !repo_ok(self@, repo_path@) ==> r@.len() == 0,
            forall|k: int| 0 <= k < r@.len() ==> spec_joined_ok(self@, #[trigger] r@[k]),
            forall|a: int, b: int|
                0 <= a < b < r@.len() ==> #[trigger] crate::sorting::spec_ref_loc_le(
                    r@[a],
                    r@[b],
                ),
    {
        let mut out: Vec<RefRecord> = Vec::new();
        proof {
            assert(rows_of_ref_records(out@) =~= Seq::<SpecRefRow>::empty());
        }
        if !self.repo_matches(repo_path) {
            return out;
        }
        let n = self.refs.len();
        let mut i: usize = 0;
        while i < n
            invariant
                n == self.refs@.len(),
                i <= n,
                rows_of_ref_records(out@) == spec_references_to(
                    StoreModel { refs: self@.refs.take(i as int), ..self@ },
                    symbol_id as int,
                ),
                forall|k: int| 0 <= k < out@.len() ==> spec_joined_ok(self@, #[trigger] out@[k]),
            decreases n - i,
        {
            proof {
                assert(self@.refs.take(i + 1).drop_last() =~= self@.refs.take(i as int));
                assert(self@.refs.take(i + 1).last() == self@.refs[i as int]);
            }
            let hit = match self.refs[i].to_symbol_id {
                Some(t) => t == symbol_id,
                None => false,
            };
            if hit {
                let rrow = &self.refs[i];
                let joined = match find_symbol_index(&self.symbols, rrow.from_symbol_id) {
                    Some(j) => RefRecord {
                        from_symbol_id: rrow.from_symbol_id,
                        from_name: Some(self.symbols[j].name.clone()),
                        from_file: Some(self.symbols[j].file_rel_path.clone()),
                        to_symbol_id: rrow.to_symbol_id,
                        to_name: rrow.to_name.clone(),
                        ref_kind: rrow.ref_kind.clone(),
                        line: Some(rrow.line),
                    },
                    None => RefRecord {
                        from_symbol_id: rrow.from_symbol_id,
                        from_name: None,
                        from_file: None,
                        to_symbol_id: rrow.to_symbol_id,
                        to_name: rrow.to_name.clone(),
                        ref_kind: rrow.ref_kind.clone(),
                        line: Some(rrow.line),
                    },
                };
                let ghost before = out@;
                out.push(joined);
                proof {
                    assert(rows_of_ref_records(out@) =~= rows_of_ref_records(before).push(
                        ref_record_row(out@.last()),
                    ));
                    assert(rows_of_ref_records(out@) =~= spec_references_to(
                        StoreModel { refs: self@.refs.take(i + 1), ..self@ },
                        symbol_id as int,
                    ));
                }
            } else {
                proof {
                    assert(rows_of_ref_records(out@) =~= spec_references_to(
                        StoreModel { refs: self@.refs.take(i + 1), ..self@ },
                        symbol_id as int,
                    ));
                }
            }
            i = i + 1;
        }
        proof {
            assert(self@.refs.take(n as int) =~= self@.refs);
            assert((StoreModel { refs: self@.refs, ..self@ }) == self@);
        }
        let ghost pre_sort = out@;
        let sorted = crate::sorting::sort_refs_by_location(out);
        proof {
            crate::sorting::lemma_map_values_multiset(
                sorted@,
                pre_sort,
                |x: RefRecord| ref_record_row(x),
            );
            assert forall|k: int| 0 <= k < sorted@.len() implies spec_joined_ok(
                self@,
                #[trigger] sorted@[k],
            ) by {
                broadcast use vstd::seq_lib::group_to_multiset_ensures;

                assert(sorted@.contains(sorted@[k]));
                assert(sorted@.to_multiset().count(sorted@[k]) > 0);
                assert(pre_sort.to_multiset().count(sorted@[k]) > 0);
                assert(pre_sort.contains(sorted@[k]));
            }
        }
        sorted
    }

    /// All outgoing references of this symbol — exactly the rows
    /// `spec_dependencies_of` names — ordered by reference kind, then
    /// target name.
    pub fn get_dependencies(&self, repo_path: &str, symbol_id: i64) -> (r: Vec<RefRecord>)
        ensures
            repo_ok(self@, repo_path@) ==> rows_of_ref_records(r@).to_multiset()
                == spec_dependencies_of(self@.refs, symbol_id as int).to_multiset(),
            !repo_ok(self@, repo_path@) ==> r@.len() == 0,
            forall|a: int, b: int|
                0 <= a < b < r@.len() ==> #[trigger] crate::sorting::spec_dep_le(r@[a], r@[b]),
    {
        let mut out: Vec<RefRecord> = Vec::new();
        proof {
            assert(rows_of_ref_records(out@) =~= Seq::<SpecRefRow>::empty());
        }
        if !self.repo_matches(repo_path) {
            return out;
        }
        let n = self.refs.len();
        let mut i: usize = 0;
        while i < n
            invariant
                n == self.refs@.len(),
                i <= n,
                rows_of_ref_records(out@) == spec_dependencies_of(
                    self@.refs.take(i as int),
                    symbol_id as int,
                ),
            decreases n - i,
        {
            proof {
                assert(self@.refs.take(i + 1).drop_last() =~= self@.refs.take(i as int));
                assert(self@.refs.take(i + 1).last() == self@.refs[i as int]);
            }
            if self.refs[i].from_symbol_id == symbol_id {
                let rrow = &self.refs[i];
                let joined = RefRecord {
                    from_symbol_id: rrow.from_symbol_id,
                    from_name: None,
                    from_file: None,
                    to_symbol_id: rrow.to_symbol_id,
                    to_name: rrow.to_name.clone(),
                    ref_kind: rrow.ref_kind.clone(),
                    line: Some(rrow.line),
                };
                let ghost before = out@;
                out.push(joined);
                proof {
                    assert(rows_of_ref_records(out@) =~= rows_of_ref_records(before).push(
                        ref_record_row(out@.last()),
                    ));
                    assert(rows_of_ref_records(out@) =~= spec_dependencies_of(
                        self@.refs.take(i + 1),
                        symbol_id as int,
                    ));
                }
            } else {
                proof {
                    assert(rows_of_ref_records(out@) =~= spec_dependencies_of(
                        self@.refs.take(i + 1),
                        symbol_id as int,
                    ));
                }
            }
            i = i + 1;
        }
        proof {
            assert(self@.refs.take(n as int) =~= self@.refs);
        }
        let ghost pre_sort = out@;
        let sorted = crate::sorting::sort_deps(out);
        proof {
            crate::sorting::lemma_map_values_multiset(
                sorted@,
                pre_sort,
                |x: RefRecord| ref_record_row(x),
            );
        }
        sorted
    }
}

/// A joined reference row repeats its from-symbol's name and file, or
/// carries none when no symbol row has the from-id.
pub open spec fn spec_joined_ok(m: StoreModel, rr: RefRecord) -> bool {
    match find_symbol_from(m.symbols, rr.from_symbol_id as int, 0) {
        Some(j) => opt_str_view(rr.from_name) == Some(m.symbols[j].name) && opt_str_view(
            rr.from_file,
        ) == Some(m.symbols[j].file_rel_path),
        None => rr.from_name is None && rr.from_file is None,
    }
}

/// Deleting the repository's file rows named by a path list, one by one;
/// paths without a row change nothing.
pub open spec fn spec_delete_paths(
    m: StoreModel,
    rid: int,
    rels: Seq<Seq<char>>,
    i: int,
) -> StoreModel
    decreases rels.len() - i,
{
    if !(0 <= i < rels.len()) {
        m
    } else {
        let m2 = match find_file_from(m.files, rid, rels[i], 0) {
            Some(j) => spec_delete_file(m, m.files[j].id),
            None => m,
        };
        spec_delete_paths(m2, rid, rels, i + 1)
    }
}

/// How many of the listed paths had a row to delete.
pub open spec fn spec_delete_paths_count(
    m: StoreModel,
    rid: int,
    rels: Seq<Seq<char>>,
    i: int,
) -> int
    decreases rels.len() - i,
{
    if !(0 <= i < rels.len()) {
        0
    } else {
        match find_file_from(m.files, rid, rels[i], 0) {
            Some(j) => 1 + spec_delete_paths_count(
                spec_delete_file(m, m.files[j].id),
                rid,
                rels,
                i + 1,
            ),
            None => spec_delete_paths_count(m, rid, rels, i + 1),
        }
    }
}

impl Store {
    /// Removes the repository's file rows for the given relative paths, with
    /// their symbols and references; used for watcher-reported deletions.
    /// Returns how many rows went.
    pub fn delete_files_by_rel_paths(&mut self, repo_path: &str, rel_paths: &Vec<String>) -> (r:
        Result<usize, StoreError>)
        ensures
            match r {
                Ok(count) => repo_ok(old(self)@, repo_path@) && final(self)@ == spec_delete_paths(
                    old(self)@,
                    repo_id_of(old(self)@),
                    rel_paths.deep_view(),
                    0,
                ) && count as int == spec_delete_paths_count(
                    old(self)@,
                    repo_id_of(old(self)@),
                    rel_paths.deep_view(),
                    0,
                ),
                Err(e) => e == StoreError::NotIndexed && !repo_ok(old(self)@, repo_path@)
                    && final(self)@ == old(self)@,
            },
    {
        if !self.repo_matches(repo_path) {
            return Err(StoreError::NotIndexed);
        }
        let rid = match &self.repo {
            Some(rr) => rr.id,
            None => {
                return Err(StoreError::NotIndexed);
            },
        };
        let ghost m0 = self@;
        let ghost rels = rel_paths.deep_view();
        let n = rel_paths.len();
        let mut count: usize = 0;
        let mut i: usize = 0;
        proof {
            assert(rels.len() == n);
        }
        while i < n
            invariant
                n == rel_paths@.len(),
                rels == rel_paths.deep_view(),
                rels.len() == n,
                i <= n,
                count <= i,
                spec_delete_paths(m0, rid as int, rels, 0) == spec_delete_paths(
                    self@,
                    rid as int,
                    rels,
                    i as int,
                ),
                spec_delete_paths_count(m0, rid as int, rels, 0) == count
                    + spec_delete_paths_count(self@, rid as int, rels, i as int),
            decreases n - i,
        {
            proof {
                assert(rels[i as int] == rel_paths@[i as int]@);
            }
            match self.find_file_index(rid, rel_paths[i].as_str()) {
                Some(j) => {
                    let fid = self.files[j].id;
                    self.delete_file(fid);
                    count = count + 1;
                },
                None => {},
            }
            i = i + 1;
        }
        Ok(count)
    }
}

/// One query term against a symbol's searchable tokens: a term ending in
/// `*` asks for a prefix match, anything else for an exact token.
pub open spec fn spec_term_matches(term: Seq<char>, cands: Seq<Seq<char>>) -> bool {
    if term.len() > 0 && term.last() == '*' {
        exists|k: int|
            0 <= k < cands.len() && crate::strutil::spec_starts_with(
                #[trigger] cands[k],
                term.drop_last(),
            )
    } else {
        exists|k: int| 0 <= k < cands.len() && #[trigger] cands[k] == term
    }
}

/// The searchable tokens of a symbol row: the subword tokens stored in
/// `name_tokens` (which already include the lowercased name) and the kind
/// tag.
pub open spec fn spec_search_cands(row: SpecSymbolRow) -> Seq<Seq<char>> {
    crate::strutil::spec_tokens(row.name_tokens, ' ').push(row.kind)
}

/// A query matches a symbol when each of its lowercased whitespace-separated
/// terms matches some searchable token. Boolean operators of a full-text
/// engine are not modelled: terms are conjunctive.
pub open spec fn spec_query_matches(query: Seq<char>, row: SpecSymbolRow) -> bool {
    let terms = crate::strutil::spec_tokens(crate::strutil::lower_chars(query), ' ');
    forall|t: int|
        0 <= t < terms.len() ==> spec_term_matches(#[trigger] terms[t], spec_search_cands(row))
}

/// The first `limit` matching symbol rows of the repository at or after
/// `i`, in stored order.
pub open spec fn spec_search_from(
    ss: Seq<SpecSymbolRow>,
    rid: int,
    query: Seq<char>,
    limit: int,
    i: int,
) -> Seq<SpecSymbolRow>
    decreases ss.len() - i,
{
    if !(0 <= i < ss.len()) || limit <= 0 {
        Seq::<SpecSymbolRow>::empty()
    } else if ss[i].repo_id == rid && spec_query_matches(query, ss[i]) {
        seq![ss[i]] + spec_search_from(ss, rid, query, limit - 1, i + 1)
    } else {
        spec_search_from(ss, rid, query, limit, i + 1)
    }
}

fn term_matches(term: &str, cands: &Vec<String>) -> (r: bool)
    ensures
        r == spec_term_matches(term@, cands.deep_view()),
{
    let n = term.unicode_len();
    let starred = n > 0 && term.get_char(n - 1) == '*';
    let needle = if starred {
        let p = term.substring_char(0, n - 1);
        proof {
            assert(p@ =~= term@.drop_last());
        }
        p.to_owned()
    } else {
        term.to_owned()
    };
    let m = cands.len();
    let mut k: usize = 0;
    while k < m
        invariant
            m == cands@.len(),
            cands.deep_view().len() == m,
            k <= m,
            starred ==> forall|j: int|
                0 <= j < k ==> !crate::strutil::spec_starts_with(
                    #[trigger] cands.deep_view()[j],
                    needle@,
                ),
            !starred ==> forall|j: int| 0 <= j < k ==> #[trigger] cands.deep_view()[j] != needle@,
            starred == (term@.len() > 0 && term@.last() == '*'),
            starred ==> needle@ == term@.drop_last(),
            !starred ==> needle@ == term@,
        decreases m - k,
    {
        proof {
            assert(cands.deep_view()[k as int] == cands@[k as int]@);
        }
        let hit = if starred {
            str_starts_with(cands[k].as_str(), needle.as_str())
        } else {
            str_eq(cands[k].as_str(), needle.as_str())
        };
        if hit {
            return true;
        }
        k = k + 1;
    }
    false
}

fn row_matches(terms: &Vec<String>, row: &SymbolRecord) -> (r: bool)
    requires
        forall|t: int|
            0 <= t < terms.deep_view().len() ==> (#[trigger] terms.deep_view()[t]).len() > 0,
    ensures
        r == (forall|t: int|
            0 <= t < terms.deep_view().len() ==> spec_term_matches(
                #[trigger] terms.deep_view()[t],
                spec_search_cands(symbol_view(*row)),
            )),
{
    let mut cands = crate::strutil::tokens_of(row.name_tokens.as_str(), ' ');
    cands.push(row.kind.clone());
    proof {
        assert(cands.deep_view() =~= spec_search_cands(symbol_view(*row)));
    }
    let n = terms.len();
    let mut t: usize = 0;
    while t < n
        invariant
            n == terms@.len(),
            terms.deep_view().len() == n,
            t <= n,
            cands.deep_view() == spec_search_cands(symbol_view(*row)),
            forall|u: int|
                0 <= u < t ==> spec_term_matches(
                    #[trigger] terms.deep_view()[u],
                    spec_search_cands(symbol_view(*row)),
                ),
        decreases n - t,
    {
        proof {
            assert(terms.deep_view()[t as int] == terms@[t as int]@);
        }
        if !term_matches(terms[t].as_str(), &cands) {
            return false;
        }
        t = t + 1;
    }
    true
}

impl Store {
    /// The first `limit` symbols of the repository that the query matches,
    /// in stored order: every lowercased whitespace-separated query term
    /// must match a subword token (or, with a trailing `*`, a token prefix)
    /// of the symbol's `name_tokens` or its kind tag. The full-text engine's
    /// rank order and boolean operators are not modelled.
    pub fn search_symbols(&self, repo_path: &str, query: &str, limit: usize) -> (r: Vec<
        SymbolRecord,
    >)
        ensures
            symbols_view(r@) == (if repo_ok(self@, repo_path@) {
                spec_search_from(
                    self@.symbols,
                    repo_id_of(self@),
                    query@,
                    limit as int,
                    0,
                )
            } else {
                Seq::<SpecSymbolRow>::empty()
            }),
    {
        let mut out: Vec<SymbolRecord> = Vec::new();
        proof {
            assert(symbols_view(out@) =~= Seq::<SpecSymbolRow>::empty());
        }
        if !self.repo_matches(repo_path) {
            return out;
        }
        let rid = match &self.repo {
            Some(rr) => rr.id,
            None => {
                return out;
            },
        };
        let lowered = crate::strutil::lowercase(query);
        let terms = crate::strutil::tokens_of(lowered.as_str(), ' ');
        proof {
            assert(terms.deep_view() == crate::strutil::spec_tokens(
                crate::strutil::lower_chars(query@),
                ' ',
            ));
            lemma_tokens_nonempty(crate::strutil::lower_chars(query@), ' ', 0);
        }
        let n = self.symbols.len();
        let mut i: usize = 0;
        while i < n && out.len() < limit
            invariant
                n == self.symbols@.len(),
                i <= n,
                self@.repo is Some,
                repo_id_of(self@) == rid as int,
                out@.len() <= limit,
                terms.deep_view() == crate::strutil::spec_tokens(
                    crate::strutil::lower_chars(query@),
                    ' ',
                ),
                forall|t: int|
                    0 <= t < terms.deep_view().len() ==> (#[trigger] terms.deep_view()[t]).len()
                        > 0,
                spec_search_from(self@.symbols, rid as int, query@, limit as int, 0)
                    == symbols_view(out@) + spec_search_from(
                    self@.symbols,
                    rid as int,
                    query@,
                    limit as int - out@.len(),
                    i as int,
                ),
            decreases n - i,
        {
            let hit = self.symbols[i].repo_id == rid && row_matches(&terms, &self.symbols[i]);
            if hit {
                let ghost before = out@;
                out.push(self.symbols[i].duplicate());
                proof {
                    assert(symbols_view(out@) =~= symbols_view(before).push(
                        symbol_view(out@.last()),
                    ));
                    assert(symbols_view(out@) + spec_search_from(
                        self@.symbols,
                        rid as int,
                        query@,
                        limit as int - out@.len(),
                        i + 1,
                    ) =~= symbols_view(before) + (seq![
                        symbol_view(out@.last()),
                    ] + spec_search_from(
                        self@.symbols,
                        rid as int,
                        query@,
                        limit as int - out@.len(),
                        i + 1,
                    )));
                }
            }
            i = i + 1;
        }
        proof {
            assert(spec_search_from(
                self@.symbols,
                rid as int,
                query@,
                limit as int - out@.len(),
                i as int,
            ) =~= Seq::<SpecSymbolRow>::empty());
            assert(symbols_view(out@) =~= symbols_view(out@) + Seq::<SpecSymbolRow>::empty());
        }
        out
    }
}

/// Every token a split yields is nonempty.
proof fn lemma_tokens_nonempty(s: Seq<char>, c: char, i: int)
    ensures
        forall|t: int|
            0 <= t < crate::strutil::spec_tokens_from(s, c, i).len() ==> (
            #[trigger] crate::strutil::spec_tokens_from(s, c, i)[t]).len() > 0,
    decreases s.len() - i,
{
    if 0 <= i < s.len() {
        if s[i] == c {
            lemma_tokens_nonempty(s, c, i + 1);
            assert(crate::strutil::spec_tokens_from(s, c, i) == crate::strutil::spec_tokens_from(
                s,
                c,
                i + 1,
            ));
        } else {
            let j = crate::strutil::find_char_from(s, c, i);
            crate::strutil::lemma_find_char_bounds(s, c, i + 1);
            assert(j > i);
            lemma_tokens_nonempty(s, c, j);
            let cur = crate::strutil::spec_tokens_from(s, c, i);
            let rest = crate::strutil::spec_tokens_from(s, c, j);
            assert(cur == seq![s.subrange(i, j)] + rest);
            assert forall|t: int| 0 <= t < cur.len() implies (#[trigger] cur[t]).len() > 0 by {
                if t == 0 {
                    assert(cur[0] == s.subrange(i, j));
                    assert(cur[0].len() == j - i);
                } else {
                    assert(cur[t] == rest[t - 1]);
                    assert(rest[t - 1].len() > 0);
                }
            }
        }
    }
}


/// One top-level directory's share of the index.
#[derive(Debug)]
pub struct ModuleInfo {
    pub path: String,
    pub file_count: i64,
    pub symbol_count: i64,
}

/// The mathematical mirror of a directory aggregate.
pub ghost struct SpecModule {
    pub path: Seq<char>,
    pub file_count: int,
    pub symbol_count: int,
}

pub open spec fn module_view(m: ModuleInfo) -> SpecModule {
    SpecModule {
        path: m.path@,
        file_count: m.file_count as int,
        symbol_count: m.symbol_count as int,
    }
}

pub open spec fn modules_view(ms: Seq<ModuleInfo>) -> Seq<SpecModule> {
    ms.map_values(|m: ModuleInfo| module_view(m))
}

/// A one-call overview of the repository: its languages, its biggest
/// directories, its largest container types, and likely entry points.
#[derive(Debug)]
pub struct OverviewData {
    pub repo_name: String,
    pub languages: Vec<(String, i64)>,
    pub modules: Vec<ModuleInfo>,
    pub top_types: Vec<SymbolRecord>,
    pub entry_points: Vec<SymbolRecord>,
}

/// The last path segment of a repository path.
pub open spec fn spec_repo_name(p: Seq<char>) -> Seq<char> {
    p.skip(crate::indexer::last_char_end(p, '/', p.len() as int))
}

/// The directory key of a relative path: up to and including the first
/// slash, or `./` for a file at the root.
pub open spec fn spec_dir_of(rel: Seq<char>) -> Seq<char> {
    let j = crate::strutil::find_char_from(rel, '/', 0);
    if j < rel.len() {
        rel.take(j + 1)
    } else {
        "./"@
    }
}

/// How many symbol rows belong to the file, among the first `i`.
pub open spec fn count_file_symbols(ss: Seq<SpecSymbolRow>, fid: int, i: int) -> int
    decreases i,
{
    if i <= 0 || i > ss.len() {
        0
    } else {
        count_file_symbols(ss, fid, i - 1) + (if ss[i - 1].file_id == fid {
            1int
        } else {
            0int
        })
    }
}

/// A directory aggregate list with one file's counts added under its key.
pub open spec fn module_bump(h: Seq<SpecModule>, dir: Seq<char>, syms: int, i: int) -> Seq<
    SpecModule,
>
    decreases h.len() - i,
{
    if !(0 <= i < h.len()) {
        h.push(SpecModule { path: dir, file_count: 1, symbol_count: syms })
    } else if h[i].path == dir {
        h.update(
            i,
            SpecModule {
                path: dir,
                file_count: if h[i].file_count < i64::MAX {
                    h[i].file_count + 1
                } else {
                    h[i].file_count
                },
                symbol_count: if h[i].symbol_count + syms <= i64::MAX {
                    h[i].symbol_count + syms
                } else {
                    i64::MAX as int
                },
            },
        )
    } else {
        module_bump(h, dir, syms, i + 1)
    }
}

/// The directory aggregates of the repository's first `i` file rows, in
/// first-seen order, with clamped per-file symbol counts.
pub open spec fn spec_modules(m: StoreModel, rid: int, i: int) -> Seq<SpecModule>
    decreases i,
{
    if i <= 0 || i > m.files.len() {
        Seq::<SpecModule>::empty()
    } else {
        let prev = spec_modules(m, rid, i - 1);
        if m.files[i - 1].repo_id == rid {
            module_bump(
                prev,
                spec_dir_of(m.files[i - 1].rel_path),
                clamp_line(count_file_symbols(m.symbols, m.files[i - 1].id, m.symbols.len() as int)),
                0,
            )
        } else {
            prev
        }
    }
}

/// A container symbol: one whose kind groups members.
pub open spec fn spec_is_container(kind: Seq<char>) -> bool {
    kind == "class"@ || kind == "interface"@ || kind == "struct"@ || kind == "enum"@ || kind
        == "trait"@
}

/// The repository's container symbols, in stored order.
pub open spec fn spec_containers(ss: Seq<SpecSymbolRow>, rid: int) -> Seq<SpecSymbolRow>
    decreases ss.len(),
{
    if ss.len() == 0 {
        Seq::<SpecSymbolRow>::empty()
    } else {
        spec_containers(ss.drop_last(), rid) + (if ss.last().repo_id == rid && spec_is_container(
            ss.last().kind,
        ) {
            seq![ss.last()]
        } else {
            Seq::<SpecSymbolRow>::empty()
        })
    }
}

/// An entry-point name.
pub open spec fn spec_is_entry_name(name: Seq<char>) -> bool {
    name == "main"@ || name == "index"@ || name == "app"@ || name == "server"@
}

/// The first `limit` entry-point symbols of the repository at or after `i`.
pub open spec fn spec_entry_points(ss: Seq<SpecSymbolRow>, rid: int, limit: int, i: int) -> Seq<
    SpecSymbolRow,
>
    decreases ss.len() - i,
{
    if !(0 <= i < ss.len()) || limit <= 0 {
        Seq::<SpecSymbolRow>::empty()
    } else if ss[i].repo_id == rid && spec_is_entry_name(ss[i].name) {
        seq![ss[i]] + spec_entry_points(ss, rid, limit - 1, i + 1)
    } else {
        spec_entry_points(ss, rid, limit, i + 1)
    }
}

impl Store {
    /// The repository overview: the language histogram by falling count, the
    /// up to twenty directories with the most symbols, the up to ten widest
    /// container symbols, and the first up to five symbols named like an
    /// entry point. Ties in any of the orders fall in no particular place.
    pub fn get_overview(&self, repo_path: &str) -> (r: Result<OverviewData, StoreError>)
        ensures
            match r {
                Ok(o) => repo_ok(self@, repo_path@) && o.repo_name@ == spec_repo_name(repo_path@)
                    && hist_view(o.languages@).to_multiset() == spec_lang_hist(
                    self@.files,
                    repo_id_of(self@),
                    self@.files.len() as int,
                ).to_multiset() && (forall|a: int, b: int|
                    0 <= a < b < o.languages@.len() ==> #[trigger] crate::sorting::spec_count_ge(
                        o.languages@[a],
                        o.languages@[b],
                    )) && (exists|full: Seq<ModuleInfo>|
                    modules_view(full).to_multiset() == spec_modules(
                        self@,
                        repo_id_of(self@),
                        self@.files.len() as int,
                    ).to_multiset() && (forall|a: int, b: int|
                        0 <= a < b < full.len() ==> #[trigger] crate::sorting::spec_module_ge(
                            full[a],
                            full[b],
                        )) && o.modules@ == full.take(
                        if full.len() <= 20 {
                            full.len() as int
                        } else {
                            20
                        },
                    )) && (exists|full: Seq<SymbolRecord>|
                    symbols_view(full).to_multiset() == spec_containers(
                        self@.symbols,
                        repo_id_of(self@),
                    ).to_multiset() && (forall|a: int, b: int|
                        0 <= a < b < full.len() ==> #[trigger] crate::sorting::spec_span_ge(
                            full[a],
                            full[b],
                        )) && o.top_types@ == full.take(
                        if full.len() <= 10 {
                            full.len() as int
                        } else {
                            10
                        },
                    )) && symbols_view(o.entry_points@) == spec_entry_points(
                    self@.symbols,
                    repo_id_of(self@),
                    5,
                    0,
                ),
                Err(e) => e == StoreError::NotIndexed && !repo_ok(self@, repo_path@),
            },
    {
        if !self.repo_matches(repo_path) {
            return Err(StoreError::NotIndexed);
        }
        let rid = match &self.repo {
            Some(rr) => rr.id,
            None => {
                return Err(StoreError::NotIndexed);
            },
        };

        let pn = repo_path.unicode_len();
        let slash_end = crate::indexer::last_char_end_exec(repo_path, '/', pn);
        proof {
            crate::indexer::lemma_last_char_end_bounds_pub(repo_path@, '/', pn as int);
        }
        let repo_name = repo_path.substring_char(slash_end, pn).to_owned();
        proof {
            assert(repo_name@ =~= spec_repo_name(repo_path@));
        }

        // Languages: the histogram, then by falling count.
        let fn_len = self.files.len();
        let mut languages: Vec<(String, i64)> = Vec::new();
        let mut i: usize = 0;
        proof {
            assert(hist_view(languages@) =~= spec_lang_hist(self@.files, rid as int, 0));
        }
        while i < fn_len
            invariant
                fn_len == self.files@.len(),
                i <= fn_len,
                hist_view(languages@) == spec_lang_hist(self@.files, rid as int, i as int),
            decreases fn_len - i,
        {
            if self.files[i].repo_id == rid {
                hist_bump_exec(&mut languages, self.files[i].language.as_str());
            }
            i = i + 1;
        }
        let ghost lang_pre = languages@;
        let languages = crate::sorting::sort_hist_by_count(languages);
        proof {
            crate::sorting::lemma_map_values_multiset(
                languages@,
                lang_pre,
                |p: (String, i64)| (p.0@, p.1 as int),
            );
        }

        // Directory aggregates, then by falling symbol count, top twenty.
        let mut modules: Vec<ModuleInfo> = Vec::new();
        let mut q: usize = 0;
        proof {
            assert(modules_view(modules@) =~= spec_modules(self@, rid as int, 0));
        }
        while q < fn_len
            invariant
                fn_len == self.files@.len(),
                q <= fn_len,
                modules_view(modules@) == spec_modules(self@, rid as int, q as int),
            decreases fn_len - q,
        {
            if self.files[q].repo_id == rid {
                let fid = self.files[q].id;
                let sn = self.symbols.len();
                let mut syms: i64 = 0;
                let mut k: usize = 0;
                while k < sn
                    invariant
                        sn == self.symbols@.len(),
                        k <= sn,
                        syms as int == clamp_line(
                            count_file_symbols(self@.symbols, fid as int, k as int),
                        ),
                        0 <= syms,
                    decreases sn - k,
                {
                    if self.symbols[k].file_id == fid {
                        if syms < i64::MAX {
                            syms = syms + 1;
                        }
                    }
                    k = k + 1;
                }
                let dir = dir_of(self.files[q].rel_path.as_str());
                module_bump_exec(&mut modules, dir.as_str(), syms);
            }
            q = q + 1;
        }
        let ghost mod_pre = modules@;
        let mut modules = crate::sorting::sort_modules_by_count(modules);
        proof {
            crate::sorting::lemma_map_values_multiset(
                modules@,
                mod_pre,
                |m: ModuleInfo| module_view(m),
            );
        }
        let ghost modules_full = modules@;
        modules.truncate(20);

        // Container symbols, widest first, top ten.
        let sn = self.symbols.len();
        let mut containers: Vec<SymbolRecord> = Vec::new();
        let mut c: usize = 0;
        proof {
            assert(symbols_view(containers@) =~= spec_containers(
                self@.symbols.take(0),
                rid as int,
            ));
        }
        while c < sn
            invariant
                sn == self.symbols@.len(),
                c <= sn,
                symbols_view(containers@) == spec_containers(
                    self@.symbols.take(c as int),
                    rid as int,
                ),
            decreases sn - c,
        {
            proof {
                assert(self@.symbols.take(c + 1).drop_last() =~= self@.symbols.take(c as int));
                assert(self@.symbols.take(c + 1).last() == self@.symbols[c as int]);
            }
            let kindful = self.symbols[c].repo_id == rid && (str_eq(
                self.symbols[c].kind.as_str(),
                "class",
            ) || str_eq(self.symbols[c].kind.as_str(), "interface") || str_eq(
                self.symbols[c].kind.as_str(),
                "struct",
            ) || str_eq(self.symbols[c].kind.as_str(), "enum") || str_eq(
                self.symbols[c].kind.as_str(),
                "trait",
            ));
            if kindful {
                let ghost before = containers@;
                containers.push(self.symbols[c].duplicate());
                proof {
                    assert(symbols_view(containers@) =~= symbols_view(before).push(
                        symbol_view(containers@.last()),
                    ));
                    assert(symbols_view(containers@) =~= spec_containers(
                        self@.symbols.take(c + 1),
                        rid as int,
                    ));
                }
            } else {
                proof {
                    assert(symbols_view(containers@) =~= spec_containers(
                        self@.symbols.take(c + 1),
                        rid as int,
                    ));
                }
            }
            c = c + 1;
        }
        proof {
            assert(self@.symbols.take(sn as int) =~= self@.symbols);
        }
        let ghost cont_pre = containers@;
        let mut top_types = crate::sorting::sort_symbols_by_span(containers);
        proof {
            crate::sorting::lemma_map_values_multiset(
                top_types@,
                cont_pre,
                |x: SymbolRecord| symbol_view(x),
            );
        }
        let ghost types_full = top_types@;
        top_types.truncate(10);

        // Entry points: the first five symbols with an entry-point name.
        let mut entry_points: Vec<SymbolRecord> = Vec::new();
        let mut e: usize = 0;
        while e < sn && entry_points.len() < 5
            invariant
                sn == self.symbols@.len(),
                e <= sn,
                entry_points@.len() <= 5,
                spec_entry_points(self@.symbols, rid as int, 5, 0) == symbols_view(entry_points@)
                    + spec_entry_points(
                    self@.symbols,
                    rid as int,
                    5 - entry_points@.len(),
                    e as int,
                ),
            decreases sn - e,
        {
            let named = self.symbols[e].repo_id == rid && (str_eq(
                self.symbols[e].name.as_str(),
                "main",
            ) || str_eq(self.symbols[e].name.as_str(), "index") || str_eq(
                self.symbols[e].name.as_str(),
                "app",
            ) || str_eq(self.symbols[e].name.as_str(), "server"));
            if named {
                let ghost before = entry_points@;
                entry_points.push(self.symbols[e].duplicate());
                proof {
                    assert(symbols_view(entry_points@) =~= symbols_view(before).push(
                        symbol_view(entry_points@.last()),
                    ));
                    assert(symbols_view(entry_points@) + spec_entry_points(
                        self@.symbols,
                        rid as int,
                        5 - entry_points@.len(),
                        e + 1,
                    ) =~= symbols_view(before) + (seq![
                        symbol_view(entry_points@.last()),
                    ] + spec_entry_points(
                        self@.symbols,
                        rid as int,
                        5 - entry_points@.len(),
                        e + 1,
                    )));
                }
            }
            e = e + 1;
        }
        proof {
            assert(spec_entry_points(
                self@.symbols,
                rid as int,
                5 - entry_points@.len(),
                e as int,
            ) =~= Seq::<SpecSymbolRow>::empty());
            assert(symbols_view(entry_points@) =~= symbols_view(entry_points@) + Seq::<
                SpecSymbolRow,
            >::empty());
        }

        proof {
            assert(modules@ =~= modules_full.take(
                if modules_full.len() <= 20 {
                    modules_full.len() as int
                } else {
                    20
                },
            ));
            assert(top_types@ =~= types_full.take(
                if types_full.len() <= 10 {
                    types_full.len() as int
                } else {
                    10
                },
            ));
            assert(exists|full: Seq<ModuleInfo>|
                modules_view(full).to_multiset() == spec_modules(
                    self@,
                    rid as int,
                    self@.files.len() as int,
                ).to_multiset() && (forall|a: int, b: int|
                    0 <= a < b < full.len() ==> #[trigger] crate::sorting::spec_module_ge(
                        full[a],
                        full[b],
                    )) && modules@ == full.take(
                    if full.len() <= 20 {
                        full.len() as int
                    } else {
                        20
                    },
                )) by {
                assert(modules_view(modules_full).to_multiset() == spec_modules(
                    self@,
                    rid as int,
                    self@.files.len() as int,
                ).to_multiset());
            }
            assert(exists|full: Seq<SymbolRecord>|
                symbols_view(full).to_multiset() == spec_containers(
                    self@.symbols,
                    rid as int,
                ).to_multiset() && (forall|a: int, b: int|
                    0 <= a < b < full.len() ==> #[trigger] crate::sorting::spec_span_ge(
                        full[a],
                        full[b],
                    )) && top_types@ == full.take(
                    if full.len() <= 10 {
                        full.len() as int
                    } else {
                        10
                    },
                )) by {
                assert(symbols_view(types_full).to_multiset() == spec_containers(
                    self@.symbols,
                    rid as int,
                ).to_multiset());
            }
        }
        Ok(
            OverviewData {
                repo_name,
                languages,
                modules,
                top_types,
                entry_points,
            },
        )
    }
}

fn dir_of(rel: &str) -> (r: String)
    ensures
        r@ == spec_dir_of(rel@),
{
    let n = rel.unicode_len();
    let mut j: usize = 0;
    while j < n && rel.get_char(j) != '/'
        invariant
            n == rel@.len(),
            j <= n,
            crate::strutil::find_char_from(rel@, '/', 0) == crate::strutil::find_char_from(
                rel@,
                '/',
                j as int,
            ),
        decreases n - j,
    {
        j = j + 1;
    }
    if j < n {
        proof {
            assert(crate::strutil::find_char_from(rel@, '/', 0) == j);
        }
        let d = rel.substring_char(0, j + 1);
        d.to_owned()
    } else {
        let mut d = String::new();
        d.append("./");
        proof {
            assert(d@ =~= "./"@);
        }
        d
    }
}

fn module_bump_exec(h: &mut Vec<ModuleInfo>, dir: &str, syms: i64)
    requires
        0 <= syms,
    ensures
        modules_view(final(h)@) == module_bump(modules_view(old(h)@), dir@, syms as int, 0),
{
    let n = h.len();
    let mut i: usize = 0;
    while i < n
        invariant
            n == h@.len(),
            h@ == old(h)@,
            i <= n,
            0 <= syms,
            module_bump(modules_view(h@), dir@, syms as int, 0) == module_bump(
                modules_view(h@),
                dir@,
                syms as int,
                i as int,
            ),
        decreases n - i,
    {
        proof {
            assert(modules_view(h@)[i as int] == module_view(h@[i as int]));
        }
        if str_eq(h[i].path.as_str(), dir) {
            let fc = h[i].file_count;
            let sc = h[i].symbol_count;
            let fc2 = if fc < i64::MAX {
                fc + 1
            } else {
                fc
            };
            let sc2 = if sc <= i64::MAX - syms {
                sc + syms
            } else {
                i64::MAX
            };
            let key = h[i].path.clone();
            let ghost before = h@;
            h.set(i, ModuleInfo { path: key, file_count: fc2, symbol_count: sc2 });
            proof {
                assert(modules_view(h@) =~= modules_view(before).update(
                    i as int,
                    module_view(h@[i as int]),
                ));
                assert(modules_view(h@) =~= module_bump(
                    modules_view(before),
                    dir@,
                    syms as int,
                    i as int,
                ));
            }
            return;
        }
        i = i + 1;
    }
    let ghost before = h@;
    h.push(ModuleInfo { path: dir.to_owned(), file_count: 1, symbol_count: syms });
    proof {
        assert(modules_view(h@) =~= modules_view(before).push(module_view(h@.last())));
    }
}


/// One indexed repository as the repository listing shows it: its path and
/// freshness from the store, its database location and size from the caller
/// who found the file on disk.
#[derive(Debug)]
pub struct RepoInfo {
    pub abs_path: String,
    pub last_indexed_at: Option<String>,
    pub file_count: i64,
    pub symbol_count: i64,
    pub db_path: String,
    pub db_size_bytes: u64,
}

impl Store {
    /// The listing row this store stands for, or nothing when it holds no
    /// repository; the caller supplies where its database file lives and how
    /// big it is.
    pub fn repo_info_of(&self, db_path: &str, db_size_bytes: u64) -> (r: Option<RepoInfo>)
        ensures
            match r {
                Some(info) => self@.repo matches Some(rr) && info.abs_path@ == rr.abs_path
                    && opt_str_view(info.last_indexed_at) == rr.last_indexed_at
                    && info.file_count as int == clamp_line(
                    count_repo_files(self@.files, rr.id, self@.files.len() as int),
                ) && info.symbol_count as int == clamp_line(
                    count_repo_symbols(self@.symbols, rr.id, self@.symbols.len() as int),
                ) && info.db_path@ == db_path@ && info.db_size_bytes == db_size_bytes,
                None => self@.repo is None,
            },
    {
        let (rid, abs_path, last_indexed_at) = match &self.repo {
            Some(rr) => (rr.id, rr.abs_path.clone(), clone_opt_string(&rr.last_indexed_at)),
            None => {
                return None;
            },
        };

        let fn_len = self.files.len();
        let mut file_count: i64 = 0;
        let mut i: usize = 0;
        while i < fn_len
            invariant
                fn_len == self.files@.len(),
                i <= fn_len,
                file_count as int == clamp_line(
                    count_repo_files(self@.files, rid as int, i as int),
                ),
                0 <= file_count,
            decreases fn_len - i,
        {
            if self.files[i].repo_id == rid {
                if file_count < i64::MAX {
                    file_count = file_count + 1;
                }
            }
            i = i + 1;
        }

        let sn = self.symbols.len();
        let mut symbol_count: i64 = 0;
        let mut k: usize = 0;
        while k < sn
            invariant
                sn == self.symbols@.len(),
                k <= sn,
                symbol_count as int == clamp_line(
                    count_repo_symbols(self@.symbols, rid as int, k as int),
                ),
                0 <= symbol_count,
            decreases sn - k,
        {
            if self.symbols[k].repo_id == rid {
                if symbol_count < i64::MAX {
                    symbol_count = symbol_count + 1;
                }
            }
            k = k + 1;
        }

        Some(
            RepoInfo {
                abs_path,
                last_indexed_at,
                file_count,
                symbol_count,
                db_path: db_path.to_owned(),
                db_size_bytes,
            },
        )
    }
}

/// Index freshness and size: when last indexed, row totals, and the
/// language histogram.
#[derive(Debug)]
pub struct IndexStatus {
    pub repo_path: String,
    pub indexed_at: Option<String>,
    pub total_files: i64,
    pub total_symbols: i64,
    pub total_refs: i64,
    pub stale_files: Vec<String>,
    pub deleted_files: Vec<String>,
    pub languages: Vec<(String, i64)>,
}

/// How many of the repository's rows the first `i` file rows hold.
pub open spec fn count_repo_files(fs: Seq<SpecFileRow>, rid: int, i: int) -> int
    decreases i,
{
    if i <= 0 || i > fs.len() {
        0
    } else {
        count_repo_files(fs, rid, i - 1) + (if fs[i - 1].repo_id == rid {
            1int
        } else {
            0int
        })
    }
}

/// How many of the repository's rows the first `i` symbol rows hold.
pub open spec fn count_repo_symbols(ss: Seq<SpecSymbolRow>, rid: int, i: int) -> int
    decreases i,
{
    if i <= 0 || i > ss.len() {
        0
    } else {
        count_repo_symbols(ss, rid, i - 1) + (if ss[i - 1].repo_id == rid {
            1int
        } else {
            0int
        })
    }
}

/// How many of the first `i` references come from a symbol of the
/// repository.
pub open spec fn count_repo_refs(m: StoreModel, rid: int, i: int) -> int
    decreases i,
{
    if i <= 0 || i > m.refs.len() {
        0
    } else {
        count_repo_refs(m, rid, i - 1) + (match find_symbol_from(
            m.symbols,
            m.refs[i - 1].from_symbol_id,
            0,
        ) {
            Some(j) => if m.symbols[j].repo_id == rid {
                1int
            } else {
                0int
            },
            None => 0int,
        })
    }
}

/// A histogram with one language's count raised, or the language appended
/// with count one.
pub open spec fn hist_bump(h: Seq<(Seq<char>, int)>, lang: Seq<char>, i: int) -> Seq<
    (Seq<char>, int),
>
    decreases h.len() - i,
{
    if !(0 <= i < h.len()) {
        h.push((lang, 1))
    } else if h[i].0 == lang {
        h.update(
            i,
            (
                lang,
                if h[i].1 < i64::MAX {
                    h[i].1 + 1
                } else {
                    h[i].1
                },
            ),
        )
    } else {
        hist_bump(h, lang, i + 1)
    }
}

/// The language histogram of the repository's first `i` file rows, languages
/// in first-seen order.
pub open spec fn spec_lang_hist(fs: Seq<SpecFileRow>, rid: int, i: int) -> Seq<(Seq<char>, int)>
    decreases i,
{
    if i <= 0 || i > fs.len() {
        Seq::<(Seq<char>, int)>::empty()
    } else {
        let prev = spec_lang_hist(fs, rid, i - 1);
        if fs[i - 1].repo_id == rid {
            hist_bump(prev, fs[i - 1].language, 0)
        } else {
            prev
        }
    }
}

/// The view of a language histogram.
pub open spec fn hist_view(h: Seq<(String, i64)>) -> Seq<(Seq<char>, int)> {
    h.map_values(|p: (String, i64)| (p.0@, p.1 as int))
}

fn hist_bump_exec(h: &mut Vec<(String, i64)>, lang: &str)
    ensures
        hist_view(final(h)@) == hist_bump(hist_view(old(h)@), lang@, 0),
{
    let n = h.len();
    let mut i: usize = 0;
    while i < n
        invariant
            n == h@.len(),
            h@ == old(h)@,
            i <= n,
            hist_bump(hist_view(h@), lang@, 0) == hist_bump(hist_view(h@), lang@, i as int),
        decreases n - i,
    {
        proof {
            assert(hist_view(h@)[i as int] == (h@[i as int].0@, h@[i as int].1 as int));
        }
        if str_eq(h[i].0.as_str(), lang) {
            let c = h[i].1;
            let c2 = if c < i64::MAX {
                c + 1
            } else {
                c
            };
            let key = h[i].0.clone();
            let ghost before = h@;
            h.set(i, (key, c2));
            proof {
                assert(hist_view(h@) =~= hist_view(before).update(
                    i as int,
                    (lang@, c2 as int),
                ));
                assert(hist_view(h@) =~= hist_bump(hist_view(before), lang@, i as int));
            }
            return;
        }
        i = i + 1;
    }
    let ghost before = h@;
    h.push((lang.to_owned(), 1));
    proof {
        assert(hist_view(h@) =~= hist_view(before).push((lang@, 1)));
    }
}

impl Store {
    /// The repository's totals, its last-indexed stamp, and its language
    /// histogram in first-seen order. The stale and deleted lists are the
    /// walk's to fill; here they are empty.
    pub fn get_index_status(&self, repo_path: &str) -> (r: Result<IndexStatus, StoreError>)
        ensures
            match r {
                Ok(st) => repo_ok(self@, repo_path@) && st.repo_path@ == repo_path@
                    && opt_str_view(st.indexed_at) == (match self@.repo {
                    Some(rr) => rr.last_indexed_at,
                    None => None,
                }) && st.total_files as int == clamp_line(
                    count_repo_files(self@.files, repo_id_of(self@), self@.files.len() as int),
                ) && st.total_symbols as int == clamp_line(
                    count_repo_symbols(
                        self@.symbols,
                        repo_id_of(self@),
                        self@.symbols.len() as int,
                    ),
                ) && st.total_refs as int == clamp_line(
                    count_repo_refs(self@, repo_id_of(self@), self@.refs.len() as int),
                ) && hist_view(st.languages@) == spec_lang_hist(
                    self@.files,
                    repo_id_of(self@),
                    self@.files.len() as int,
                ) && st.stale_files@.len() == 0 && st.deleted_files@.len() == 0,
                Err(e) => e == StoreError::NotIndexed && !repo_ok(self@, repo_path@),
            },
    {
        if !self.repo_matches(repo_path) {
            return Err(StoreError::NotIndexed);
        }
        let (rid, indexed_at) = match &self.repo {
            Some(rr) => (rr.id, clone_opt_string(&rr.last_indexed_at)),
            None => {
                return Err(StoreError::NotIndexed);
            },
        };

        let fn_len = self.files.len();
        let mut total_files: i64 = 0;
        let mut languages: Vec<(String, i64)> = Vec::new();
        let mut i: usize = 0;
        proof {
            assert(hist_view(languages@) =~= spec_lang_hist(self@.files, rid as int, 0));
        }
        while i < fn_len
            invariant
                fn_len == self.files@.len(),
                i <= fn_len,
                total_files as int == clamp_line(
                    count_repo_files(self@.files, rid as int, i as int),
                ),
                0 <= total_files,
                hist_view(languages@) == spec_lang_hist(self@.files, rid as int, i as int),
            decreases fn_len - i,
        {
            if self.files[i].repo_id == rid {
                if total_files < i64::MAX {
                    total_files = total_files + 1;
                }
                hist_bump_exec(&mut languages, self.files[i].language.as_str());
            }
            i = i + 1;
        }

        let sn = self.symbols.len();
        let mut total_symbols: i64 = 0;
        let mut k: usize = 0;
        while k < sn
            invariant
                sn == self.symbols@.len(),
                k <= sn,
                total_symbols as int == clamp_line(
                    count_repo_symbols(self@.symbols, rid as int, k as int),
                ),
                0 <= total_symbols,
            decreases sn - k,
        {
            if self.symbols[k].repo_id == rid {
                if total_symbols < i64::MAX {
                    total_symbols = total_symbols + 1;
                }
            }
            k = k + 1;
        }

        let rn = self.refs.len();
        let mut total_refs: i64 = 0;
        let mut q: usize = 0;
        while q < rn
            invariant
                rn == self.refs@.len(),
                q <= rn,
                total_refs as int == clamp_line(count_repo_refs(self@, rid as int, q as int)),
                0 <= total_refs,
            decreases rn - q,
        {
            let hit = match find_symbol_index(&self.symbols, self.refs[q].from_symbol_id) {
                Some(j) => self.symbols[j].repo_id == rid,
                None => false,
            };
            if hit {
                if total_refs < i64::MAX {
                    total_refs = total_refs + 1;
                }
            }
            q = q + 1;
        }

        Ok(
            IndexStatus {
                repo_path: repo_path.to_owned(),
                indexed_at,
                total_files,
                total_symbols,
                total_refs,
                stale_files: Vec::new(),
                deleted_files: Vec::new(),
                languages,
            },
        )
    }
}

/// The raw reference row a joined record stands for.
pub open spec fn ref_record_row(r: RefRecord) -> SpecRefRow {
    SpecRefRow {
        from_symbol_id: r.from_symbol_id as int,
        to_symbol_id: opt_id_view(r.to_symbol_id),
        to_name: r.to_name@,
        ref_kind: r.ref_kind@,
        line: match r.line {
            Some(l) => l as int,
            None => 0,
        },
    }
}

/// The raw rows a list of joined records stands for.
pub open spec fn rows_of_ref_records(rs: Seq<RefRecord>) -> Seq<SpecRefRow> {
    rs.map_values(|r: RefRecord| ref_record_row(r))
}

/// The index of the first symbol row with this id.
pub fn find_symbol_index(ss: &Vec<SymbolRecord>, id: i64) -> (r: Option<usize>)
    ensures
        match r {
            Some(j) => Some(j as int) == find_symbol_from(symbols_view(ss@), id as int, 0) && j
                < ss@.len(),
            None => find_symbol_from(symbols_view(ss@), id as int, 0) is None,
        },
{
    let n = ss.len();
    let mut i: usize = 0;
    while i < n
        invariant
            n == ss@.len(),
            i <= n,
            find_symbol_from(symbols_view(ss@), id as int, 0) == find_symbol_from(
                symbols_view(ss@),
                id as int,
                i as int,
            ),
        decreases n - i,
    {
        if ss[i].id == id {
            return Some(i);
        }
        i = i + 1;
    }
    None
}

fn clone_opt_string(o: &Option<String>) -> (r: Option<String>)
    ensures
        r == *o,
{
    match o {
        Some(s) => Some(s.clone()),
        None => None,
    }
}

impl StoredRef {
    /// A field-for-field copy.
    pub fn duplicate(&self) -> (r: StoredRef)
        ensures
            r == *self,
    {
        StoredRef {
            from_symbol_id: self.from_symbol_id,
            to_symbol_id: self.to_symbol_id,
            to_name: self.to_name.clone(),
            ref_kind: self.ref_kind.clone(),
            line: self.line,
        }
    }
}

impl SymbolRecord {
    /// A field-for-field copy.
    pub fn duplicate(&self) -> (r: SymbolRecord)
        ensures
            r == *self,
    {
        SymbolRecord {
            id: self.id,
            file_id: self.file_id,
            repo_id: self.repo_id,
            name: self.name.clone(),
            kind: self.kind.clone(),
            signature: clone_opt_string(&self.signature),
            doc_comment: clone_opt_string(&self.doc_comment),
            start_line: self.start_line,
            end_line: self.end_line,
            file_rel_path: self.file_rel_path.clone(),
            parent_symbol_id: self.parent_symbol_id,
            name_tokens: self.name_tokens.clone(),
        }
    }
}

impl FileRecord {
    /// A field-for-field copy.
    pub fn duplicate(&self) -> (r: FileRecord)
        ensures
            r == *self,
    {
        FileRecord {
            id: self.id,
            repo_id: self.repo_id,
            rel_path: self.rel_path.clone(),
            content_hash: self.content_hash.clone(),
            language: self.language.clone(),
            last_indexed_at: self.last_indexed_at.clone(),
        }
    }
}

/// The index of the first symbol row of the repository with this name.
fn find_named_index(ss: &Vec<SymbolRecord>, rid: i64, name: &str) -> (r: Option<usize>)
    ensures
        match r {
            Some(j) => Some(j as int) == find_named_from(symbols_view(ss@), rid as int, name@, 0)
                && j < ss@.len(),
            None => find_named_from(symbols_view(ss@), rid as int, name@, 0) is None,
        },
{
    let n = ss.len();
    let mut i: usize = 0;
    while i < n
        invariant
            n == ss@.len(),
            i <= n,
            find_named_from(symbols_view(ss@), rid as int, name@, 0) == find_named_from(
                symbols_view(ss@),
                rid as int,
                name@,
                i as int,
            ),
        decreases n - i,
    {
        if ss[i].repo_id == rid && str_eq(ss[i].name.as_str(), name) {
            return Some(i);
        }
        i = i + 1;
    }
    None
}

/// The index of the first symbol row of the repository with this name under
/// this parent.
fn find_named_child_index(ss: &Vec<SymbolRecord>, rid: i64, name: &str, parent: i64) -> (r: Option<
    usize,
>)
    ensures
        match r {
            Some(j) => Some(j as int) == find_named_child_from(
                symbols_view(ss@),
                rid as int,
                name@,
                parent as int,
                0,
            ) && j < ss@.len(),
            None => find_named_child_from(
                symbols_view(ss@),
                rid as int,
                name@,
                parent as int,
                0,
            ) is None,
        },
{
    let n = ss.len();
    let mut i: usize = 0;
    while i < n
        invariant
            n == ss@.len(),
            i <= n,
            find_named_child_from(symbols_view(ss@), rid as int, name@, parent as int, 0)
                == find_named_child_from(
                symbols_view(ss@),
                rid as int,
                name@,
                parent as int,
                i as int,
            ),
        decreases n - i,
    {
        let pmatch = match ss[i].parent_symbol_id {
            Some(p) => p == parent,
            None => false,
        };
        if ss[i].repo_id == rid && pmatch && str_eq(ss[i].name.as_str(), name) {
            return Some(i);
        }
        i = i + 1;
    }
    None
}

/// A duplicate reference row is already stored.
fn ref_dup_exists(rs: &Vec<StoredRef>, from: i64, name: &str, kind: &str, line: i64) -> (r: bool)
    ensures
        r == ref_dup_from(refs_rows_view(rs@), from as int, name@, kind@, line as int, 0),
{
    let n = rs.len();
    let mut i: usize = 0;
    while i < n
        invariant
            n == rs@.len(),
            i <= n,
            ref_dup_from(refs_rows_view(rs@), from as int, name@, kind@, line as int, 0)
                == ref_dup_from(refs_rows_view(rs@), from as int, name@, kind@, line as int, i as int),
        decreases n - i,
    {
        if rs[i].from_symbol_id == from && rs[i].line == line && str_eq(rs[i].to_name.as_str(), name)
            && str_eq(rs[i].ref_kind.as_str(), kind) {
            return true;
        }
        i = i + 1;
    }
    false
}

/// Concatenation adds forest counts.
pub proof fn lemma_forest_count_concat(a: Seq<SpecSymbol>, b: Seq<SpecSymbol>)
    ensures
        spec_forest_count(a + b) == spec_forest_count(a) + spec_forest_count(b),
    decreases b.len(),
{
    if b.len() == 0 {
        assert(a + b =~= a);
    } else {
        lemma_forest_count_concat(a, b.drop_last());
        assert((a + b).drop_last() =~= a + b.drop_last());
        assert((a + b).last() == b.last());
        assert(b.drop_last().push(b.last()) =~= b);
        assert(spec_forest_count(b) == spec_forest_count(b.drop_last()) + 1 + spec_forest_count(
            b.last().children,
        ));
    }
}

impl Store {
    fn push_refs(&mut self, from: i64, refs: &Vec<crate::symbols::ExtractedRef>)
        ensures
            final(self)@ == (StoreModel {
                refs: spec_add_refs(
                    old(self)@.refs,
                    from as int,
                    crate::symbols::refs_view(refs@),
                ),
                ..old(self)@
            }),
    {
        let ghost m0 = self@;
        let ghost rv = crate::symbols::refs_view(refs@);
        let n = refs.len();
        let mut i: usize = 0;
        proof {
            assert(rv.take(0) =~= Seq::<SpecRef>::empty());
        }
        while i < n
            invariant
                n == refs@.len(),
                rv == crate::symbols::refs_view(refs@),
                rv.len() == n,
                i <= n,
                m0 == old(self)@,
                self@ == (StoreModel {
                    refs: spec_add_refs(m0.refs, from as int, rv.take(i as int)),
                    ..m0
                }),
            decreases n - i,
        {
            proof {
                assert(rv.take(i + 1).drop_last() =~= rv.take(i as int));
                assert(rv.take(i + 1).last() == rv[i as int]);
                assert(rv[i as int] == crate::symbols::ref_view(refs@[i as int]));
            }
            let r = &refs[i];
            let kind = r.kind.as_str();
            let line = line_i64(r.line);
            if !ref_dup_exists(&self.refs, from, r.name.as_str(), kind, line) {
                let ghost before = self.refs@;
                self.refs.push(
                    StoredRef {
                        from_symbol_id: from,
                        to_symbol_id: None,
                        to_name: r.name.clone(),
                        ref_kind: kind.to_owned(),
                        line,
                    },
                );
                proof {
                    assert(refs_rows_view(self.refs@) =~= refs_rows_view(before).push(
                        ref_row_view(self.refs@.last()),
                    ));
                    assert(refs_rows_view(self.refs@) =~= spec_add_refs(
                        m0.refs,
                        from as int,
                        rv.take(i + 1),
                    ));
                }
            } else {
                proof {
                    assert(spec_add_refs(m0.refs, from as int, rv.take(i + 1)) =~= spec_add_refs(
                        m0.refs,
                        from as int,
                        rv.take(i as int),
                    ));
                }
            }
            i = i + 1;
        }
        proof {
            assert(rv.take(n as int) =~= rv);
        }
    }

    fn insert_tree_rec(
        &mut self,
        file_id: i64,
        repo_id: i64,
        file_rel_path: &str,
        sym: &crate::symbols::ExtractedSymbol,
        parent_id: Option<i64>,
    )
        requires
            0 <= old(self)@.next_symbol_id,
            old(self)@.next_symbol_id + spec_forest_count(
                seq![crate::symbols::sym_view(*sym)],
            ) <= i64::MAX,
        ensures
            final(self)@ == spec_insert_forest(
                old(self)@,
                file_id as int,
                repo_id as int,
                file_rel_path@,
                seq![crate::symbols::sym_view(*sym)],
                match parent_id {
                    Some(p) => Some(p as int),
                    None => None,
                },
            ),
        decreases *sym,
    {
        let ghost m0 = self@;
        let ghost t = crate::symbols::sym_view(*sym);
        let ghost parent = match parent_id {
            Some(p) => Some(p as int),
            None => None,
        };
        proof {
            assert(seq![t].drop_last() =~= Seq::<SpecSymbol>::empty());
            assert(seq![t].last() == t);
            assert(spec_insert_forest(m0, file_id as int, repo_id as int, file_rel_path@, Seq::<
                SpecSymbol,
            >::empty(), parent) == m0);
            assert(spec_forest_count(Seq::<SpecSymbol>::empty()) == 0);
            assert(spec_forest_count(seq![t]) == 1 + spec_forest_count(t.children));
        }
        let id = self.next_symbol_id;
        let row = SymbolRecord {
            id,
            file_id,
            repo_id,
            name: sym.name.clone(),
            kind: sym.kind.as_str().to_owned(),
            signature: clone_opt_string(&sym.signature),
            doc_comment: clone_opt_string(&sym.doc_comment),
            start_line: line_i64(sym.start_line),
            end_line: line_i64(sym.end_line),
            file_rel_path: file_rel_path.to_owned(),
            parent_symbol_id: parent_id,
            name_tokens: split_code_identifier(sym.name.as_str()),
        };
        let ghost before = self.symbols@;
        self.symbols.push(row);
        self.next_symbol_id = id + 1;
        proof {
            assert(symbols_view(self.symbols@) =~= symbols_view(before).push(
                symbol_view(self.symbols@.last()),
            ));
            assert(symbol_view(self.symbols@.last()) == row_of(
                t,
                id as int,
                file_id as int,
                repo_id as int,
                file_rel_path@,
                parent,
            ));
        }
        self.push_refs(id, &sym.references);
        let ghost m1 = self@;
        proof {
            assert(m1 == (StoreModel {
                symbols: m0.symbols.push(
                    row_of(
                        t,
                        m0.next_symbol_id,
                        file_id as int,
                        repo_id as int,
                        file_rel_path@,
                        parent,
                    ),
                ),
                refs: spec_add_refs(m0.refs, m0.next_symbol_id, t.references),
                next_symbol_id: m0.next_symbol_id + 1,
                ..m0
            }));
        }
        let ghost cviews = crate::symbols::syms_view(sym.children@);
        let cn = sym.children.len();
        let mut ci: usize = 0;
        proof {
            crate::symbols::lemma_syms_view_len(sym.children@);
            assert(cviews.take(0) =~= Seq::<SpecSymbol>::empty());
            assert(spec_insert_forest(m1, file_id as int, repo_id as int, file_rel_path@, cviews.take(0), Some(id as int)) == m1);
        }
        while ci < cn
            invariant
                cn == sym.children@.len(),
                ci <= cn,
                cviews == crate::symbols::syms_view(sym.children@),
                cviews.len() == cn,
                t == crate::symbols::sym_view(*sym),
                m1.next_symbol_id == id + 1,
                0 <= id,
                id + 1 + spec_forest_count(t.children) <= i64::MAX,
                cviews == t.children,
                self@ == spec_insert_forest(
                    m1,
                    file_id as int,
                    repo_id as int,
                    file_rel_path@,
                    cviews.take(ci as int),
                    Some(id as int),
                ),
            decreases cn - ci,
        {
            proof {
                crate::symbols::lemma_syms_view_index(sym.children@, ci as int);
                assert(cviews.take(ci as int).push(cviews[ci as int]) =~= cviews.take(ci + 1));
                lemma_insert_forest_frame(
                    m1,
                    file_id as int,
                    repo_id as int,
                    file_rel_path@,
                    cviews.take(ci as int),
                    Some(id as int),
                );
                assert(cviews.take(ci as int) + (seq![cviews[ci as int]] + cviews.skip(ci + 1))
                    =~= cviews);
                lemma_forest_count_concat(
                    cviews.take(ci as int),
                    seq![cviews[ci as int]] + cviews.skip(ci + 1),
                );
                lemma_forest_count_concat(seq![cviews[ci as int]], cviews.skip(ci + 1));
            }
            self.insert_tree_rec(file_id, repo_id, file_rel_path, &sym.children[ci], Some(id));
            proof {
                lemma_insert_forest_push(
                    m1,
                    file_id as int,
                    repo_id as int,
                    file_rel_path@,
                    cviews.take(ci as int),
                    cviews[ci as int],
                    Some(id as int),
                );
            }
            ci = ci + 1;
        }
        proof {
            assert(cviews.take(cn as int) =~= cviews);
        }
    }

    /// Inserts an extracted symbol tree: the symbol, its deduplicated
    /// outgoing references, and recursively its children, all unresolved.
    /// Refused only when the id space cannot hold the tree.
    pub fn insert_symbol_tree(
        &mut self,
        file_id: i64,
        repo_id: i64,
        file_rel_path: &str,
        sym: &crate::symbols::ExtractedSymbol,
        parent_id: Option<i64>,
    ) -> (r: Result<(), StoreError>)
        ensures
            match r {
                Ok(()) => can_insert(old(self)@, crate::symbols::sym_view(*sym)) && final(self)@
                    == spec_insert_forest(
                    old(self)@,
                    file_id as int,
                    repo_id as int,
                    file_rel_path@,
                    seq![crate::symbols::sym_view(*sym)],
                    match parent_id {
                        Some(p) => Some(p as int),
                        None => None,
                    },
                ),
                Err(e) => !can_insert(old(self)@, crate::symbols::sym_view(*sym)) && final(self)@
                    == old(self)@ && e == StoreError::Full,
            },
    {
        let ghost t = crate::symbols::sym_view(*sym);
        proof {
            assert(seq![t].drop_last() =~= Seq::<SpecSymbol>::empty());
            assert(seq![t].last() == t);
            assert(t.children == crate::symbols::syms_view(sym.children@));
            lemma_forest_count_view(sym.children@);
            assert(spec_forest_count(Seq::<SpecSymbol>::empty()) == 0);
            assert(spec_forest_count(seq![t]) == 1 + crate::symbols::spec_count_symbols_seq(
                sym.children@,
            ));
            assert(spec_forest_count(seq![t]) == crate::symbols::spec_count_symbols(*sym));
        }
        if self.next_symbol_id < 0 {
            return Err(StoreError::Full);
        }
        let cnt = crate::symbols::count_symbols(sym);
        if cnt == usize::MAX {
            return Err(StoreError::Full);
        }
        if (cnt as u64) > ((i64::MAX - self.next_symbol_id) as u64) {
            return Err(StoreError::Full);
        }
        self.insert_tree_rec(file_id, repo_id, file_rel_path, sym, parent_id);
        Ok(())
    }

    /// The index of the first file row of the repository with this path.
    pub fn find_file_index(&self, repo_id: i64, rel_path: &str) -> (r: Option<usize>)
        ensures
            match r {
                Some(j) => Some(j as int) == find_file_from(self@.files, repo_id as int, rel_path@, 0)
                    && j < self.files@.len(),
                None => find_file_from(self@.files, repo_id as int, rel_path@, 0) is None,
            },
    {
        let n = self.files.len();
        let mut i: usize = 0;
        while i < n
            invariant
                n == self.files@.len(),
                i <= n,
                find_file_from(self@.files, repo_id as int, rel_path@, 0) == find_file_from(
                    self@.files,
                    repo_id as int,
                    rel_path@,
                    i as int,
                ),
            decreases n - i,
        {
            if self.files[i].repo_id == repo_id && str_eq(self.files[i].rel_path.as_str(), rel_path)
            {
                return Some(i);
            }
            i = i + 1;
        }
        None
    }

    /// Resolves every unresolved reference of the repository by name against
    /// the symbol table: a `this.`-prefixed name first looks for the bare
    /// name under the referring symbol's parent; otherwise the first symbol
    /// with the target name wins; the rest stay unresolved. Returns how many
    /// references gained a target.
    pub fn resolve_references(&mut self, repo_id: i64) -> (r: usize)
        ensures
            final(self)@ == spec_resolve(old(self)@, repo_id as int),
    {
        let ghost m0 = self@;
        let n = self.refs.len();
        let mut updated: usize = 0;
        let mut i: usize = 0;
        while i < n
            invariant
                n == self.refs@.len(),
                n == m0.refs.len(),
                i <= n,
                m0 == old(self)@,
                symbols_view(self.symbols@) == m0.symbols,
                files_view(self.files@) == m0.files,
                self@.repo == m0.repo,
                self@.next_file_id == m0.next_file_id,
                self@.next_symbol_id == m0.next_symbol_id,
                updated <= i,
                forall|k: int|
                    i <= k < n ==> refs_rows_view(self.refs@)[k] == m0.refs[k],
                forall|k: int|
                    0 <= k < i ==> refs_rows_view(self.refs@)[k] == (SpecRefRow {
                        to_symbol_id: resolve_one(m0, m0.refs[k], repo_id as int),
                        ..m0.refs[k]
                    }),
            decreases n - i,
        {
            let already = self.refs[i].to_symbol_id.is_some();
            if !already {
                let new_target: Option<i64> = match find_symbol_index(
                    &self.symbols,
                    self.refs[i].from_symbol_id,
                ) {
                    None => None,
                    Some(fj) => {
                        if self.symbols[fj].repo_id != repo_id {
                            None
                        } else {
                            let to_name = &self.refs[i].to_name;
                            let this_match: Option<usize> = if crate::strutil::str_starts_with(
                                to_name.as_str(),
                                "this.",
                            ) {
                                match self.symbols[fj].parent_symbol_id {
                                    Some(p) => {
                                        let nlen = to_name.as_str().unicode_len();
                                        proof {
                                            reveal_strlit("this.");
                                            assert(to_name@.len() >= 5);
                                        }
                                        let suffix = to_name.as_str().substring_char(5, nlen);
                                        proof {
                                            assert(suffix@ =~= to_name@.skip(5));
                                        }
                                        find_named_child_index(
                                            &self.symbols,
                                            repo_id,
                                            suffix,
                                            p,
                                        )
                                    },
                                    None => None,
                                }
                            } else {
                                None
                            };
                            match this_match {
                                Some(j) => Some(self.symbols[j].id),
                                None => match find_named_index(
                                    &self.symbols,
                                    repo_id,
                                    to_name.as_str(),
                                ) {
                                    Some(j) => Some(self.symbols[j].id),
                                    None => None,
                                },
                            }
                        }
                    },
                };
                proof {
                    assert(opt_id_view(new_target) == resolve_one(
                        m0,
                        m0.refs[i as int],
                        repo_id as int,
                    ));
                }
                if new_target.is_some() {
                    updated = if updated < usize::MAX {
                        updated + 1
                    } else {
                        updated
                    };
                }
                let old_row = self.refs[i].duplicate();
                let ghost before = self.refs@;
                self.refs.set(
                    i,
                    StoredRef { to_symbol_id: new_target, ..old_row },
                );
                proof {
                    assert(refs_rows_view(self.refs@) =~= refs_rows_view(before).update(
                        i as int,
                        ref_row_view(self.refs@[i as int]),
                    ));
                }
            }
            i = i + 1;
        }
        proof {
            assert(refs_rows_view(self.refs@) =~= spec_resolve(m0, repo_id as int).refs);
        }
        updated
    }
}

} // verus!
