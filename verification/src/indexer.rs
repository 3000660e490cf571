//! The incremental indexing pipeline: filter, hash, parse, extract, upsert,
//! reconcile deletions, and resolve references — one transaction-like pass
//! over the files a directory walk handed in.

use vstd::prelude::*;

use crate::cst::{parse_source, parsed_cst, CstNode};
use crate::filters::{
    language_for_ext, matches_ignore_pattern, spec_detect_language, spec_language_for_ext,
    spec_matches_ignore, LanguageId,
};
use crate::hasher::{hash_bytes, sha256_hex};
use crate::store::{
    spec_clear_file_symbols, spec_delete_file, spec_ensure_repo, spec_insert_forest, spec_resolve,
    spec_upsert_file, Store, StoreError, StoreModel,
};
use crate::strutil::str_eq;
use crate::symbols::{syms_view, ExtractedSymbol, SpecSymbol};

verus! {

broadcast use vstd::std_specs::vec::axiom_vec_decreases_to_view;

/// What one index run did.
#[derive(Debug, Clone, PartialEq, Eq, Structural)]
pub struct IndexStats {
    pub files_total: usize,
    pub files_new: usize,
    pub files_changed: usize,
    pub files_unchanged: usize,
    pub files_deleted: usize,
    pub symbols_count: usize,
    pub refs_count: usize,
    pub duration_ms: u64,
}

/// One file the walk handed in: its path relative to the repository root and
/// its bytes.
pub struct FileInput {
    pub rel_path: String,
    pub bytes: Vec<u8>,
}

/// The mathematical mirror of a file input.
pub ghost struct SpecFileInput {
    pub rel_path: Seq<char>,
    pub bytes: Seq<u8>,
}

pub open spec fn file_input_view(f: FileInput) -> SpecFileInput {
    SpecFileInput { rel_path: f.rel_path@, bytes: f.bytes@ }
}

pub open spec fn file_inputs_view(fs: Seq<FileInput>) -> Seq<SpecFileInput> {
    fs.map_values(|f: FileInput| file_input_view(f))
}

/// The mathematical mirror of the statistics.
pub ghost struct SpecStats {
    pub files_new: int,
    pub files_changed: int,
    pub files_unchanged: int,
    pub files_deleted: int,
    pub symbols_count: int,
    pub refs_count: int,
}

pub open spec fn stats_view(s: IndexStats) -> SpecStats {
    SpecStats {
        files_new: s.files_new as int,
        files_changed: s.files_changed as int,
        files_unchanged: s.files_unchanged as int,
        files_deleted: s.files_deleted as int,
        symbols_count: s.symbols_count as int,
        refs_count: s.refs_count as int,
    }
}

// ── Extension and language routing ──

/// The end (exclusive) of the last `c` at or before `i`, or 0 when none.
pub open spec fn last_char_end(s: Seq<char>, c: char, i: int) -> int
    decreases i,
{
    if i <= 0 {
        0
    } else if s[i - 1] == c {
        i
    } else {
        last_char_end(s, c, i - 1)
    }
}

/// The extension of a relative path: what follows the last dot of the
/// basename, none when the basename has no dot or starts with its only dot.
pub open spec fn spec_ext_of(rel: Seq<char>) -> Option<Seq<char>> {
    let base_start = last_char_end(rel, '/', rel.len() as int);
    let dot_end = last_char_end(rel, '.', rel.len() as int);
    if dot_end <= base_start + 1 {
        None
    } else {
        Some(rel.subrange(dot_end, rel.len() as int))
    }
}

pub proof fn lemma_last_char_end_bounds_pub(s: Seq<char>, c: char, i: int)
    requires
        0 <= i <= s.len(),
    ensures
        0 <= last_char_end(s, c, i) <= i,
    decreases i,
{
    if i > 0 && s[i - 1] != c {
        lemma_last_char_end_bounds_pub(s, c, i - 1);
    }
}

pub fn last_char_end_exec(s: &str, c: char, n: usize) -> (r: usize)
    requires
        n == s@.len(),
    ensures
        r as int == last_char_end(s@, c, n as int),
{
    let mut i: usize = n;
    while i > 0
        invariant
            n == s@.len(),
            i <= n,
            last_char_end(s@, c, n as int) == last_char_end(s@, c, i as int),
        decreases i,
    {
        if s.get_char(i - 1) == c {
            return i;
        }
        i = i - 1;
    }
    0
}

/// The extension of a relative path, where it has one.
pub fn file_extension(rel: &str) -> (r: Option<String>)
    ensures
        crate::symbols::opt_view(r) == spec_ext_of(rel@),
{
    let n = rel.unicode_len();
    let slash_end = last_char_end_exec(rel, '/', n);
    let dot_end = last_char_end_exec(rel, '.', n);
    proof {
        lemma_last_char_end_bounds_pub(rel@, '/', n as int);
        lemma_last_char_end_bounds_pub(rel@, '.', n as int);
    }
    if dot_end == 0 || dot_end - 1 <= slash_end || dot_end > n {
        None
    } else {
        Some(rel.substring_char(dot_end, n).to_owned())
    }
}

// ── The per-file rule ──

/// A path the built-in ignores drop: one of its directory components is in
/// the ignored-directory set, or its basename ends in an ignored suffix.
pub open spec fn spec_builtin_reject(rel: Seq<char>) -> bool {
    let parts = crate::strutil::spec_tokens(rel, '/');
    (exists|k: int|
        0 <= k < parts.len() - 1 && crate::filters::spec_ignored_dir(#[trigger] parts[k])) || (
    parts.len() > 0 && crate::filters::spec_ignored_suffix(parts.last()))
}

/// True when the built-in ignores drop the relative path.
pub fn builtin_reject(rel: &str) -> (r: bool)
    ensures
        r == spec_builtin_reject(rel@),
{
    let parts = crate::strutil::tokens_of(rel, '/');
    let n = parts.len();
    let mut i: usize = 0;
    proof {
        assert(parts.deep_view().len() == n);
    }
    while i < n
        invariant
            n == parts@.len(),
            parts.deep_view() == crate::strutil::spec_tokens(rel@, '/'),
            parts.deep_view().len() == n,
            i <= n,
            forall|k: int|
                0 <= k < i && k < n - 1 ==> !crate::filters::spec_ignored_dir(
                    #[trigger] parts.deep_view()[k],
                ),
        decreases n - i,
    {
        proof {
            assert(parts.deep_view()[i as int] == parts@[i as int]@);
        }
        if i + 1 < n && crate::filters::is_ignored_component(parts[i].as_str()) {
            return true;
        }
        i = i + 1;
    }
    if n > 0 {
        proof {
            assert(parts.deep_view()[n - 1] == parts@[n - 1]@);
        }
        crate::filters::is_ignored_suffix(parts[n - 1].as_str())
    } else {
        false
    }
}

/// The extractor a file goes to, if the filter chain accepts it: its
/// extension must have an extractor, its size must not exceed the cap, its
/// path must be nonempty, and neither the built-in ignores nor a user
/// ignore pattern may drop it.
pub open spec fn spec_accept(
    f: SpecFileInput,
    patterns: Seq<Seq<char>>,
    max_size: int,
) -> Option<LanguageId> {
    match spec_ext_of(f.rel_path) {
        None => None,
        Some(ext) => match spec_language_for_ext(ext) {
            None => None,
            Some(lang) => if f.bytes.len() > max_size || f.rel_path.len() == 0
                || spec_builtin_reject(f.rel_path) || spec_matches_ignore(f.rel_path, patterns) {
                None
            } else {
                Some(lang)
            },
        },
    }
}

/// The filter chain with the repository's `.gitignore` in front: a path the
/// gitignore excludes goes to no extractor.
pub open spec fn spec_admit(
    f: SpecFileInput,
    patterns: Seq<Seq<char>>,
    max_size: int,
    grules: Option<Seq<char>>,
) -> Option<LanguageId> {
    if crate::gitignore::spec_gitignore_rejects(grules, f.rel_path) {
        None
    } else {
        spec_accept(f, patterns, max_size)
    }
}

/// The language tag a file is recorded under.
pub open spec fn spec_lang_tag(f: SpecFileInput) -> Seq<char> {
    match spec_ext_of(f.rel_path) {
        Some(ext) => match spec_detect_language(ext) {
            Some(t) => t,
            None => "unknown"@,
        },
        None => "unknown"@,
    }
}

/// What an extractor yields for a parsed tree.
pub open spec fn spec_extract(lang: LanguageId, root: CstNode) -> Seq<SpecSymbol> {
    match lang {
        LanguageId::Typescript => crate::typescript::spec_ts_extract_node(root),
        LanguageId::Python => crate::python::spec_py_extract(root),
        LanguageId::Rust => crate::rust_lang::spec_rust_extract(root),
        LanguageId::Ruby => crate::ruby::spec_rb_extract(root),
        LanguageId::Markdown => crate::markdown::spec_markdown_extract(root),
    }
}

/// Runs the extractor a language owns over a parsed tree.
pub fn extract_for(lang: LanguageId, root: &CstNode) -> (r: Vec<ExtractedSymbol>)
    ensures
        syms_view(r@) == spec_extract(lang, *root),
{
    match lang {
        LanguageId::Typescript => (crate::typescript::TypeScriptExtractor).extract(root),
        LanguageId::Python => (crate::python::PythonExtractor).extract(root),
        LanguageId::Rust => (crate::rust_lang::RustExtractor).extract(root),
        LanguageId::Ruby => (crate::ruby::RubyExtractor).extract(root),
        LanguageId::Markdown => (crate::markdown::MarkdownExtractor).extract(root),
    }
}

/// Inserting a whole forest of extracted trees, in order, each a root.
pub open spec fn spec_insert_roots(
    m: StoreModel,
    fid: int,
    rid: int,
    rel: Seq<char>,
    ts: Seq<SpecSymbol>,
    i: int,
) -> Option<StoreModel>
    decreases ts.len() - i,
{
    if !(0 <= i < ts.len()) {
        Some(m)
    } else if !crate::store::can_insert(m, ts[i]) {
        None
    } else {
        spec_insert_roots(
            spec_insert_forest(m, fid, rid, rel, seq![ts[i]], None),
            fid,
            rid,
            rel,
            ts,
            i + 1,
        )
    }
}

/// How many symbols and references a forest holds, clamped to the machine
/// limit as the running statistics are.
pub open spec fn clamp_usize(x: nat) -> int {
    if x > usize::MAX as nat {
        usize::MAX as int
    } else {
        x as int
    }
}

/// Adds with saturation at the machine limit.
pub open spec fn sat_add(a: int, b: int) -> int {
    if a + b > usize::MAX as int {
        usize::MAX as int
    } else {
        a + b
    }
}

fn sat_add_exec(a: usize, b: usize) -> (r: usize)
    ensures
        r as int == sat_add(a as int, b as int),
{
    a.saturating_add(b)
}

/// What processing one accepted file does: an unchanged hash leaves the
/// store alone; a parse failure skips the file; otherwise the file row is
/// upserted, its old symbols cleared, and the extracted forest inserted
/// unresolved. Nothing when the id space runs out.
pub open spec fn spec_process_file(
    m: StoreModel,
    rid: int,
    f: SpecFileInput,
    lang: LanguageId,
    now: Seq<char>,
    st: SpecStats,
) -> Option<(StoreModel, SpecStats)> {
    let hash = sha256_hex(f.bytes);
    let prev = crate::store::find_file_from(m.files, rid, f.rel_path, 0);
    let unchanged = match prev {
        Some(j) => m.files[j].content_hash == hash,
        None => false,
    };
    if unchanged {
        Some((m, SpecStats { files_unchanged: st.files_unchanged + 1, ..st }))
    } else {
        match parsed_cst(lang, f.bytes) {
            None => Some((m, st)),
            Some(root) => {
                match spec_upsert_file(m, rid, f.rel_path, hash, spec_lang_tag(f), now) {
                    Err(_) => None,
                    Ok((m2, fid)) => {
                        let m3 = spec_clear_file_symbols(m2, fid);
                        let ts = spec_extract(lang, root);
                        match spec_insert_roots(m3, fid, rid, f.rel_path, ts, 0) {
                            None => None,
                            Some(m4) => {
                                let st1 = SpecStats {
                                    symbols_count: spec_acc_syms(ts, 0, st.symbols_count),
                                    refs_count: spec_acc_refs(ts, 0, st.refs_count),
                                    ..st
                                };
                                Some(
                                    (
                                        m4,
                                        if prev is Some {
                                            SpecStats {
                                                files_changed: st1.files_changed + 1,
                                                ..st1
                                            }
                                        } else {
                                            SpecStats { files_new: st1.files_new + 1, ..st1 }
                                        },
                                    ),
                                )
                            },
                        }
                    },
                }
            },
        }
    }
}

/// The symbol counter after each root tree adds its clamped size.
pub open spec fn spec_acc_syms(ts: Seq<SpecSymbol>, i: int, acc: int) -> int
    decreases ts.len() - i,
{
    if !(0 <= i < ts.len()) {
        acc
    } else {
        spec_acc_syms(ts, i + 1, sat_add(acc, clamp_usize(crate::store::spec_forest_count(seq![ts[i]]))))
    }
}

/// The reference counter after each root tree adds its clamped size.
pub open spec fn spec_acc_refs(ts: Seq<SpecSymbol>, i: int, acc: int) -> int
    decreases ts.len() - i,
{
    if !(0 <= i < ts.len()) {
        acc
    } else {
        spec_acc_refs(ts, i + 1, sat_add(acc, clamp_usize(spec_forest_refs(seq![ts[i]]))))
    }
}

/// How many references a spec-level forest holds.
pub open spec fn spec_forest_refs(ts: Seq<SpecSymbol>) -> nat
    decreases ts,
{
    if ts.len() == 0 {
        0
    } else {
        spec_forest_refs(ts.drop_last()) + ts.last().references.len() + spec_forest_refs(
            ts.last().children,
        )
    }
}

/// The spec-level reference count agrees with the executable one.
pub proof fn lemma_forest_refs_view(ss: Seq<ExtractedSymbol>)
    ensures
        spec_forest_refs(crate::symbols::syms_view(ss)) == crate::symbols::spec_count_refs_seq(ss),
    decreases ss,
{
    if ss.len() > 0 {
        lemma_forest_refs_view(ss.drop_last());
        crate::symbols::lemma_syms_view_len(ss);
        assert(crate::symbols::syms_view(ss).drop_last() =~= crate::symbols::syms_view(
            ss.drop_last(),
        )) by {
            crate::symbols::lemma_syms_view_len(ss);
        }
        assert(crate::symbols::syms_view(ss).last() == crate::symbols::sym_view(ss.last())) by {
            crate::symbols::lemma_syms_view_index(ss, ss.len() - 1);
        }
        lemma_forest_refs_view(ss.last().children@);
        assert(crate::symbols::sym_view(ss.last()).references.len()
            == ss.last().references@.len());
    }
}

/// The walk state over the input files: the model and statistics so far, or
/// nothing once the id space ran out.
pub open spec fn spec_walk(
    m: StoreModel,
    rid: int,
    files: Seq<SpecFileInput>,
    patterns: Seq<Seq<char>>,
    max_size: int,
    grules: Option<Seq<char>>,
    now: Seq<char>,
    st: SpecStats,
    i: int,
) -> Option<(StoreModel, SpecStats)>
    decreases files.len() - i,
{
    if !(0 <= i < files.len()) {
        Some((m, st))
    } else {
        match spec_admit(files[i], patterns, max_size, grules) {
            None => spec_walk(m, rid, files, patterns, max_size, grules, now, st, i + 1),
            Some(lang) => match spec_process_file(m, rid, files[i], lang, now, st) {
                None => None,
                Some((m2, st2)) => spec_walk(
                    m2,
                    rid,
                    files,
                    patterns,
                    max_size,
                    grules,
                    now,
                    st2,
                    i + 1,
                ),
            },
        }
    }
}

/// A path was seen during the walk: some accepted input carries it.
pub open spec fn spec_seen(
    files: Seq<SpecFileInput>,
    patterns: Seq<Seq<char>>,
    max_size: int,
    grules: Option<Seq<char>>,
    rel: Seq<char>,
) -> bool {
    exists|i: int|
        0 <= i < files.len() && (#[trigger] files[i]).rel_path == rel && spec_admit(
            files[i],
            patterns,
            max_size,
            grules,
        ) is Some
}

/// The ids of the repository's file rows that the walk did not see: files
/// that have disappeared from disk (or fallen out of the filters).
pub open spec fn spec_stale_ids(
    fs: Seq<crate::store::SpecFileRow>,
    rid: int,
    files: Seq<SpecFileInput>,
    patterns: Seq<Seq<char>>,
    max_size: int,
    grules: Option<Seq<char>>,
) -> Seq<int>
    decreases fs.len(),
{
    if fs.len() == 0 {
        Seq::<int>::empty()
    } else {
        spec_stale_ids(fs.drop_last(), rid, files, patterns, max_size, grules) + (if fs.last().repo_id
            == rid && !spec_seen(files, patterns, max_size, grules, fs.last().rel_path) {
            seq![fs.last().id]
        } else {
            Seq::<int>::empty()
        })
    }
}

/// Deletes each listed file row in turn.
pub open spec fn spec_delete_ids(m: StoreModel, ids: Seq<int>, i: int) -> StoreModel
    decreases ids.len() - i,
{
    if !(0 <= i < ids.len()) {
        m
    } else {
        spec_delete_ids(spec_delete_file(m, ids[i]), ids, i + 1)
    }
}

/// The relative paths of the accepted inputs among the first `i`, in order.
pub open spec fn spec_accepted_rels(
    files: Seq<SpecFileInput>,
    patterns: Seq<Seq<char>>,
    max_size: int,
    grules: Option<Seq<char>>,
    i: int,
) -> Seq<Seq<char>>
    decreases i,
{
    if i <= 0 || i > files.len() {
        Seq::<Seq<char>>::empty()
    } else {
        spec_accepted_rels(files, patterns, max_size, grules, i - 1) + (if spec_admit(
            files[i - 1],
            patterns,
            max_size,
            grules,
        ) is Some {
            seq![files[i - 1].rel_path]
        } else {
            Seq::<Seq<char>>::empty()
        })
    }
}

/// A path is seen exactly when the accepted-path list holds it.
pub proof fn lemma_seen_iff(
    files: Seq<SpecFileInput>,
    patterns: Seq<Seq<char>>,
    max_size: int,
    grules: Option<Seq<char>>,
    i: int,
    rel: Seq<char>,
)
    requires
        0 <= i <= files.len(),
    ensures
        spec_accepted_rels(files, patterns, max_size, grules, i).contains(rel) <==> exists|j: int|
            0 <= j < i && (#[trigger] files[j]).rel_path == rel && spec_admit(
                files[j],
                patterns,
                max_size,
                grules,
            ) is Some,
    decreases i,
{
    if i > 0 {
        lemma_seen_iff(files, patterns, max_size, grules, i - 1, rel);
        let prev = spec_accepted_rels(files, patterns, max_size, grules, i - 1);
        let cur = spec_accepted_rels(files, patterns, max_size, grules, i);
        if spec_admit(files[i - 1], patterns, max_size, grules) is Some {
            assert(cur =~= prev.push(files[i - 1].rel_path));
            if cur.contains(rel) {
                let k = choose|k: int| 0 <= k < cur.len() && cur[k] == rel;
                if k < prev.len() {
                    assert(prev[k] == rel);
                    assert(prev.contains(rel));
                }
            }
            if prev.contains(rel) {
                let k = choose|k: int| 0 <= k < prev.len() && prev[k] == rel;
                assert(cur[k] == rel);
            }
            assert(cur[cur.len() - 1] == files[i - 1].rel_path);
        } else {
            assert(cur =~= prev);
        }
    }
}

/// What a full index run does, from the repository row to reference
/// resolution, or nothing when the symbol-id space runs out.
pub open spec fn spec_index(
    m: StoreModel,
    repo_path: Seq<char>,
    files: Seq<SpecFileInput>,
    patterns: Seq<Seq<char>>,
    max_size: int,
    grules: Option<Seq<char>>,
    now: Seq<char>,
) -> Option<(StoreModel, SpecStats)> {
    match spec_ensure_repo(m, repo_path) {
        Err(_) => None,
        Ok((m1, rid)) => {
            let st0 = SpecStats {
                files_new: 0,
                files_changed: 0,
                files_unchanged: 0,
                files_deleted: 0,
                symbols_count: 0,
                refs_count: 0,
            };
            match spec_walk(m1, rid, files, patterns, max_size, grules, now, st0, 0) {
                None => None,
                Some((mw, stw)) => {
                    let stale = spec_stale_ids(mw.files, rid, files, patterns, max_size, grules);
                    let md = spec_delete_ids(mw, stale, 0);
                    let mr = spec_resolve(md, rid);
                    let mt = StoreModel {
                        repo: match mr.repo {
                            Some(r) => Some(
                                crate::store::SpecRepoRow { last_indexed_at: Some(now), ..r },
                            ),
                            None => None,
                        },
                        ..mr
                    };
                    Some((mt, SpecStats { files_deleted: stale.len() as int, ..stw }))
                },
            }
        },
    }
}

/// What updating one accepted file does: the per-file rule of a full run,
/// hash-check included — a file whose stored hash already matches is left
/// alone; a parse failure skips it. A re-extracted file counts as changed
/// whether or not a row existed. Nothing when the id space runs out.
pub open spec fn spec_update_file(
    m: StoreModel,
    rid: int,
    f: SpecFileInput,
    lang: LanguageId,
    now: Seq<char>,
    st: SpecStats,
) -> Option<(StoreModel, SpecStats)> {
    let hash = sha256_hex(f.bytes);
    let unchanged = match crate::store::find_file_from(m.files, rid, f.rel_path, 0) {
        Some(j) => m.files[j].content_hash == hash,
        None => false,
    };
    if unchanged {
        Some((m, st))
    } else {
    match parsed_cst(lang, f.bytes) {
        None => Some((m, st)),
        Some(root) => {
            match spec_upsert_file(m, rid, f.rel_path, hash, spec_lang_tag(f), now) {
                Err(_) => None,
                Ok((m2, fid)) => {
                    let m3 = spec_clear_file_symbols(m2, fid);
                    let ts = spec_extract(lang, root);
                    match spec_insert_roots(m3, fid, rid, f.rel_path, ts, 0) {
                        None => None,
                        Some(m4) => Some(
                            (
                                m4,
                                SpecStats {
                                    files_changed: st.files_changed + 1,
                                    symbols_count: spec_acc_syms(ts, 0, st.symbols_count),
                                    refs_count: spec_acc_refs(ts, 0, st.refs_count),
                                    ..st
                                },
                            ),
                        ),
                    }
                },
            }
        },
    }
    }
}

/// The update walk over the given files.
pub open spec fn spec_update_walk(
    m: StoreModel,
    rid: int,
    files: Seq<SpecFileInput>,
    patterns: Seq<Seq<char>>,
    max_size: int,
    grules: Option<Seq<char>>,
    now: Seq<char>,
    st: SpecStats,
    i: int,
) -> Option<(StoreModel, SpecStats)>
    decreases files.len() - i,
{
    if !(0 <= i < files.len()) {
        Some((m, st))
    } else {
        match spec_admit(files[i], patterns, max_size, grules) {
            None => spec_update_walk(m, rid, files, patterns, max_size, grules, now, st, i + 1),
            Some(lang) => match spec_update_file(m, rid, files[i], lang, now, st) {
                None => None,
                Some((m2, st2)) => spec_update_walk(
                    m2,
                    rid,
                    files,
                    patterns,
                    max_size,
                    grules,
                    now,
                    st2,
                    i + 1,
                ),
            },
        }
    }
}

/// What an incremental update does: the accepted files among those the
/// watcher handed in are re-extracted and references resolved; no walk, no
/// deletion reconciliation, no repository timestamp.
pub open spec fn spec_update(
    m: StoreModel,
    repo_path: Seq<char>,
    files: Seq<SpecFileInput>,
    patterns: Seq<Seq<char>>,
    max_size: int,
    grules: Option<Seq<char>>,
    now: Seq<char>,
) -> Option<(StoreModel, SpecStats)> {
    match spec_ensure_repo(m, repo_path) {
        Err(_) => None,
        Ok((m1, rid)) => {
            let st0 = SpecStats {
                files_new: 0,
                files_changed: 0,
                files_unchanged: 0,
                files_deleted: 0,
                symbols_count: 0,
                refs_count: 0,
            };
            match spec_update_walk(m1, rid, files, patterns, max_size, grules, now, st0, 0) {
                None => None,
                Some((mw, stw)) => Some((spec_resolve(mw, rid), stw)),
            }
        },
    }
}

fn in_seen(seen: &Vec<String>, rel: &str) -> (r: bool)
    ensures
        r == seen.deep_view().contains(rel@),
{
    let n = seen.len();
    let mut i: usize = 0;
    while i < n
        invariant
            n == seen@.len(),
            seen.deep_view().len() == n,
            i <= n,
            forall|k: int| 0 <= k < i ==> seen.deep_view()[k] != rel@,
        decreases n - i,
    {
        proof {
            assert(seen.deep_view()[i as int] == seen@[i as int]@);
        }
        if str_eq(seen[i].as_str(), rel) {
            proof {
                assert(seen.deep_view().contains(rel@));
            }
            return true;
        }
        i = i + 1;
    }
    proof {
        assert(!seen.deep_view().contains(rel@));
    }
    false
}


/// Inserts every root tree of an extracted forest and accumulates the
/// saturating symbol and reference counts; refused when the id space cannot
/// hold a tree, in which case the store is mid-insert and to be discarded.
#[verifier::rlimit(50)]
fn insert_roots(
    store: &mut Store,
    fid: i64,
    rid: i64,
    rel: &str,
    roots: &Vec<ExtractedSymbol>,
    symbols_count: &mut usize,
    refs_count: &mut usize,
) -> (r: Result<(), StoreError>)
    ensures
        match r {
            Ok(()) => spec_insert_roots(
                old(store)@,
                fid as int,
                rid as int,
                rel@,
                syms_view(roots@),
                0,
            ) == Some(final(store)@) && *final(symbols_count) as int == spec_acc_syms(
                syms_view(roots@),
                0,
                *old(symbols_count) as int,
            ) && *final(refs_count) as int == spec_acc_refs(
                syms_view(roots@),
                0,
                *old(refs_count) as int,
            ),
            Err(e) => spec_insert_roots(
                old(store)@,
                fid as int,
                rid as int,
                rel@,
                syms_view(roots@),
                0,
            ) is None,
        },
{
    let ghost m3 = store@;
    let ghost ts = syms_view(roots@);
    proof {
        crate::symbols::lemma_syms_view_len(roots@);
    }
    let rn = roots.len();
    let mut k: usize = 0;
    while k < rn
        invariant
            rn == roots@.len(),
            ts == syms_view(roots@),
            ts.len() == rn,
            k <= rn,
            m3 == old(store)@,
            spec_insert_roots(m3, fid as int, rid as int, rel@, ts, 0) == spec_insert_roots(
                store@,
                fid as int,
                rid as int,
                rel@,
                ts,
                k as int,
            ),
        decreases rn - k,
    {
        proof {
            crate::symbols::lemma_syms_view_index(roots@, k as int);
        }
        match store.insert_symbol_tree(fid, rid, rel, &roots[k], None) {
            Ok(()) => {},
            Err(_) => {
                proof {
                    assert(spec_insert_roots(store@, fid as int, rid as int, rel@, ts, k as int)
                        is None);
                }
                return Err(StoreError::Full);
            },
        }
        k = k + 1;
    }
    let ghost syms_before = *old(symbols_count) as int;
    let ghost refs_before = *old(refs_count) as int;
    let mut sk: usize = 0;
    while sk < rn
        invariant
            rn == roots@.len(),
            ts == syms_view(roots@),
            ts.len() == rn,
            sk <= rn,
            spec_acc_syms(ts, 0, syms_before) == spec_acc_syms(
                ts,
                sk as int,
                *symbols_count as int,
            ),
            spec_acc_refs(ts, 0, refs_before) == spec_acc_refs(ts, sk as int, *refs_count as int),
        decreases rn - sk,
    {
        proof {
            crate::symbols::lemma_syms_view_index(roots@, sk as int);
            assert(seq![roots@[sk as int]].drop_last() =~= Seq::<ExtractedSymbol>::empty());
            assert(crate::symbols::syms_view(Seq::<ExtractedSymbol>::empty()) =~= Seq::<
                SpecSymbol,
            >::empty());
            assert(crate::symbols::syms_view(seq![roots@[sk as int]]) =~= seq![ts[sk as int]]);
            crate::store::lemma_forest_count_view(seq![roots@[sk as int]]);
            lemma_forest_refs_view(seq![roots@[sk as int]]);
            assert(crate::symbols::spec_count_symbols_seq(Seq::<ExtractedSymbol>::empty()) == 0);
            assert(crate::symbols::spec_count_refs_seq(Seq::<ExtractedSymbol>::empty()) == 0);
            assert(crate::symbols::spec_count_symbols_seq(seq![roots@[sk as int]])
                == crate::symbols::spec_count_symbols(roots@[sk as int]));
            assert(crate::symbols::spec_count_refs_seq(seq![roots@[sk as int]])
                == crate::symbols::spec_count_refs(roots@[sk as int]));
        }
        let c = crate::symbols::count_symbols(&roots[sk]);
        proof {
            assert(c as int == clamp_usize(crate::store::spec_forest_count(seq![ts[sk as int]])));
        }
        let old_sc = *symbols_count;
        *symbols_count = sat_add_exec(old_sc, c);
        let cr = crate::symbols::count_refs(&roots[sk]);
        proof {
            assert(cr as int == clamp_usize(spec_forest_refs(seq![ts[sk as int]])));
        }
        let old_rc = *refs_count;
        *refs_count = sat_add_exec(old_rc, cr);
        sk = sk + 1;
    }
    Ok(())
}

/// Runs the language extractors over the files a directory walk handed in.
pub struct Indexer;


impl Indexer {
    pub fn new() -> Indexer {
        Indexer
    }

    /// One full index run: every accepted input is hashed and, when its
    /// stored hash differs, parsed and re-extracted; repository files the
    /// walk did not see are deleted; references are then resolved by name
    /// and the repository row stamped. Refused when the store belongs to a
    /// different path or the symbol-id space cannot hold the extracted
    /// symbols; on a refusal mid-run the store is to be discarded, as a
    /// rolled-back transaction would be.
    #[verifier::rlimit(100)]
    pub fn index(
        &self,
        store: &mut Store,
        repo_path: &str,
        files: &Vec<FileInput>,
        ignore_patterns: &Vec<String>,
        max_file_size: u64,
        gitignore_text: &Option<String>,
        now: &str,
    ) -> (r: Result<IndexStats, StoreError>)
        ensures
            match r {
                Ok(stats) => Some(
                    (final(store)@, stats_view(stats)),
                ) == spec_index(
                    old(store)@,
                    repo_path@,
                    file_inputs_view(files@),
                    ignore_patterns.deep_view(),
                    max_file_size as int,
                    crate::store::opt_str_view(*gitignore_text),
                    now@,
                ) && stats.files_total == stats.files_new + stats.files_changed
                    + stats.files_unchanged && stats.duration_ms == 0,
                Err(e) => spec_index(
                    old(store)@,
                    repo_path@,
                    file_inputs_view(files@),
                    ignore_patterns.deep_view(),
                    max_file_size as int,
                    crate::store::opt_str_view(*gitignore_text),
                    now@,
                ) is None,
            },
    {
        let ghost m0 = store@;
        let ghost fv = file_inputs_view(files@);
        let ghost pv = ignore_patterns.deep_view();
        let ghost maxs = max_file_size as int;
        let gi: Option<ignore::gitignore::Gitignore> = match gitignore_text {
            Some(t) => Some(crate::gitignore::build_gitignore(t.as_str())),
            None => None,
        };
        let ghost grules = crate::store::opt_str_view(*gitignore_text);
        proof {
            assert(crate::gitignore::opt_rules(gi) == grules);
        }
        let rid = match store.ensure_repo(repo_path) {
            Ok(id) => id,
            Err(e) => {
                proof {
                    assert(spec_index(m0, repo_path@, fv, pv, maxs, grules, now@) is None);
                }
                return Err(e);
            },
        };
        let ghost m1 = store@;
        let ghost st0 = SpecStats {
            files_new: 0,
            files_changed: 0,
            files_unchanged: 0,
            files_deleted: 0,
            symbols_count: 0,
            refs_count: 0,
        };

        let mut files_new: usize = 0;
        let mut files_changed: usize = 0;
        let mut files_unchanged: usize = 0;
        let mut symbols_count: usize = 0;
        let mut refs_count: usize = 0;
        let mut seen: Vec<String> = Vec::new();

        let n = files.len();
        let mut i: usize = 0;
        proof {
            assert(fv.len() == n);
            assert(seen.deep_view() =~= spec_accepted_rels(fv, pv, maxs, grules, 0));
        }
        while i < n
            invariant
                n == files@.len(),
                fv == file_inputs_view(files@),
                pv == ignore_patterns.deep_view(),
                maxs == max_file_size as int,
                fv.len() == n,
                i <= n,
                m0 == old(store)@,
                spec_ensure_repo(m0, repo_path@) == Ok::<(StoreModel, int), StoreError>(
                    (m1, rid as int),
                ),
                st0 == (SpecStats {
                    files_new: 0,
                    files_changed: 0,
                    files_unchanged: 0,
                    files_deleted: 0,
                    symbols_count: 0,
                    refs_count: 0,
                }),
                files_new + files_changed + files_unchanged <= i,
                grules == crate::store::opt_str_view(*gitignore_text),
                crate::gitignore::opt_rules(gi) == grules,
                seen.deep_view() == spec_accepted_rels(fv, pv, maxs, grules, i as int),
                spec_walk(m1, rid as int, fv, pv, maxs, grules, now@, st0, 0) == spec_walk(
                    store@,
                    rid as int,
                    fv,
                    pv,
                    maxs,
                    grules,
                    now@,
                    SpecStats {
                        files_new: files_new as int,
                        files_changed: files_changed as int,
                        files_unchanged: files_unchanged as int,
                        files_deleted: 0,
                        symbols_count: symbols_count as int,
                        refs_count: refs_count as int,
                    },
                    i as int,
                ),
            decreases n - i,
        {
            let f = &files[i];
            let ghost m_pre = store@;
            let ghost st_pre = SpecStats {
                files_new: files_new as int,
                files_changed: files_changed as int,
                files_unchanged: files_unchanged as int,
                files_deleted: 0,
                symbols_count: symbols_count as int,
                refs_count: refs_count as int,
            };
            proof {
                assert(fv[i as int] == file_input_view(files@[i as int]));
            }
            let lang_opt: Option<LanguageId> = if crate::gitignore::gitignore_rejects(
                &gi,
                f.rel_path.as_str(),
            ) {
                None
            } else {
                match file_extension(f.rel_path.as_str()) {
                    None => None,
                    Some(ext) => match language_for_ext(ext.as_str()) {
                        None => None,
                        Some(lang) => {
                            if (f.bytes.len() as u64) > max_file_size
                                || f.rel_path.as_str().unicode_len() == 0 || builtin_reject(
                                f.rel_path.as_str(),
                            ) || matches_ignore_pattern(f.rel_path.as_str(), ignore_patterns) {
                                None
                            } else {
                                Some(lang)
                            }
                        },
                    },
                }
            };
            proof {
                assert(lang_opt == spec_admit(fv[i as int], pv, maxs, grules));
            }
            match lang_opt {
                None => {
                    proof {
                        assert(seen.deep_view() =~= spec_accepted_rels(fv, pv, maxs, grules, i + 1));
                    }
                },
                Some(lang) => {
                    let ghost seen_before = seen.deep_view();
                    seen.push(f.rel_path.clone());
                    proof {
                        assert(seen.deep_view() =~= seen_before.push(fv[i as int].rel_path));
                        assert(seen.deep_view() =~= spec_accepted_rels(fv, pv, maxs, grules, i + 1));
                    }
                    let hash = hash_bytes(f.bytes.as_slice());
                    let prev = store.find_file_index(rid, f.rel_path.as_str());
                    let unchanged = match prev {
                        Some(j) => str_eq(store.files[j].content_hash.as_str(), hash.as_str()),
                        None => false,
                    };
                    if unchanged {
                        files_unchanged = files_unchanged + 1;
                        proof {
                            assert(spec_process_file(m_pre, rid as int, fv[i as int], lang, now@, st_pre)
                                == Some((m_pre, SpecStats {
                                files_unchanged: st_pre.files_unchanged + 1,
                                ..st_pre
                            })));
                        }
                    } else {
                        match parse_source(lang, f.bytes.as_slice()) {
                            None => {
                                proof {
                                    assert(spec_process_file(
                                        m_pre,
                                        rid as int,
                                        fv[i as int],
                                        lang,
                                        now@,
                                        st_pre,
                                    ) == Some((m_pre, st_pre)));
                                }
                            },
                            Some(root) => {
                                let tag = match file_extension(f.rel_path.as_str()) {
                                    Some(ext) => match crate::filters::detect_language(
                                        ext.as_str(),
                                    ) {
                                        Some(t) => t,
                                        None => "unknown",
                                    },
                                    None => "unknown",
                                };
                                proof {
                                    assert(tag@ == spec_lang_tag(fv[i as int]));
                                }
                                let fid = match store.upsert_file(
                                    rid,
                                    f.rel_path.as_str(),
                                    hash.as_str(),
                                    tag,
                                    now,
                                ) {
                                    Ok(id) => id,
                                    Err(e) => {
                                        proof {
                                            assert(spec_process_file(
                                                m_pre,
                                                rid as int,
                                                fv[i as int],
                                                lang,
                                                now@,
                                                st_pre,
                                            ) is None);
                                            assert(spec_admit(fv[i as int], pv, maxs, grules)
                                                == Some(lang));
                                            assert(0 <= i < fv.len());
                                            assert(spec_walk(
                                                m_pre,
                                                rid as int,
                                                fv,
                                                pv,
                                                maxs,
                                                grules,
                                                now@,
                                                st_pre,
                                                i as int,
                                            ) is None);
                                            assert(spec_index(
                                                m0,
                                                repo_path@,
                                                fv,
                                                pv,
                                                maxs,
                                                grules,
                                                now@,
                                            ) is None);
                                        }
                                        return Err(e);
                                    },
                                };
                                store.clear_file_symbols(fid);
                                let ghost m3 = store@;
                                let roots = extract_for(lang, &root);
                                let ghost ts = syms_view(roots@);
                                match insert_roots(
                                    store,
                                    fid,
                                    rid,
                                    f.rel_path.as_str(),
                                    &roots,
                                    &mut symbols_count,
                                    &mut refs_count,
                                ) {
                                    Ok(()) => {},
                                    Err(e) => {
                                        proof {
                                            assert(spec_process_file(
                                                m_pre,
                                                rid as int,
                                                fv[i as int],
                                                lang,
                                                now@,
                                                st_pre,
                                            ) is None);
                                            assert(spec_admit(fv[i as int], pv, maxs, grules)
                                                == Some(lang));
                                            assert(0 <= i < fv.len());
                                            assert(spec_walk(
                                                m_pre,
                                                rid as int,
                                                fv,
                                                pv,
                                                maxs,
                                                grules,
                                                now@,
                                                st_pre,
                                                i as int,
                                            ) is None);
                                            assert(spec_index(
                                                m0,
                                                repo_path@,
                                                fv,
                                                pv,
                                                maxs,
                                                grules,
                                                now@,
                                            ) is None);
                                        }
                                        return Err(e);
                                    },
                                }
                                if prev.is_some() {
                                    files_changed = files_changed + 1;
                                } else {
                                    files_new = files_new + 1;
                                }
                                proof {
                                    assert(spec_process_file(
                                        m_pre,
                                        rid as int,
                                        fv[i as int],
                                        lang,
                                        now@,
                                        st_pre,
                                    ) == Some(
                                        (
                                            store@,
                                            SpecStats {
                                                files_new: files_new as int,
                                                files_changed: files_changed as int,
                                                files_unchanged: files_unchanged as int,
                                                files_deleted: 0,
                                                symbols_count: symbols_count as int,
                                                refs_count: refs_count as int,
                                            },
                                        ),
                                    ));
                                }
                            },
                        }
                    }
                },
            }
            i = i + 1;
        }

        proof {
            assert(spec_walk(m1, rid as int, fv, pv, maxs, grules, now@, st0, 0) == Some(
                (
                    store@,
                    SpecStats {
                        files_new: files_new as int,
                        files_changed: files_changed as int,
                        files_unchanged: files_unchanged as int,
                        files_deleted: 0,
                        symbols_count: symbols_count as int,
                        refs_count: refs_count as int,
                    },
                ),
            ));
        }
        let mut stale_ids: Vec<i64> = Vec::new();
        let fn_count = store.files.len();
        let ghost mw = store@;
        let mut si: usize = 0;
        proof {
            assert(stale_ids@.map_values(|x: i64| x as int) =~= spec_stale_ids(
                mw.files.take(0),
                rid as int,
                fv,
                pv,
                maxs,
                grules,
            ));
        }
        while si < fn_count
            invariant
                fn_count == store.files@.len(),
                store@ == mw,
                mw.files.len() == fn_count,
                si <= fn_count,
                fv.len() == files@.len(),
                fv == file_inputs_view(files@),
                pv == ignore_patterns.deep_view(),
                maxs == max_file_size as int,
                grules == crate::store::opt_str_view(*gitignore_text),
                seen.deep_view() == spec_accepted_rels(fv, pv, maxs, grules, fv.len() as int),
                stale_ids@.map_values(|x: i64| x as int) == spec_stale_ids(
                    mw.files.take(si as int),
                    rid as int,
                    fv,
                    pv,
                    maxs,
                    grules,
                ),
            decreases fn_count - si,
        {
            proof {
                assert(mw.files.take(si + 1).drop_last() =~= mw.files.take(si as int));
                assert(mw.files.take(si + 1).last() == mw.files[si as int]);
            }
            let keep = store.files[si].repo_id == rid && !in_seen(
                &seen,
                store.files[si].rel_path.as_str(),
            );
            proof {
                lemma_seen_iff(fv, pv, maxs, grules, fv.len() as int, mw.files[si as int].rel_path);
                assert(keep == (mw.files[si as int].repo_id == rid as int && !spec_seen(
                    fv,
                    pv,
                    maxs,
                    grules,
                    mw.files[si as int].rel_path,
                )));
            }
            if keep {
                let ghost before = stale_ids@;
                stale_ids.push(store.files[si].id);
                proof {
                    assert(stale_ids@.map_values(|x: i64| x as int) =~= spec_stale_ids(
                        mw.files.take(si + 1),
                        rid as int,
                        fv,
                        pv,
                        maxs,
                        grules,
                    ));
                }
            } else {
                proof {
                    assert(stale_ids@.map_values(|x: i64| x as int) =~= spec_stale_ids(
                        mw.files.take(si + 1),
                        rid as int,
                        fv,
                        pv,
                        maxs,
                        grules,
                    ));
                }
            }
            si = si + 1;
        }
        proof {
            assert(mw.files.take(fn_count as int) =~= mw.files);
        }

        let ghost stale = spec_stale_ids(mw.files, rid as int, fv, pv, maxs, grules);
        let dn = stale_ids.len();
        let files_deleted = dn;
        let mut di: usize = 0;
        proof {
            assert(stale.len() == dn);
        }
        while di < dn
            invariant
                dn == stale_ids@.len(),
                stale_ids@.map_values(|x: i64| x as int) == stale,
                stale.len() == dn,
                di <= dn,
                spec_delete_ids(mw, stale, 0) == spec_delete_ids(store@, stale, di as int),
            decreases dn - di,
        {
            proof {
                assert(stale[di as int] == stale_ids@[di as int] as int);
            }
            store.delete_file(stale_ids[di]);
            di = di + 1;
        }

        let ghost md = store@;
        store.resolve_references(rid);
        let ghost mr = store@;
        store.update_repo_timestamp(now);

        let total1 = files_new + files_changed;
        let stats = IndexStats {
            files_total: total1 + files_unchanged,
            files_new,
            files_changed,
            files_unchanged,
            files_deleted,
            symbols_count,
            refs_count,
            duration_ms: 0,
        };
        proof {
            assert(spec_delete_ids(mw, stale, 0) == md);
            assert(Some((store@, stats_view(stats))) == spec_index(
                m0,
                repo_path@,
                fv,
                pv,
                maxs,
                grules,
                now@,
            ));
        }
        Ok(stats)
    }

    /// One incremental update: each accepted file the watcher handed in is
    /// re-parsed and re-extracted, then references are resolved. No walk, no
    /// deletion reconciliation. Refused as a full run is; on a refusal
    /// mid-run the store is to be discarded.
    #[verifier::rlimit(100)]
    pub fn update_files(
        &self,
        store: &mut Store,
        repo_path: &str,
        files: &Vec<FileInput>,
        ignore_patterns: &Vec<String>,
        max_file_size: u64,
        gitignore_text: &Option<String>,
        now: &str,
    ) -> (r: Result<IndexStats, StoreError>)
        ensures
            match r {
                Ok(stats) => Some(
                    (final(store)@, stats_view(stats)),
                ) == spec_update(
                    old(store)@,
                    repo_path@,
                    file_inputs_view(files@),
                    ignore_patterns.deep_view(),
                    max_file_size as int,
                    crate::store::opt_str_view(*gitignore_text),
                    now@,
                ) && stats.files_total == stats.files_changed && stats.files_new == 0
                    && stats.files_unchanged == 0 && stats.files_deleted == 0 && stats.duration_ms
                    == 0,
                Err(e) => spec_update(
                    old(store)@,
                    repo_path@,
                    file_inputs_view(files@),
                    ignore_patterns.deep_view(),
                    max_file_size as int,
                    crate::store::opt_str_view(*gitignore_text),
                    now@,
                ) is None,
            },
    {
        let ghost m0 = store@;
        let ghost fv = file_inputs_view(files@);
        let ghost pv = ignore_patterns.deep_view();
        let ghost maxs = max_file_size as int;
        let gi: Option<ignore::gitignore::Gitignore> = match gitignore_text {
            Some(t) => Some(crate::gitignore::build_gitignore(t.as_str())),
            None => None,
        };
        let ghost grules = crate::store::opt_str_view(*gitignore_text);
        proof {
            assert(crate::gitignore::opt_rules(gi) == grules);
        }
        let rid = match store.ensure_repo(repo_path) {
            Ok(id) => id,
            Err(e) => {
                proof {
                    assert(spec_update(m0, repo_path@, fv, pv, maxs, grules, now@) is None);
                }
                return Err(e);
            },
        };
        let ghost m1 = store@;
        let ghost st0 = SpecStats {
            files_new: 0,
            files_changed: 0,
            files_unchanged: 0,
            files_deleted: 0,
            symbols_count: 0,
            refs_count: 0,
        };

        let mut files_changed: usize = 0;
        let mut symbols_count: usize = 0;
        let mut refs_count: usize = 0;

        let n = files.len();
        let mut i: usize = 0;
        proof {
            assert(fv.len() == n);
        }
        while i < n
            invariant
                n == files@.len(),
                fv == file_inputs_view(files@),
                pv == ignore_patterns.deep_view(),
                maxs == max_file_size as int,
                fv.len() == n,
                i <= n,
                files_changed <= i,
                m0 == old(store)@,
                spec_ensure_repo(m0, repo_path@) == Ok::<(StoreModel, int), StoreError>(
                    (m1, rid as int),
                ),
                st0 == (SpecStats {
                    files_new: 0,
                    files_changed: 0,
                    files_unchanged: 0,
                    files_deleted: 0,
                    symbols_count: 0,
                    refs_count: 0,
                }),
                grules == crate::store::opt_str_view(*gitignore_text),
                crate::gitignore::opt_rules(gi) == grules,
                spec_update_walk(m1, rid as int, fv, pv, maxs, grules, now@, st0, 0)
                    == spec_update_walk(
                    store@,
                    rid as int,
                    fv,
                    pv,
                    maxs,
                    grules,
                    now@,
                    SpecStats {
                        files_new: 0,
                        files_changed: files_changed as int,
                        files_unchanged: 0,
                        files_deleted: 0,
                        symbols_count: symbols_count as int,
                        refs_count: refs_count as int,
                    },
                    i as int,
                ),
            decreases n - i,
        {
            let f = &files[i];
            let ghost m_pre = store@;
            let ghost st_pre = SpecStats {
                files_new: 0,
                files_changed: files_changed as int,
                files_unchanged: 0,
                files_deleted: 0,
                symbols_count: symbols_count as int,
                refs_count: refs_count as int,
            };
            proof {
                assert(fv[i as int] == file_input_view(files@[i as int]));
            }
            let lang_opt: Option<LanguageId> = if crate::gitignore::gitignore_rejects(
                &gi,
                f.rel_path.as_str(),
            ) {
                None
            } else {
                match file_extension(f.rel_path.as_str()) {
                    None => None,
                    Some(ext) => match language_for_ext(ext.as_str()) {
                        None => None,
                        Some(lang) => {
                            if (f.bytes.len() as u64) > max_file_size
                                || f.rel_path.as_str().unicode_len() == 0 || builtin_reject(
                                f.rel_path.as_str(),
                            ) || matches_ignore_pattern(f.rel_path.as_str(), ignore_patterns) {
                                None
                            } else {
                                Some(lang)
                            }
                        },
                    },
                }
            };
            proof {
                assert(lang_opt == spec_admit(fv[i as int], pv, maxs, grules));
            }
            match lang_opt {
                None => {},
                Some(lang) => {
                    let hash = hash_bytes(f.bytes.as_slice());
                    let prev = store.find_file_index(rid, f.rel_path.as_str());
                    let unchanged = match prev {
                        Some(j) => str_eq(store.files[j].content_hash.as_str(), hash.as_str()),
                        None => false,
                    };
                    if unchanged {
                        proof {
                            assert(spec_update_file(
                                m_pre,
                                rid as int,
                                fv[i as int],
                                lang,
                                now@,
                                st_pre,
                            ) == Some((m_pre, st_pre)));
                        }
                    } else {
                    match parse_source(lang, f.bytes.as_slice()) {
                        None => {
                            proof {
                                assert(spec_update_file(
                                    m_pre,
                                    rid as int,
                                    fv[i as int],
                                    lang,
                                    now@,
                                    st_pre,
                                ) == Some((m_pre, st_pre)));
                            }
                        },
                        Some(root) => {
                            let tag = match file_extension(f.rel_path.as_str()) {
                                Some(ext) => match crate::filters::detect_language(ext.as_str()) {
                                    Some(t) => t,
                                    None => "unknown",
                                },
                                None => "unknown",
                            };
                            proof {
                                assert(tag@ == spec_lang_tag(fv[i as int]));
                            }
                            let fid = match store.upsert_file(
                                rid,
                                f.rel_path.as_str(),
                                hash.as_str(),
                                tag,
                                now,
                            ) {
                                Ok(id) => id,
                                Err(e) => {
                                    proof {
                                        assert(spec_update_file(
                                            m_pre,
                                            rid as int,
                                            fv[i as int],
                                            lang,
                                            now@,
                                            st_pre,
                                        ) is None);
                                        assert(spec_update_walk(
                                            m_pre,
                                            rid as int,
                                            fv,
                                            pv,
                                            maxs,
                                            grules,
                                            now@,
                                            st_pre,
                                            i as int,
                                        ) is None);
                                        assert(spec_update(
                                            m0,
                                            repo_path@,
                                            fv,
                                            pv,
                                            maxs,
                                            grules,
                                            now@,
                                        ) is None);
                                    }
                                    return Err(e);
                                },
                            };
                            store.clear_file_symbols(fid);
                            let ghost m3 = store@;
                            let roots = extract_for(lang, &root);
                            let ghost ts = syms_view(roots@);
                            match insert_roots(
                                store,
                                fid,
                                rid,
                                f.rel_path.as_str(),
                                &roots,
                                &mut symbols_count,
                                &mut refs_count,
                            ) {
                                Ok(()) => {},
                                Err(e) => {
                                    proof {
                                        assert(spec_update_file(
                                            m_pre,
                                            rid as int,
                                            fv[i as int],
                                            lang,
                                            now@,
                                            st_pre,
                                        ) is None);
                                        assert(spec_update_walk(
                                            m_pre,
                                            rid as int,
                                            fv,
                                            pv,
                                            maxs,
                                            grules,
                                            now@,
                                            st_pre,
                                            i as int,
                                        ) is None);
                                        assert(spec_update(
                                            m0,
                                            repo_path@,
                                            fv,
                                            pv,
                                            maxs,
                                            grules,
                                            now@,
                                        ) is None);
                                    }
                                    return Err(e);
                                },
                            }
                            files_changed = files_changed + 1;
                            proof {
                                assert(spec_update_file(
                                    m_pre,
                                    rid as int,
                                    fv[i as int],
                                    lang,
                                    now@,
                                    st_pre,
                                ) == Some(
                                    (
                                        store@,
                                        SpecStats {
                                            files_new: 0,
                                            files_changed: files_changed as int,
                                            files_unchanged: 0,
                                            files_deleted: 0,
                                            symbols_count: symbols_count as int,
                                            refs_count: refs_count as int,
                                        },
                                    ),
                                ));
                            }
                        },
                    }
                    }
                },
            }
            i = i + 1;
        }

        store.resolve_references(rid);

        let stats = IndexStats {
            files_total: files_changed,
            files_new: 0,
            files_changed,
            files_unchanged: 0,
            files_deleted: 0,
            symbols_count,
            refs_count,
            duration_ms: 0,
        };
        proof {
            assert(Some((store@, stats_view(stats))) == spec_update(
                m0,
                repo_path@,
                fv,
                pv,
                maxs,
                grules,
                now@,
            ));
        }
        Ok(stats)
    }
}

} // verus!
