//! The laws the store's operations obey, stated and proved over the
//! mathematical models the operations' own contracts use.

use vstd::prelude::*;

use crate::store::{
    find_named_child_from, find_named_from, find_symbol_from, keep_symbols, resolve_one, row_of,
    spec_delete_file, spec_dependencies_of, spec_insert_forest, spec_references_to, spec_resolve,
    SpecRefRow, SpecSymbolRow, StoreModel,
};
use crate::symbols::SpecSymbol;
use crate::tokenizer::spec_tokenize;

verus! {

broadcast use vstd::std_specs::vec::axiom_vec_decreases_to_view;

/// A found name match lies in range and matches name and repository.
proof fn lemma_find_named_range(ss: Seq<SpecSymbolRow>, rid: int, name: Seq<char>, i: int)
    ensures
        find_named_from(ss, rid, name, i) matches Some(j) ==> 0 <= j < ss.len() && ss[j].repo_id
            == rid && ss[j].name == name,
    decreases ss.len() - i,
{
    if 0 <= i < ss.len() && !(ss[i].repo_id == rid && ss[i].name == name) {
        lemma_find_named_range(ss, rid, name, i + 1);
    }
}

/// A found scoped name match lies in range and matches name, repository and
/// parent.
proof fn lemma_find_named_child_range(
    ss: Seq<SpecSymbolRow>,
    rid: int,
    name: Seq<char>,
    parent: int,
    i: int,
)
    ensures
        find_named_child_from(ss, rid, name, parent, i) matches Some(j) ==> 0 <= j < ss.len()
            && ss[j].repo_id == rid && ss[j].name == name && ss[j].parent_symbol_id == Some(
            parent,
        ),
    decreases ss.len() - i,
{
    if 0 <= i < ss.len() && !(ss[i].repo_id == rid && ss[i].name == name && ss[i].parent_symbol_id
        == Some(parent)) {
        lemma_find_named_child_range(ss, rid, name, parent, i + 1);
    }
}

/// Resolution only creates sound edges: a reference that was unresolved and
/// gains a target after `resolve_references` points at some symbol of the
/// repository whose name is either the reference's target name or, for a
/// `this.`-scoped target, the name after the `this.` prefix.
pub proof fn law_resolution_sound(m: StoreModel, rid: int, i: int)
    requires
        0 <= i < m.refs.len(),
        m.refs[i].to_symbol_id is None,
    ensures
        spec_resolve(m, rid).refs[i].to_symbol_id matches Some(t) ==> exists|j: int|
            0 <= j < m.symbols.len() && (#[trigger] m.symbols[j]).id == t && m.symbols[j].repo_id
                == rid && (m.symbols[j].name == m.refs[i].to_name || m.symbols[j].name
                == m.refs[i].to_name.skip(5)),
{
    let r = m.refs[i];
    let resolved = resolve_one(m, r, rid);
    if resolved is Some {
        match find_symbol_from(m.symbols, r.from_symbol_id, 0) {
            None => {},
            Some(fj) => {
                if m.symbols[fj].repo_id == rid {
                    if crate::strutil::spec_starts_with(r.to_name, "this."@) {
                        match m.symbols[fj].parent_symbol_id {
                            Some(p) => {
                                lemma_find_named_child_range(m.symbols, rid, r.to_name.skip(5), p, 0);
                            },
                            None => {},
                        }
                    }
                    lemma_find_named_from_match(m.symbols, rid, r.to_name, 0);
                }
            },
        }
    }
}

proof fn lemma_find_named_from_match(ss: Seq<SpecSymbolRow>, rid: int, name: Seq<char>, i: int)
    ensures
        find_named_from(ss, rid, name, i) matches Some(j) ==> 0 <= j < ss.len() && ss[j].repo_id
            == rid && ss[j].name == name,
    decreases ss.len() - i,
{
    lemma_find_named_range(ss, rid, name, i);
}

/// Inserting an extracted forest adds only rows of the file it was extracted
/// from: every symbol row afterwards either stood there before or carries
/// the inserted file's id, repository and relative path, with its
/// `name_tokens` the tokenizer's output for its name.
pub proof fn law_inserted_rows_belong(
    m: StoreModel,
    fid: int,
    rid: int,
    rel: Seq<char>,
    ts: Seq<SpecSymbol>,
    parent: Option<int>,
    k: int,
)
    requires
        0 <= k < spec_insert_forest(m, fid, rid, rel, ts, parent).symbols.len(),
    ensures
        ({
            let row = spec_insert_forest(m, fid, rid, rel, ts, parent).symbols[k];
            (k < m.symbols.len() && row == m.symbols[k]) || (row.file_id == fid && row.repo_id
                == rid && row.file_rel_path == rel && row.name_tokens == spec_tokenize(row.name))
        }),
    decreases ts,
{
    if ts.len() > 0 {
        let mp = spec_insert_forest(m, fid, rid, rel, ts.drop_last(), parent);
        let t = ts.last();
        let id = mp.next_symbol_id;
        let m1 = StoreModel {
            symbols: mp.symbols.push(row_of(t, id, fid, rid, rel, parent)),
            refs: crate::store::spec_add_refs(mp.refs, id, t.references),
            next_symbol_id: id + 1,
            ..mp
        };
        if k < spec_insert_forest(m1, fid, rid, rel, t.children, Some(id)).symbols.len() {
            law_inserted_rows_belong(m1, fid, rid, rel, t.children, Some(id), k);
        }
        if k < m1.symbols.len() {
            if k < mp.symbols.len() {
                law_inserted_rows_belong(m, fid, rid, rel, ts.drop_last(), parent, k);
            }
        }
    }
}

/// Deleting a file leaves no symbol row of that file behind.
pub proof fn law_deleted_file_has_no_symbols(m: StoreModel, fid: int, k: int)
    requires
        0 <= k < spec_delete_file(m, fid).symbols.len(),
    ensures
        spec_delete_file(m, fid).symbols[k].file_id != fid,
{
    lemma_keep_symbols_drop(m.symbols, fid, k);
}

proof fn lemma_keep_symbols_drop(ss: Seq<SpecSymbolRow>, fid: int, k: int)
    requires
        0 <= k < keep_symbols(ss, fid).len(),
    ensures
        keep_symbols(ss, fid)[k].file_id != fid,
    decreases ss.len(),
{
    if ss.len() > 0 {
        if k < keep_symbols(ss.drop_last(), fid).len() {
            lemma_keep_symbols_drop(ss.drop_last(), fid, k);
        }
    }
}

/// How many of the inputs from `i` on the filter chain accepts.
pub open spec fn count_accepted(
    files: Seq<crate::indexer::SpecFileInput>,
    patterns: Seq<Seq<char>>,
    max_size: int,
    grules: Option<Seq<char>>,
    i: int,
) -> int
    decreases files.len() - i,
{
    if !(0 <= i < files.len()) {
        0
    } else {
        (if crate::indexer::spec_admit(files[i], patterns, max_size, grules) is Some {
            1int
        } else {
            0int
        }) + count_accepted(files, patterns, max_size, grules, i + 1)
    }
}

/// Every input whose stored hash already matches takes the unchanged path:
/// the walk leaves the store alone and counts each accepted file as
/// unchanged.
proof fn lemma_walk_unchanged(
    m: StoreModel,
    rid: int,
    files: Seq<crate::indexer::SpecFileInput>,
    patterns: Seq<Seq<char>>,
    max_size: int,
    grules: Option<Seq<char>>,
    now: Seq<char>,
    st: crate::indexer::SpecStats,
    i: int,
)
    requires
        0 <= i <= files.len(),
        forall|j: int|
            i <= j < files.len() && crate::indexer::spec_admit(
                #[trigger] files[j],
                patterns,
                max_size,
                grules,
            ) is Some ==> (match crate::store::find_file_from(m.files, rid, files[j].rel_path, 0) {
                Some(k) => m.files[k].content_hash == crate::hasher::sha256_hex(files[j].bytes),
                None => false,
            }),
    ensures
        crate::indexer::spec_walk(m, rid, files, patterns, max_size, grules, now, st, i) == Some(
            (
                m,
                crate::indexer::SpecStats {
                    files_unchanged: st.files_unchanged + count_accepted(
                        files,
                        patterns,
                        max_size,
                        grules,
                        i,
                    ),
                    ..st
                },
            ),
        ),
    decreases files.len() - i,
{
    if i < files.len() {
        match crate::indexer::spec_admit(files[i], patterns, max_size, grules) {
            None => {
                lemma_walk_unchanged(m, rid, files, patterns, max_size, grules, now, st, i + 1);
            },
            Some(lang) => {
                lemma_walk_unchanged(
                    m,
                    rid,
                    files,
                    patterns,
                    max_size,
                    grules,
                    now,
                    crate::indexer::SpecStats { files_unchanged: st.files_unchanged + 1, ..st },
                    i + 1,
                );
            },
        }
    }
}

/// With every repository file seen by the walk, nothing is stale.
proof fn lemma_no_stale(
    fs: Seq<crate::store::SpecFileRow>,
    rid: int,
    files: Seq<crate::indexer::SpecFileInput>,
    patterns: Seq<Seq<char>>,
    max_size: int,
    grules: Option<Seq<char>>,
)
    requires
        forall|k: int|
            0 <= k < fs.len() && (#[trigger] fs[k]).repo_id == rid ==> crate::indexer::spec_seen(
                files,
                patterns,
                max_size,
                grules,
                fs[k].rel_path,
            ),
    ensures
        crate::indexer::spec_stale_ids(fs, rid, files, patterns, max_size, grules).len() == 0,
    decreases fs.len(),
{
    if fs.len() > 0 {
        lemma_no_stale(fs.drop_last(), rid, files, patterns, max_size, grules);
    }
}

/// Indexing a second time with no file changed: every stored hash already
/// matches and every repository file is still on disk, so the run reports
/// every accepted file as unchanged and nothing new, changed or deleted.
pub proof fn law_reindex_unchanged(
    m: StoreModel,
    repo_path: Seq<char>,
    files: Seq<crate::indexer::SpecFileInput>,
    patterns: Seq<Seq<char>>,
    max_size: int,
    grules: Option<Seq<char>>,
    now: Seq<char>,
)
    requires
        m.repo matches Some(rr) && rr.abs_path == repo_path,
        forall|j: int|
            0 <= j < files.len() && crate::indexer::spec_admit(
                #[trigger] files[j],
                patterns,
                max_size,
                grules,
            ) is Some ==> (match crate::store::find_file_from(
                m.files,
                crate::store::repo_id_of(m),
                files[j].rel_path,
                0,
            ) {
                Some(k) => m.files[k].content_hash == crate::hasher::sha256_hex(files[j].bytes),
                None => false,
            }),
        forall|k: int|
            0 <= k < m.files.len() && (#[trigger] m.files[k]).repo_id == crate::store::repo_id_of(
                m,
            ) ==> crate::indexer::spec_seen(files, patterns, max_size, grules, m.files[k].rel_path),
    ensures
        crate::indexer::spec_index(m, repo_path, files, patterns, max_size, grules, now)
            matches Some(st) && st.1.files_unchanged == count_accepted(
            files,
            patterns,
            max_size,
            grules,
            0,
        ) && st.1.files_new == 0 && st.1.files_changed == 0 && st.1.files_deleted == 0,
{
    let rid = crate::store::repo_id_of(m);
    let st0 = crate::indexer::SpecStats {
        files_new: 0,
        files_changed: 0,
        files_unchanged: 0,
        files_deleted: 0,
        symbols_count: 0,
        refs_count: 0,
    };
    lemma_walk_unchanged(m, rid, files, patterns, max_size, grules, now, st0, 0);
    lemma_no_stale(m.files, rid, files, patterns, max_size, grules);
    let stale = crate::indexer::spec_stale_ids(m.files, rid, files, patterns, max_size, grules);
    assert(crate::indexer::spec_delete_ids(m, stale, 0) == m);
}

/// Insertion only appends: a symbol row survives any forest insertion.
proof fn lemma_insert_keeps_rows(
    m: StoreModel,
    fid: int,
    rid: int,
    rel: Seq<char>,
    ts: Seq<SpecSymbol>,
    parent: Option<int>,
    x: SpecSymbolRow,
)
    requires
        m.symbols.contains(x),
    ensures
        spec_insert_forest(m, fid, rid, rel, ts, parent).symbols.contains(x),
    decreases ts,
{
    if ts.len() > 0 {
        lemma_insert_keeps_rows(m, fid, rid, rel, ts.drop_last(), parent, x);
        let mp = spec_insert_forest(m, fid, rid, rel, ts.drop_last(), parent);
        let t = ts.last();
        let id = mp.next_symbol_id;
        let m1 = StoreModel {
            symbols: mp.symbols.push(row_of(t, id, fid, rid, rel, parent)),
            refs: crate::store::spec_add_refs(mp.refs, id, t.references),
            next_symbol_id: id + 1,
            ..mp
        };
        let j = choose|j: int| 0 <= j < mp.symbols.len() && mp.symbols[j] == x;
        assert(m1.symbols[j] == x);
        lemma_insert_keeps_rows(m1, fid, rid, rel, t.children, Some(id), x);
    }
}

/// Every root of an inserted forest is stored as a row of the file, under
/// the given parent, with the root's name, kind tag, and clamped line span.
pub proof fn law_roots_are_stored(
    m: StoreModel,
    fid: int,
    rid: int,
    rel: Seq<char>,
    ts: Seq<SpecSymbol>,
    parent: Option<int>,
    r: int,
)
    requires
        0 <= r < ts.len(),
    ensures
        exists|id: int|
            spec_insert_forest(m, fid, rid, rel, ts, parent).symbols.contains(
                #[trigger] row_of(ts[r], id, fid, rid, rel, parent),
            ),
    decreases ts,
{
    let mp = spec_insert_forest(m, fid, rid, rel, ts.drop_last(), parent);
    let t = ts.last();
    let id = mp.next_symbol_id;
    let m1 = StoreModel {
        symbols: mp.symbols.push(row_of(t, id, fid, rid, rel, parent)),
        refs: crate::store::spec_add_refs(mp.refs, id, t.references),
        next_symbol_id: id + 1,
        ..mp
    };
    if r == ts.len() - 1 {
        assert(m1.symbols[m1.symbols.len() - 1] == row_of(t, id, fid, rid, rel, parent));
        assert(m1.symbols.contains(row_of(ts[r], id, fid, rid, rel, parent)));
        lemma_insert_keeps_rows(
            m1,
            fid,
            rid,
            rel,
            t.children,
            Some(id),
            row_of(ts[r], id, fid, rid, rel, parent),
        );
    } else {
        law_roots_are_stored(m, fid, rid, rel, ts.drop_last(), parent, r);
        let id0 = choose|id0: int|
            mp.symbols.contains(#[trigger] row_of(ts[r], id0, fid, rid, rel, parent));
        let j = choose|j: int|
            0 <= j < mp.symbols.len() && mp.symbols[j] == row_of(ts[r], id0, fid, rid, rel, parent);
        assert(m1.symbols[j] == row_of(ts[r], id0, fid, rid, rel, parent));
        lemma_insert_keeps_rows(
            m1,
            fid,
            rid,
            rel,
            t.children,
            Some(id),
            row_of(ts[r], id0, fid, rid, rel, parent),
        );
    }
}

/// Every stored row of a file shows up in `get_file_symbols` for that file.
pub proof fn law_file_symbols_complete(
    ss: Seq<SpecSymbolRow>,
    rid: int,
    rel: Seq<char>,
    x: SpecSymbolRow,
)
    requires
        ss.contains(x),
        x.repo_id == rid,
        x.file_rel_path == rel,
    ensures
        crate::store::spec_file_symbols(ss, rid, rel).contains(x),
    decreases ss.len(),
{
    let out = crate::store::spec_file_symbols(ss, rid, rel);
    if ss.last() == x {
        assert(out[out.len() - 1] == x);
    } else {
        let j = choose|j: int| 0 <= j < ss.len() && ss[j] == x;
        assert(ss.drop_last()[j] == x);
        law_file_symbols_complete(ss.drop_last(), rid, rel, x);
        let prev = crate::store::spec_file_symbols(ss.drop_last(), rid, rel);
        let k = choose|k: int| 0 <= k < prev.len() && prev[k] == x;
        assert(out[k] == x);
    }
}

/// One direction of the reference round trip: a stored reference edge shows
/// up among the outgoing dependencies of its from-symbol.
pub proof fn law_ref_in_dependencies(rs: Seq<SpecRefRow>, i: int)
    requires
        0 <= i < rs.len(),
    ensures
        spec_dependencies_of(rs, rs[i].from_symbol_id).contains(rs[i]),
    decreases rs.len(),
{
    let sid = rs[i].from_symbol_id;
    if i == rs.len() - 1 {
        let deps = spec_dependencies_of(rs, sid);
        assert(deps[deps.len() - 1] == rs[i]);
    } else {
        law_ref_in_dependencies(rs.drop_last(), i);
        let prev = spec_dependencies_of(rs.drop_last(), sid);
        let j = choose|j: int| 0 <= j < prev.len() && prev[j] == rs[i];
        assert(spec_dependencies_of(rs, sid)[j] == rs[i]);
    }
}

/// The other direction: a resolved reference edge shows up among the
/// incoming references of its target symbol.
pub proof fn law_ref_in_references(m: StoreModel, i: int, t: int)
    requires
        0 <= i < m.refs.len(),
        m.refs[i].to_symbol_id == Some(t),
    ensures
        spec_references_to(m, t).contains(m.refs[i]),
    decreases m.refs.len(),
{
    if i == m.refs.len() - 1 {
        let refs = spec_references_to(m, t);
        assert(refs[refs.len() - 1] == m.refs[i]);
    } else {
        let m2 = StoreModel { refs: m.refs.drop_last(), ..m };
        law_ref_in_references(m2, i, t);
        let prev = spec_references_to(m2, t);
        let j = choose|j: int| 0 <= j < prev.len() && prev[j] == m.refs[i];
        assert(spec_references_to(m, t)[j] == m.refs[i]);
    }
}

/// A repository file the walk did not see is on the stale list.
pub proof fn law_unseen_file_is_stale(
    fs: Seq<crate::store::SpecFileRow>,
    rid: int,
    files: Seq<crate::indexer::SpecFileInput>,
    patterns: Seq<Seq<char>>,
    max_size: int,
    grules: Option<Seq<char>>,
    j: int,
)
    requires
        0 <= j < fs.len(),
        fs[j].repo_id == rid,
        !crate::indexer::spec_seen(files, patterns, max_size, grules, fs[j].rel_path),
    ensures
        crate::indexer::spec_stale_ids(fs, rid, files, patterns, max_size, grules).contains(
            fs[j].id,
        ),
    decreases fs.len(),
{
    let stale = crate::indexer::spec_stale_ids(fs, rid, files, patterns, max_size, grules);
    if j == fs.len() - 1 {
        assert(stale[stale.len() - 1] == fs[j].id);
    } else {
        assert(fs.drop_last()[j] == fs[j]);
        law_unseen_file_is_stale(fs.drop_last(), rid, files, patterns, max_size, grules, j);
        let prev = crate::indexer::spec_stale_ids(
            fs.drop_last(),
            rid,
            files,
            patterns,
            max_size,
            grules,
        );
        let k = choose|k: int| 0 <= k < prev.len() && prev[k] == fs[j].id;
        assert(stale[k] == fs[j].id);
    }
}

/// No file row of a deleted id survives the deletion.
proof fn lemma_delete_keeps_no_id(fs: Seq<crate::store::SpecFileRow>, fid: int, k: int)
    requires
        0 <= k < crate::store::keep_files(fs, fid).len(),
    ensures
        crate::store::keep_files(fs, fid)[k].id != fid,
    decreases fs.len(),
{
    if fs.len() > 0 {
        if k < crate::store::keep_files(fs.drop_last(), fid).len() {
            lemma_delete_keeps_no_id(fs.drop_last(), fid, k);
        }
    }
}

/// Deleting never adds file rows: an id absent before stays absent.
proof fn lemma_delete_ids_keeps_absence(m: StoreModel, ids: Seq<int>, i: int, x: int)
    requires
        forall|k: int| 0 <= k < m.files.len() ==> (#[trigger] m.files[k]).id != x,
    ensures
        forall|k: int|
            0 <= k < crate::indexer::spec_delete_ids(m, ids, i).files.len() ==> (
            #[trigger] crate::indexer::spec_delete_ids(m, ids, i).files[k]).id != x,
    decreases ids.len() - i,
{
    if 0 <= i < ids.len() {
        let m2 = crate::store::spec_delete_file(m, ids[i]);
        assert forall|k: int| 0 <= k < m2.files.len() implies (#[trigger] m2.files[k]).id != x by {
            lemma_keep_files_membership(m.files, ids[i], k);
        }
        lemma_delete_ids_keeps_absence(m2, ids, i + 1, x);
    }
}

/// Every surviving row of a deletion stood in the table before it.
proof fn lemma_keep_files_membership(fs: Seq<crate::store::SpecFileRow>, fid: int, k: int)
    requires
        0 <= k < crate::store::keep_files(fs, fid).len(),
    ensures
        fs.contains(crate::store::keep_files(fs, fid)[k]),
    decreases fs.len(),
{
    if fs.len() > 0 {
        let prev = crate::store::keep_files(fs.drop_last(), fid);
        if k < prev.len() {
            lemma_keep_files_membership(fs.drop_last(), fid, k);
            let kept = prev[k];
            let j = choose|j: int| 0 <= j < fs.drop_last().len() && fs.drop_last()[j] == kept;
            assert(fs[j] == kept);
        } else {
            assert(crate::store::keep_files(fs, fid)[k] == fs.last());
        }
    }
}

/// Reconciliation is thorough: after the deletion pass no file row carries a
/// stale id. With `law_unseen_file_is_stale` this is the second half of the
/// disk-deletion story: a file gone from the walk loses its row, and its
/// symbols and references go with it (`law_deleted_file_has_no_symbols`).
pub proof fn law_stale_ids_are_deleted(m: StoreModel, ids: Seq<int>, x: int)
    requires
        ids.contains(x),
    ensures
        forall|k: int|
            0 <= k < crate::indexer::spec_delete_ids(m, ids, 0).files.len() ==> (
            #[trigger] crate::indexer::spec_delete_ids(m, ids, 0).files[k]).id != x,
{
    lemma_delete_from(m, ids, 0, x);
}

proof fn lemma_delete_from(m: StoreModel, ids: Seq<int>, i: int, x: int)
    requires
        0 <= i,
        exists|l: int| i <= l < ids.len() && ids[l] == x,
    ensures
        forall|k: int|
            0 <= k < crate::indexer::spec_delete_ids(m, ids, i).files.len() ==> (
            #[trigger] crate::indexer::spec_delete_ids(m, ids, i).files[k]).id != x,
    decreases ids.len() - i,
{
    let l = choose|l: int| i <= l < ids.len() && ids[l] == x;
    let m2 = crate::store::spec_delete_file(m, ids[i]);
    if l == i {
        assert forall|k: int| 0 <= k < m2.files.len() implies (#[trigger] m2.files[k]).id != x by {
            lemma_delete_keeps_no_id(m.files, x, k);
        }
        lemma_delete_ids_keeps_absence(m2, ids, i + 1, x);
    } else {
        lemma_delete_from(m2, ids, i + 1, x);
    }
}

/// Every file row a walk leaves behind either stood there before or carries
/// a path the walk saw.
proof fn lemma_walk_rows(
    m: StoreModel,
    rid: int,
    files: Seq<crate::indexer::SpecFileInput>,
    patterns: Seq<Seq<char>>,
    max_size: int,
    grules: Option<Seq<char>>,
    now: Seq<char>,
    st: crate::indexer::SpecStats,
    i: int,
    mw: StoreModel,
    stw: crate::indexer::SpecStats,
)
    requires
        0 <= i <= files.len(),
        crate::indexer::spec_walk(m, rid, files, patterns, max_size, grules, now, st, i) == Some(
            (mw, stw),
        ),
    ensures
        forall|k: int|
            0 <= k < mw.files.len() ==> m.files.contains(#[trigger] mw.files[k])
                || crate::indexer::spec_seen(files, patterns, max_size, grules, mw.files[k].rel_path),
    decreases files.len() - i,
{
    if i < files.len() {
        match crate::indexer::spec_admit(files[i], patterns, max_size, grules) {
            None => {
                lemma_walk_rows(
                    m, rid, files, patterns, max_size, grules, now, st, i + 1, mw, stw,
                );
            },
            Some(lang) => {
                match crate::indexer::spec_process_file(m, rid, files[i], lang, now, st) {
                    None => {},
                    Some((m2, st2)) => {
                        lemma_walk_rows(
                            m2, rid, files, patterns, max_size, grules, now, st2, i + 1, mw, stw,
                        );
                        assert(files[i].rel_path == files[i].rel_path && crate::indexer::spec_admit(
                            files[i],
                            patterns,
                            max_size,
                            grules,
                        ) is Some);
                        assert(crate::indexer::spec_seen(
                            files,
                            patterns,
                            max_size,
                            grules,
                            files[i].rel_path,
                        ));
                        assert forall|k: int| 0 <= k < mw.files.len() implies m.files.contains(
                            #[trigger] mw.files[k],
                        ) || crate::indexer::spec_seen(
                            files,
                            patterns,
                            max_size,
                            grules,
                            mw.files[k].rel_path,
                        ) by {
                            if m2.files.contains(mw.files[k]) {
                                let j = choose|j: int|
                                    0 <= j < m2.files.len() && m2.files[j] == mw.files[k];
                                lemma_process_rows(m, rid, files[i], lang, now, st, m2, st2, j);
                            }
                        }
                    },
                }
            },
        }
    }
}

/// Processing one file either keeps a row or writes one under the file's own
/// path.
proof fn lemma_process_rows(
    m: StoreModel,
    rid: int,
    f: crate::indexer::SpecFileInput,
    lang: crate::filters::LanguageId,
    now: Seq<char>,
    st: crate::indexer::SpecStats,
    m2: StoreModel,
    st2: crate::indexer::SpecStats,
    j: int,
)
    requires
        crate::indexer::spec_process_file(m, rid, f, lang, now, st) == Some((m2, st2)),
        0 <= j < m2.files.len(),
    ensures
        m.files.contains(m2.files[j]) || m2.files[j].rel_path == f.rel_path,
{
    let hash = crate::hasher::sha256_hex(f.bytes);
    if !(match crate::store::find_file_from(m.files, rid, f.rel_path, 0) {
        Some(q) => m.files[q].content_hash == hash,
        None => false,
    }) {
        match crate::cst::parsed_cst(lang, f.bytes) {
            None => {},
            Some(root) => {
                match crate::store::spec_upsert_file(
                    m,
                    rid,
                    f.rel_path,
                    hash,
                    crate::indexer::spec_lang_tag(f),
                    now,
                ) {
                    Err(_) => {},
                    Ok((mu, fid)) => {
                        let m3 = crate::store::spec_clear_file_symbols(mu, fid);
                        let ts = crate::indexer::spec_extract(lang, root);
                        match crate::indexer::spec_insert_roots(
                            m3,
                            fid,
                            rid,
                            f.rel_path,
                            ts,
                            0,
                        ) {
                            None => {},
                            Some(m4) => {
                                lemma_insert_roots_files(m3, fid, rid, f.rel_path, ts, 0, m4);
                                assert(m4.files == m3.files);
                                assert(m3.files == mu.files);
                                match crate::store::find_file_from(m.files, rid, f.rel_path, 0) {
                                    Some(q) => {
                                        lemma_find_file_range(m.files, rid, f.rel_path, 0);
                                        assert(mu.files.len() == m.files.len());
                                        if j != q {
                                            assert(mu.files[j] == m.files[j]);
                                            assert(m.files.contains(m.files[j]));
                                        } else {
                                            assert(mu.files[j].rel_path == f.rel_path);
                                        }
                                    },
                                    None => {
                                        if j < m.files.len() {
                                            assert(mu.files[j] == m.files[j]);
                                            assert(m.files.contains(m.files[j]));
                                        } else {
                                            assert(mu.files[j].rel_path == f.rel_path);
                                        }
                                    },
                                }
                            },
                        }
                    },
                }
            },
        }
    }
}

/// Root-by-root insertion leaves the file table alone.
proof fn lemma_insert_roots_files(
    m: StoreModel,
    fid: int,
    rid: int,
    rel: Seq<char>,
    ts: Seq<SpecSymbol>,
    i: int,
    m4: StoreModel,
)
    requires
        crate::indexer::spec_insert_roots(m, fid, rid, rel, ts, i) == Some(m4),
    ensures
        m4.files == m.files,
        m4.repo == m.repo,
    decreases ts.len() - i,
{
    if 0 <= i < ts.len() {
        crate::store::lemma_insert_forest_frame(m, fid, rid, rel, seq![ts[i]], None);
        lemma_insert_roots_files(
            crate::store::spec_insert_forest(m, fid, rid, rel, seq![ts[i]], None),
            fid,
            rid,
            rel,
            ts,
            i + 1,
            m4,
        );
    }
}

/// A found file index lies inside the table.
proof fn lemma_find_file_range(fs: Seq<crate::store::SpecFileRow>, rid: int, rel: Seq<char>, i: int)
    ensures
        crate::store::find_file_from(fs, rid, rel, i) matches Some(j) ==> 0 <= j < fs.len(),
    decreases fs.len() - i,
{
    if 0 <= i < fs.len() && !(fs[i].repo_id == rid && fs[i].rel_path == rel) {
        lemma_find_file_range(fs, rid, rel, i + 1);
    }
}

/// Rows surviving the deletion pass stood in the table before it.
proof fn lemma_delete_ids_subset(m: StoreModel, ids: Seq<int>, i: int, k: int)
    requires
        0 <= k < crate::indexer::spec_delete_ids(m, ids, i).files.len(),
    ensures
        m.files.contains(crate::indexer::spec_delete_ids(m, ids, i).files[k]),
    decreases ids.len() - i,
{
    if 0 <= i < ids.len() {
        let m2 = crate::store::spec_delete_file(m, ids[i]);
        lemma_delete_ids_subset(m2, ids, i + 1, k);
        let row = crate::indexer::spec_delete_ids(m, ids, i).files[k];
        let j = choose|j: int| 0 <= j < m2.files.len() && m2.files[j] == row;
        lemma_keep_files_membership(m.files, ids[i], j);
    }
}

/// After a successful full run, every file row of the repository carries a
/// path the walk saw: a file gone from the walk leaves no row behind. With
/// `law_deleted_file_has_no_symbols`, nothing of a deleted file survives.
pub proof fn law_index_keeps_only_seen(
    m: StoreModel,
    repo_path: Seq<char>,
    files: Seq<crate::indexer::SpecFileInput>,
    patterns: Seq<Seq<char>>,
    max_size: int,
    grules: Option<Seq<char>>,
    now: Seq<char>,
    m2: StoreModel,
    st: crate::indexer::SpecStats,
    k: int,
)
    requires
        crate::indexer::spec_index(m, repo_path, files, patterns, max_size, grules, now) == Some(
            (m2, st),
        ),
        0 <= k < m2.files.len(),
        m2.files[k].repo_id == (match crate::store::spec_ensure_repo(m, repo_path) {
            Ok((m1, rid)) => rid,
            Err(_) => 0,
        }),
    ensures
        crate::indexer::spec_seen(files, patterns, max_size, grules, m2.files[k].rel_path),
{
    match crate::store::spec_ensure_repo(m, repo_path) {
        Err(_) => {},
        Ok((m1, rid)) => {
            let st0 = crate::indexer::SpecStats {
                files_new: 0,
                files_changed: 0,
                files_unchanged: 0,
                files_deleted: 0,
                symbols_count: 0,
                refs_count: 0,
            };
            match crate::indexer::spec_walk(
                m1, rid, files, patterns, max_size, grules, now, st0, 0,
            ) {
                None => {},
                Some((mw, stw)) => {
                    let stale = crate::indexer::spec_stale_ids(
                        mw.files,
                        rid,
                        files,
                        patterns,
                        max_size,
                        grules,
                    );
                    let md = crate::indexer::spec_delete_ids(mw, stale, 0);
                    // The surviving row, traced back to the post-walk table.
                    assert(m2.files == md.files);
                    lemma_delete_ids_subset(mw, stale, 0, k);
                    let row = md.files[k];
                    let j = choose|j: int| 0 <= j < mw.files.len() && mw.files[j] == row;
                    if !crate::indexer::spec_seen(files, patterns, max_size, grules, row.rel_path) {
                        law_unseen_file_is_stale(
                            mw.files, rid, files, patterns, max_size, grules, j,
                        );
                        law_stale_ids_are_deleted(mw, stale, row.id);
                    }
                },
            }
        },
    }
}

/// A found file row keeps its index and value under an update elsewhere.
proof fn lemma_find_file_update_other(
    fs: Seq<crate::store::SpecFileRow>,
    q: int,
    row: crate::store::SpecFileRow,
    rid: int,
    rel: Seq<char>,
    i: int,
)
    requires
        0 <= q < fs.len(),
        fs[q].rel_path == row.rel_path,
        fs[q].repo_id == row.repo_id,
        rel != row.rel_path,
    ensures
        crate::store::find_file_from(fs.update(q, row), rid, rel, i) == crate::store::find_file_from(
            fs,
            rid,
            rel,
            i,
        ),
        crate::store::find_file_from(fs, rid, rel, i) matches Some(j) ==> fs.update(q, row)[j]
            == fs[j],
    decreases fs.len() - i,
{
    if 0 <= i < fs.len() {
        if !(fs[i].repo_id == rid && fs[i].rel_path == rel) {
            lemma_find_file_update_other(fs, q, row, rid, rel, i + 1);
        } else {
            assert(i != q);
        }
    }
}

/// A found file row keeps its index and value under a push of another path.
proof fn lemma_find_file_push_other(
    fs: Seq<crate::store::SpecFileRow>,
    row: crate::store::SpecFileRow,
    rid: int,
    rel: Seq<char>,
    i: int,
)
    requires
        rel != row.rel_path,
        0 <= i,
    ensures
        crate::store::find_file_from(fs.push(row), rid, rel, i) == crate::store::find_file_from(
            fs,
            rid,
            rel,
            i,
        ),
        crate::store::find_file_from(fs, rid, rel, i) matches Some(j) ==> fs.push(row)[j] == fs[j],
    decreases fs.len() + 1 - i,
{
    if i < fs.len() {
        if !(fs[i].repo_id == rid && fs[i].rel_path == rel) {
            lemma_find_file_push_other(fs, row, rid, rel, i + 1);
        }
    } else if i == fs.len() {
        assert(crate::store::find_file_from(fs.push(row), rid, rel, i + 1) is None);
    }
}

/// Processing one file neither moves nor rewrites the row of another path,
/// and keeps the repository row.
proof fn lemma_process_preserves_other(
    m: StoreModel,
    rid: int,
    f: crate::indexer::SpecFileInput,
    lang: crate::filters::LanguageId,
    now: Seq<char>,
    st: crate::indexer::SpecStats,
    m2: StoreModel,
    st2: crate::indexer::SpecStats,
    rel: Seq<char>,
)
    requires
        crate::indexer::spec_process_file(m, rid, f, lang, now, st) == Some((m2, st2)),
        rel != f.rel_path,
    ensures
        crate::store::find_file_from(m2.files, rid, rel, 0) == crate::store::find_file_from(
            m.files,
            rid,
            rel,
            0,
        ),
        crate::store::find_file_from(m.files, rid, rel, 0) matches Some(j) ==> m2.files[j]
            == m.files[j],
        m2.repo == m.repo,
{
    let hash = crate::hasher::sha256_hex(f.bytes);
    if !(match crate::store::find_file_from(m.files, rid, f.rel_path, 0) {
        Some(q) => m.files[q].content_hash == hash,
        None => false,
    }) {
        match crate::cst::parsed_cst(lang, f.bytes) {
            None => {},
            Some(root) => {
                match crate::store::spec_upsert_file(
                    m,
                    rid,
                    f.rel_path,
                    hash,
                    crate::indexer::spec_lang_tag(f),
                    now,
                ) {
                    Err(_) => {},
                    Ok((mu, fid)) => {
                        match crate::store::find_file_from(m.files, rid, f.rel_path, 0) {
                            Some(q) => {
                                lemma_find_file_range(m.files, rid, f.rel_path, 0);
                                lemma_find_file_match(m.files, rid, f.rel_path, 0);
                                lemma_find_file_update_other(
                                    m.files,
                                    q,
                                    mu.files[q],
                                    rid,
                                    rel,
                                    0,
                                );
                            },
                            None => {
                                lemma_find_file_push_other(
                                    m.files,
                                    mu.files.last(),
                                    rid,
                                    rel,
                                    0,
                                );
                            },
                        }
                        let m3 = crate::store::spec_clear_file_symbols(mu, fid);
                        let ts = crate::indexer::spec_extract(lang, root);
                        match crate::indexer::spec_insert_roots(
                            m3,
                            fid,
                            rid,
                            f.rel_path,
                            ts,
                            0,
                        ) {
                            None => {},
                            Some(m4) => {
                                lemma_insert_roots_files(m3, fid, rid, f.rel_path, ts, 0, m4);
                            },
                        }
                    },
                }
            },
        }
    }
}

/// A found file row matches what was looked for.
proof fn lemma_find_file_match(
    fs: Seq<crate::store::SpecFileRow>,
    rid: int,
    rel: Seq<char>,
    i: int,
)
    ensures
        crate::store::find_file_from(fs, rid, rel, i) matches Some(j) ==> 0 <= j < fs.len()
            && fs[j].repo_id == rid && fs[j].rel_path == rel,
    decreases fs.len() - i,
{
    if 0 <= i < fs.len() && !(fs[i].repo_id == rid && fs[i].rel_path == rel) {
        lemma_find_file_match(fs, rid, rel, i + 1);
    }
}

/// The walk neither moves nor rewrites the row of a path none of its inputs
/// carries, and keeps the repository row.
proof fn lemma_walk_preserves_row(
    m: StoreModel,
    rid: int,
    files: Seq<crate::indexer::SpecFileInput>,
    patterns: Seq<Seq<char>>,
    max_size: int,
    grules: Option<Seq<char>>,
    now: Seq<char>,
    st: crate::indexer::SpecStats,
    i: int,
    mw: StoreModel,
    stw: crate::indexer::SpecStats,
    rel: Seq<char>,
)
    requires
        0 <= i <= files.len(),
        crate::indexer::spec_walk(m, rid, files, patterns, max_size, grules, now, st, i) == Some(
            (mw, stw),
        ),
        forall|j: int| i <= j < files.len() ==> (#[trigger] files[j]).rel_path != rel,
    ensures
        crate::store::find_file_from(mw.files, rid, rel, 0) == crate::store::find_file_from(
            m.files,
            rid,
            rel,
            0,
        ),
        crate::store::find_file_from(m.files, rid, rel, 0) matches Some(j) ==> mw.files[j]
            == m.files[j],
        mw.repo == m.repo,
    decreases files.len() - i,
{
    if i < files.len() {
        match crate::indexer::spec_admit(files[i], patterns, max_size, grules) {
            None => {
                lemma_walk_preserves_row(
                    m, rid, files, patterns, max_size, grules, now, st, i + 1, mw, stw, rel,
                );
            },
            Some(lang) => {
                match crate::indexer::spec_process_file(m, rid, files[i], lang, now, st) {
                    None => {},
                    Some((m2, st2)) => {
                        lemma_process_preserves_other(
                            m, rid, files[i], lang, now, st, m2, st2, rel,
                        );
                        lemma_walk_preserves_row(
                            m2, rid, files, patterns, max_size, grules, now, st2, i + 1, mw, stw,
                            rel,
                        );
                    },
                }
            },
        }
    }
}

/// What a successful walk leaves for each accepted input: its row carries
/// the hash of its bytes, unless tree-sitter cannot parse those bytes at
/// all (then nothing was written for it in this pass).
proof fn lemma_walk_hashes(
    m: StoreModel,
    rid: int,
    files: Seq<crate::indexer::SpecFileInput>,
    patterns: Seq<Seq<char>>,
    max_size: int,
    grules: Option<Seq<char>>,
    now: Seq<char>,
    st: crate::indexer::SpecStats,
    i: int,
    mw: StoreModel,
    stw: crate::indexer::SpecStats,
)
    requires
        0 <= i <= files.len(),
        crate::indexer::spec_walk(m, rid, files, patterns, max_size, grules, now, st, i) == Some(
            (mw, stw),
        ),
        forall|a: int, b: int|
            i <= a < b < files.len() ==> (#[trigger] files[a]).rel_path != (
            #[trigger] files[b]).rel_path,
    ensures
        forall|j: int|
            i <= j < files.len() && crate::indexer::spec_admit(
                #[trigger] files[j],
                patterns,
                max_size,
                grules,
            ) is Some ==> ((match crate::store::find_file_from(
                mw.files,
                rid,
                files[j].rel_path,
                0,
            ) {
                Some(k) => mw.files[k].content_hash == crate::hasher::sha256_hex(files[j].bytes),
                None => false,
            }) || crate::cst::parsed_cst(
                crate::indexer::spec_admit(files[j], patterns, max_size, grules).unwrap(),
                files[j].bytes,
            ) is None),
    decreases files.len() - i,
{
    if i < files.len() {
        match crate::indexer::spec_admit(files[i], patterns, max_size, grules) {
            None => {
                lemma_walk_hashes(
                    m, rid, files, patterns, max_size, grules, now, st, i + 1, mw, stw,
                );
            },
            Some(lang) => {
                match crate::indexer::spec_process_file(m, rid, files[i], lang, now, st) {
                    None => {},
                    Some((m2, st2)) => {
                        lemma_walk_hashes(
                            m2, rid, files, patterns, max_size, grules, now, st2, i + 1, mw, stw,
                        );
                        // The processed file's own row survives the rest of
                        // the walk untouched: later inputs carry other paths.
                        lemma_walk_preserves_row(
                            m2,
                            rid,
                            files,
                            patterns,
                            max_size,
                            grules,
                            now,
                            st2,
                            i + 1,
                            mw,
                            stw,
                            files[i].rel_path,
                        );
                        let hash = crate::hasher::sha256_hex(files[i].bytes);
                        let unchanged = match crate::store::find_file_from(
                            m.files,
                            rid,
                            files[i].rel_path,
                            0,
                        ) {
                            Some(q) => m.files[q].content_hash == hash,
                            None => false,
                        };
                        if unchanged {
                            lemma_find_file_match(m.files, rid, files[i].rel_path, 0);
                        } else {
                            match crate::cst::parsed_cst(lang, files[i].bytes) {
                                None => {},
                                Some(root) => {
                                    match crate::store::spec_upsert_file(
                                        m,
                                        rid,
                                        files[i].rel_path,
                                        hash,
                                        crate::indexer::spec_lang_tag(files[i]),
                                        now,
                                    ) {
                                        Err(_) => {},
                                        Ok((mu, fid)) => {
                                            let m3 = crate::store::spec_clear_file_symbols(
                                                mu,
                                                fid,
                                            );
                                            let ts = crate::indexer::spec_extract(lang, root);
                                            match crate::indexer::spec_insert_roots(
                                                m3,
                                                fid,
                                                rid,
                                                files[i].rel_path,
                                                ts,
                                                0,
                                            ) {
                                                None => {},
                                                Some(m4) => {
                                                    lemma_insert_roots_files(
                                                        m3,
                                                        fid,
                                                        rid,
                                                        files[i].rel_path,
                                                        ts,
                                                        0,
                                                        m4,
                                                    );
                                                    lemma_upsert_writes_hash(
                                                        m,
                                                        rid,
                                                        files[i].rel_path,
                                                        hash,
                                                        crate::indexer::spec_lang_tag(files[i]),
                                                        now,
                                                        mu,
                                                        fid,
                                                    );
                                                },
                                            }
                                        },
                                    }
                                },
                            }
                        }
                    },
                }
            },
        }
    }
}

/// After an upsert, the first row under the path carries the written hash.
proof fn lemma_upsert_writes_hash(
    m: StoreModel,
    rid: int,
    rel: Seq<char>,
    hash: Seq<char>,
    lang: Seq<char>,
    now: Seq<char>,
    mu: StoreModel,
    fid: int,
)
    requires
        crate::store::spec_upsert_file(m, rid, rel, hash, lang, now) == Ok::<
            (StoreModel, int),
            crate::store::StoreError,
        >((mu, fid)),
    ensures
        crate::store::find_file_from(mu.files, rid, rel, 0) matches Some(k) && mu.files[k].content_hash
            == hash,
{
    match crate::store::find_file_from(m.files, rid, rel, 0) {
        Some(q) => {
            lemma_find_file_range(m.files, rid, rel, 0);
            lemma_find_file_match(m.files, rid, rel, 0);
            lemma_find_first_is_first(m.files, mu.files, rid, rel, 0, q);
        },
        None => {
            lemma_find_appended_file(m.files, mu.files.last(), rid, rel, 0);
        },
    }
}

/// An in-place update at the first match keeps it the first match.
proof fn lemma_find_first_is_first(
    fs: Seq<crate::store::SpecFileRow>,
    fs2: Seq<crate::store::SpecFileRow>,
    rid: int,
    rel: Seq<char>,
    i: int,
    q: int,
)
    requires
        0 <= i <= q < fs.len(),
        fs2 == fs.update(q, fs2[q]),
        fs2.len() == fs.len(),
        fs2[q].repo_id == rid,
        fs2[q].rel_path == rel,
        crate::store::find_file_from(fs, rid, rel, i) == Some(q),
    ensures
        crate::store::find_file_from(fs2, rid, rel, i) == Some(q),
    decreases q - i,
{
    if i < q {
        assert(!(fs[i].repo_id == rid && fs[i].rel_path == rel));
        assert(fs2[i] == fs[i]);
        lemma_find_first_is_first(fs, fs2, rid, rel, i + 1, q);
    }
}

/// A pushed row under a previously absent path is what a lookup finds.
proof fn lemma_find_appended_file(
    fs: Seq<crate::store::SpecFileRow>,
    row: crate::store::SpecFileRow,
    rid: int,
    rel: Seq<char>,
    i: int,
)
    requires
        0 <= i <= fs.len(),
        crate::store::find_file_from(fs, rid, rel, i) is None,
        row.repo_id == rid,
        row.rel_path == rel,
    ensures
        crate::store::find_file_from(fs.push(row), rid, rel, i) == Some(fs.len() as int),
    decreases fs.len() - i,
{
    if i < fs.len() {
        lemma_find_appended_file(fs, row, rid, rel, i + 1);
    } else {
        assert(fs.push(row)[i] == row);
    }
}

/// A walk over inputs that are each already stored (hash match) or
/// unparseable changes nothing and reports nothing new or changed.
proof fn lemma_walk_no_rework(
    m: StoreModel,
    rid: int,
    files: Seq<crate::indexer::SpecFileInput>,
    patterns: Seq<Seq<char>>,
    max_size: int,
    grules: Option<Seq<char>>,
    now: Seq<char>,
    st: crate::indexer::SpecStats,
    i: int,
)
    requires
        0 <= i <= files.len(),
        forall|j: int|
            i <= j < files.len() && crate::indexer::spec_admit(
                #[trigger] files[j],
                patterns,
                max_size,
                grules,
            ) is Some ==> ((match crate::store::find_file_from(
                m.files,
                rid,
                files[j].rel_path,
                0,
            ) {
                Some(k) => m.files[k].content_hash == crate::hasher::sha256_hex(files[j].bytes),
                None => false,
            }) || crate::cst::parsed_cst(
                crate::indexer::spec_admit(files[j], patterns, max_size, grules).unwrap(),
                files[j].bytes,
            ) is None),
    ensures
        crate::indexer::spec_walk(m, rid, files, patterns, max_size, grules, now, st, i)
            matches Some(p) && p.0 == m && p.1.files_new == st.files_new && p.1.files_changed
            == st.files_changed && p.1.files_deleted == st.files_deleted,
    decreases files.len() - i,
{
    if i < files.len() {
        match crate::indexer::spec_admit(files[i], patterns, max_size, grules) {
            None => {
                lemma_walk_no_rework(m, rid, files, patterns, max_size, grules, now, st, i + 1);
            },
            Some(lang) => {
                let hash = crate::hasher::sha256_hex(files[i].bytes);
                let unchanged = match crate::store::find_file_from(
                    m.files,
                    rid,
                    files[i].rel_path,
                    0,
                ) {
                    Some(k) => m.files[k].content_hash == hash,
                    None => false,
                };
                if unchanged {
                    lemma_walk_no_rework(
                        m,
                        rid,
                        files,
                        patterns,
                        max_size,
                        grules,
                        now,
                        crate::indexer::SpecStats {
                            files_unchanged: st.files_unchanged + 1,
                            ..st
                        },
                        i + 1,
                    );
                } else {
                    lemma_walk_no_rework(
                        m, rid, files, patterns, max_size, grules, now, st, i + 1,
                    );
                }
            },
        }
    }
}

/// Indexing a freshly built store and then, with nothing changed on disk,
/// indexing the same inputs again: the second run reports nothing new,
/// changed or deleted — every counted file is unchanged.
pub proof fn law_index_twice_from_fresh(
    m: StoreModel,
    repo_path: Seq<char>,
    files: Seq<crate::indexer::SpecFileInput>,
    patterns: Seq<Seq<char>>,
    max_size: int,
    grules: Option<Seq<char>>,
    now1: Seq<char>,
    now2: Seq<char>,
    m2: StoreModel,
    st1: crate::indexer::SpecStats,
)
    requires
        m.repo is None,
        m.files.len() == 0,
        forall|a: int, b: int|
            0 <= a < b < files.len() ==> (#[trigger] files[a]).rel_path != (
            #[trigger] files[b]).rel_path,
        crate::indexer::spec_index(m, repo_path, files, patterns, max_size, grules, now1) == Some(
            (m2, st1),
        ),
    ensures
        crate::indexer::spec_index(m2, repo_path, files, patterns, max_size, grules, now2)
            matches Some(p) && p.1.files_new == 0 && p.1.files_changed == 0 && p.1.files_deleted
            == 0,
{
    let m1 = StoreModel {
        repo: Some(
            crate::store::SpecRepoRow { id: 1, abs_path: repo_path, last_indexed_at: None },
        ),
        ..m
    };
    let rid = 1int;
    let st0 = crate::indexer::SpecStats {
        files_new: 0,
        files_changed: 0,
        files_unchanged: 0,
        files_deleted: 0,
        symbols_count: 0,
        refs_count: 0,
    };
    match crate::indexer::spec_walk(
        m1, rid, files, patterns, max_size, grules, now1, st0, 0,
    ) {
        None => {},
        Some((mw, stw)) => {
            // Nothing was stale: the first run started with no file rows.
            lemma_walk_rows(
                m1, rid, files, patterns, max_size, grules, now1, st0, 0, mw, stw,
            );
            assert forall|k: int|
                0 <= k < mw.files.len() && (#[trigger] mw.files[k]).repo_id == rid implies
                crate::indexer::spec_seen(
                files,
                patterns,
                max_size,
                grules,
                mw.files[k].rel_path,
            ) by {
                if m1.files.contains(mw.files[k]) {
                }
            }
            lemma_no_stale(mw.files, rid, files, patterns, max_size, grules);
            let stale = crate::indexer::spec_stale_ids(
                mw.files,
                rid,
                files,
                patterns,
                max_size,
                grules,
            );
            assert(crate::indexer::spec_delete_ids(mw, stale, 0) == mw);
            // The second run sees the hashes the first run wrote.
            lemma_walk_hashes(
                m1, rid, files, patterns, max_size, grules, now1, st0, 0, mw, stw,
            );
            let mr = crate::store::spec_resolve(mw, rid);
            assert(mr.files == mw.files);
            assert(m2.files == mw.files);
            assert(m2.repo matches Some(rr) && rr.abs_path == repo_path && rr.id == rid) by {
                lemma_walk_preserves_repo(
                    m1, rid, files, patterns, max_size, grules, now1, st0, 0, mw, stw,
                );
            }
            lemma_walk_no_rework(m2, rid, files, patterns, max_size, grules, now2, st0, 0);
            match crate::indexer::spec_walk(
                m2, rid, files, patterns, max_size, grules, now2, st0, 0,
            ) {
                None => {},
                Some((mw2, stw2)) => {
                    assert(mw2 == m2);
                    lemma_no_stale(m2.files, rid, files, patterns, max_size, grules);
                    let stale2 = crate::indexer::spec_stale_ids(
                        m2.files,
                        rid,
                        files,
                        patterns,
                        max_size,
                        grules,
                    );
                    assert(crate::indexer::spec_delete_ids(mw2, stale2, 0) == mw2);
                },
            }
        },
    }
}

/// The walk keeps the repository row.
proof fn lemma_walk_preserves_repo(
    m: StoreModel,
    rid: int,
    files: Seq<crate::indexer::SpecFileInput>,
    patterns: Seq<Seq<char>>,
    max_size: int,
    grules: Option<Seq<char>>,
    now: Seq<char>,
    st: crate::indexer::SpecStats,
    i: int,
    mw: StoreModel,
    stw: crate::indexer::SpecStats,
)
    requires
        0 <= i <= files.len(),
        crate::indexer::spec_walk(m, rid, files, patterns, max_size, grules, now, st, i) == Some(
            (mw, stw),
        ),
    ensures
        mw.repo == m.repo,
    decreases files.len() - i,
{
    if i < files.len() {
        match crate::indexer::spec_admit(files[i], patterns, max_size, grules) {
            None => {
                lemma_walk_preserves_repo(
                    m, rid, files, patterns, max_size, grules, now, st, i + 1, mw, stw,
                );
            },
            Some(lang) => {
                match crate::indexer::spec_process_file(m, rid, files[i], lang, now, st) {
                    None => {},
                    Some((m2, st2)) => {
                        // Any path other than the file's own serves: the
                        // lemma's repository clause is what is needed here.
                        lemma_process_preserves_other(
                            m,
                            rid,
                            files[i],
                            lang,
                            now,
                            st,
                            m2,
                            st2,
                            files[i].rel_path.push(' '),
                        );
                        lemma_walk_preserves_repo(
                            m2, rid, files, patterns, max_size, grules, now, st2, i + 1, mw, stw,
                        );
                    },
                }
            },
        }
    }
}

} // verus!
