//! Sorting for the query layer: verified selection sorts under the orders
//! the queries promise — the result holds exactly the input rows (as a
//! multiset), pairwise ordered; ties keep no particular relative position.

use vstd::prelude::*;

use vstd::multiset::Multiset;
use vstd::seq_lib::group_to_multiset_ensures;

verus! {

broadcast use group_to_multiset_ensures;

/// Strictly-below in the lexicographic string order.
pub open spec fn spec_str_lt(a: Seq<char>, b: Seq<char>) -> bool {
    crate::strutil::spec_str_le(a, b) && a != b
}

/// The order of outgoing dependencies: reference kind first, target name
/// second, both lexicographic.
pub open spec fn spec_dep_le(x: crate::store::RefRecord, y: crate::store::RefRecord) -> bool {
    spec_str_lt(x.ref_kind@, y.ref_kind@) || (x.ref_kind@ == y.ref_kind@
        && crate::strutil::spec_str_le(x.to_name@, y.to_name@))
}

/// The line number of a joined reference row, zero when it carries none.
pub open spec fn spec_ref_line(x: crate::store::RefRecord) -> int {
    match x.line {
        Some(l) => l as int,
        None => 0,
    }
}

/// The file of a joined reference row, empty when it carries none.
pub open spec fn spec_ref_file(x: crate::store::RefRecord) -> Seq<char> {
    match x.from_file {
        Some(f) => f@,
        None => Seq::<char>::empty(),
    }
}

/// The order of incoming references: from-file first, line second.
pub open spec fn spec_ref_loc_le(x: crate::store::RefRecord, y: crate::store::RefRecord) -> bool {
    spec_str_lt(spec_ref_file(x), spec_ref_file(y)) || (spec_ref_file(x) == spec_ref_file(y)
        && spec_ref_line(x) <= spec_ref_line(y))
}

/// Symbols in file order: by starting line.
pub open spec fn spec_sym_line_le(x: crate::store::SymbolRecord, y: crate::store::SymbolRecord) -> bool {
    x.start_line <= y.start_line
}

proof fn lemma_str_pair_total(a0: Seq<char>, a1: Seq<char>, b0: Seq<char>, b1: Seq<char>)
    ensures
        (spec_str_lt(a0, b0) || (a0 == b0 && crate::strutil::spec_str_le(a1, b1))) || (spec_str_lt(
            b0,
            a0,
        ) || (b0 == a0 && crate::strutil::spec_str_le(b1, a1))),
{
    crate::strutil::lemma_str_le_total(a0, b0);
    crate::strutil::lemma_str_le_total(a1, b1);
}

proof fn lemma_str_pair_trans(
    a0: Seq<char>,
    a1: Seq<char>,
    b0: Seq<char>,
    b1: Seq<char>,
    c0: Seq<char>,
    c1: Seq<char>,
)
    requires
        spec_str_lt(a0, b0) || (a0 == b0 && crate::strutil::spec_str_le(a1, b1)),
        spec_str_lt(b0, c0) || (b0 == c0 && crate::strutil::spec_str_le(b1, c1)),
    ensures
        spec_str_lt(a0, c0) || (a0 == c0 && crate::strutil::spec_str_le(a1, c1)),
{
    if spec_str_lt(a0, b0) || spec_str_lt(b0, c0) {
        if spec_str_lt(a0, b0) && spec_str_lt(b0, c0) {
            crate::strutil::lemma_str_le_trans(a0, b0, c0);
            if a0 == c0 {
                crate::strutil::lemma_str_le_antisym(a0, b0);
            }
        }
    } else {
        crate::strutil::lemma_str_le_trans(a1, b1, c1);
    }
}

proof fn lemma_dep_le_total(a: crate::store::RefRecord, b: crate::store::RefRecord)
    ensures
        spec_dep_le(a, b) || spec_dep_le(b, a),
{
    lemma_str_pair_total(a.ref_kind@, a.to_name@, b.ref_kind@, b.to_name@);
}

proof fn lemma_dep_le_trans(
    a: crate::store::RefRecord,
    b: crate::store::RefRecord,
    c: crate::store::RefRecord,
)
    requires
        spec_dep_le(a, b),
        spec_dep_le(b, c),
    ensures
        spec_dep_le(a, c),
{
    lemma_str_pair_trans(a.ref_kind@, a.to_name@, b.ref_kind@, b.to_name@, c.ref_kind@, c.to_name@);
}

proof fn lemma_ref_loc_le_total(a: crate::store::RefRecord, b: crate::store::RefRecord)
    ensures
        spec_ref_loc_le(a, b) || spec_ref_loc_le(b, a),
{
    crate::strutil::lemma_str_le_total(spec_ref_file(a), spec_ref_file(b));
}

proof fn lemma_ref_loc_le_trans(
    a: crate::store::RefRecord,
    b: crate::store::RefRecord,
    c: crate::store::RefRecord,
)
    requires
        spec_ref_loc_le(a, b),
        spec_ref_loc_le(b, c),
    ensures
        spec_ref_loc_le(a, c),
{
    if spec_str_lt(spec_ref_file(a), spec_ref_file(b)) || spec_str_lt(
        spec_ref_file(b),
        spec_ref_file(c),
    ) {
        if spec_str_lt(spec_ref_file(a), spec_ref_file(b)) && spec_str_lt(
            spec_ref_file(b),
            spec_ref_file(c),
        ) {
            crate::strutil::lemma_str_le_trans(spec_ref_file(a), spec_ref_file(b), spec_ref_file(c));
            if spec_ref_file(a) == spec_ref_file(c) {
                crate::strutil::lemma_str_le_antisym(spec_ref_file(a), spec_ref_file(b));
            }
        }
    }
}

proof fn lemma_sym_line_le_total(a: crate::store::SymbolRecord, b: crate::store::SymbolRecord)
    ensures
        spec_sym_line_le(a, b) || spec_sym_line_le(b, a),
{
}

proof fn lemma_sym_line_le_trans(
    a: crate::store::SymbolRecord,
    b: crate::store::SymbolRecord,
    c: crate::store::SymbolRecord,
)
    requires
        spec_sym_line_le(a, b),
        spec_sym_line_le(b, c),
    ensures
        spec_sym_line_le(a, c),
{
}

fn dep_le_exec(a: &crate::store::RefRecord, b: &crate::store::RefRecord) -> (r: bool)
    ensures
        r == spec_dep_le(*a, *b),
{
    if crate::strutil::str_eq(a.ref_kind.as_str(), b.ref_kind.as_str()) {
        crate::strutil::str_le(a.to_name.as_str(), b.to_name.as_str())
    } else {
        crate::strutil::str_le(a.ref_kind.as_str(), b.ref_kind.as_str())
    }
}

fn ref_file_of<'a>(x: &'a crate::store::RefRecord) -> (r: &'a str)
    ensures
        r@ == spec_ref_file(*x),
{
    match &x.from_file {
        Some(f) => f.as_str(),
        None => {
            proof {
                reveal_strlit("");
                assert(""@ =~= Seq::<char>::empty());
            }
            ""
        },
    }
}

fn ref_loc_le_exec(a: &crate::store::RefRecord, b: &crate::store::RefRecord) -> (r: bool)
    ensures
        r == spec_ref_loc_le(*a, *b),
{
    let fa = ref_file_of(a);
    let fb = ref_file_of(b);
    proof {
        reveal_strlit("");
        assert(""@ =~= Seq::<char>::empty());
    }
    if crate::strutil::str_eq(fa, fb) {
        let la = match a.line {
            Some(l) => l,
            None => 0,
        };
        let lb = match b.line {
            Some(l) => l,
            None => 0,
        };
        la <= lb
    } else {
        crate::strutil::str_le(fa, fb)
    }
}

fn sym_line_le_exec(a: &crate::store::SymbolRecord, b: &crate::store::SymbolRecord) -> (r: bool)
    ensures
        r == spec_sym_line_le(*a, *b),
{
    a.start_line <= b.start_line
}

/// Sorts outgoing references by kind, then target name.
/// Extracts a minimal row repeatedly, under the order `spec_dep_le`.
pub fn sort_deps(input: Vec<crate::store::RefRecord>) -> (r: Vec<crate::store::RefRecord>)
    ensures
        r@.to_multiset() == input@.to_multiset(),
        forall|a: int, b: int| 0 <= a < b < r@.len() ==> #[trigger] spec_dep_le(r@[a], r@[b]),
{
    let ghost input_snap = input@;
    let mut work = input;
    let mut out: Vec<crate::store::RefRecord> = Vec::new();
    proof {
        assert(out@.to_multiset().add(work@.to_multiset()) =~= input_snap.to_multiset());
    }
    while work.len() > 0
        invariant
            out@.to_multiset().add(work@.to_multiset()) == input_snap.to_multiset(),
            forall|a: int, b: int| 0 <= a < b < out@.len() ==> #[trigger] spec_dep_le(out@[a], out@[b]),
            forall|a: int, b: int|
                0 <= a < out@.len() && 0 <= b < work@.len() ==> #[trigger] spec_dep_le(
                    out@[a],
                    work@[b],
                ),
        decreases work@.len(),
    {
        let n = work.len();
        let mut m: usize = 0;
        let mut k: usize = 1;
        proof {
            lemma_dep_le_total(work@[0], work@[0]);
        }
        while k < n
            invariant
                n == work@.len(),
                0 < n,
                m < k,
                k <= n,
                forall|j: int| 0 <= j < k ==> spec_dep_le(work@[m as int], #[trigger] work@[j]),
            decreases n - k,
        {
            if !dep_le_exec(&work[m], &work[k]) {
                proof {
                    lemma_dep_le_total(work@[m as int], work@[k as int]);
                    assert forall|j: int| 0 <= j < k + 1 implies spec_dep_le(
                        work@[k as int],
                        #[trigger] work@[j],
                    ) by {
                        if j < k {
                            lemma_dep_le_trans(work@[k as int], work@[m as int], work@[j]);
                        } else {
                            lemma_dep_le_total(work@[k as int], work@[k as int]);
                        }
                    }
                }
                m = k;
            }
            k = k + 1;
        }
        let ghost w0 = work@;
        let x = work.remove(m);
        let ghost o0 = out@;
        out.push(x);
        proof {
            assert(out@.to_multiset() =~= o0.to_multiset().insert(w0[m as int]));
            assert(work@.to_multiset() =~= w0.to_multiset().remove(w0[m as int]));
            assert(w0.contains(w0[m as int]));
            assert(w0.to_multiset().count(w0[m as int]) > 0);
            assert(out@.to_multiset().add(work@.to_multiset()) =~= o0.to_multiset().add(
                w0.to_multiset(),
            ));
            assert forall|a: int, b: int|
                0 <= a < out@.len() && 0 <= b < work@.len() implies #[trigger] spec_dep_le(
                out@[a],
                work@[b],
            ) by {
                assert(work@[b] == (if b < m as int {
                    w0[b]
                } else {
                    w0[b + 1]
                }));
                if a < o0.len() {
                    assert(out@[a] == o0[a]);
                } else {
                    assert(out@[a] == w0[m as int]);
                }
            }
            assert forall|a: int, b: int| 0 <= a < b < out@.len() implies #[trigger] spec_dep_le(
                out@[a],
                out@[b],
            ) by {
                if b == out@.len() - 1 {
                    assert(out@[a] == o0[a]);
                    assert(out@[b] == w0[m as int]);
                } else {
                    assert(out@[a] == o0[a]);
                    assert(out@[b] == o0[b]);
                }
            }
        }
    }
    proof {
        assert(work@.to_multiset() =~= Multiset::<crate::store::RefRecord>::empty());
        assert(out@.to_multiset() =~= input_snap.to_multiset());
    }
    out
}

/// Sorts incoming references by from-file, then line.
/// Extracts a minimal row repeatedly, under the order `spec_ref_loc_le`.
pub fn sort_refs_by_location(input: Vec<crate::store::RefRecord>) -> (r: Vec<crate::store::RefRecord>)
    ensures
        r@.to_multiset() == input@.to_multiset(),
        forall|a: int, b: int| 0 <= a < b < r@.len() ==> #[trigger] spec_ref_loc_le(r@[a], r@[b]),
{
    let ghost input_snap = input@;
    let mut work = input;
    let mut out: Vec<crate::store::RefRecord> = Vec::new();
    proof {
        assert(out@.to_multiset().add(work@.to_multiset()) =~= input_snap.to_multiset());
    }
    while work.len() > 0
        invariant
            out@.to_multiset().add(work@.to_multiset()) == input_snap.to_multiset(),
            forall|a: int, b: int| 0 <= a < b < out@.len() ==> #[trigger] spec_ref_loc_le(out@[a], out@[b]),
            forall|a: int, b: int|
                0 <= a < out@.len() && 0 <= b < work@.len() ==> #[trigger] spec_ref_loc_le(
                    out@[a],
                    work@[b],
                ),
        decreases work@.len(),
    {
        let n = work.len();
        let mut m: usize = 0;
        let mut k: usize = 1;
        proof {
            lemma_ref_loc_le_total(work@[0], work@[0]);
        }
        while k < n
            invariant
                n == work@.len(),
                0 < n,
                m < k,
                k <= n,
                forall|j: int| 0 <= j < k ==> spec_ref_loc_le(work@[m as int], #[trigger] work@[j]),
            decreases n - k,
        {
            if !ref_loc_le_exec(&work[m], &work[k]) {
                proof {
                    lemma_ref_loc_le_total(work@[m as int], work@[k as int]);
                    assert forall|j: int| 0 <= j < k + 1 implies spec_ref_loc_le(
                        work@[k as int],
                        #[trigger] work@[j],
                    ) by {
                        if j < k {
                            lemma_ref_loc_le_trans(work@[k as int], work@[m as int], work@[j]);
                        } else {
                            lemma_ref_loc_le_total(work@[k as int], work@[k as int]);
                        }
                    }
                }
                m = k;
            }
            k = k + 1;
        }
        let ghost w0 = work@;
        let x = work.remove(m);
        let ghost o0 = out@;
        out.push(x);
        proof {
            assert(out@.to_multiset() =~= o0.to_multiset().insert(w0[m as int]));
            assert(work@.to_multiset() =~= w0.to_multiset().remove(w0[m as int]));
            assert(w0.contains(w0[m as int]));
            assert(w0.to_multiset().count(w0[m as int]) > 0);
            assert(out@.to_multiset().add(work@.to_multiset()) =~= o0.to_multiset().add(
                w0.to_multiset(),
            ));
            assert forall|a: int, b: int|
                0 <= a < out@.len() && 0 <= b < work@.len() implies #[trigger] spec_ref_loc_le(
                out@[a],
                work@[b],
            ) by {
                assert(work@[b] == (if b < m as int {
                    w0[b]
                } else {
                    w0[b + 1]
                }));
                if a < o0.len() {
                    assert(out@[a] == o0[a]);
                } else {
                    assert(out@[a] == w0[m as int]);
                }
            }
            assert forall|a: int, b: int| 0 <= a < b < out@.len() implies #[trigger] spec_ref_loc_le(
                out@[a],
                out@[b],
            ) by {
                if b == out@.len() - 1 {
                    assert(out@[a] == o0[a]);
                    assert(out@[b] == w0[m as int]);
                } else {
                    assert(out@[a] == o0[a]);
                    assert(out@[b] == o0[b]);
                }
            }
        }
    }
    proof {
        assert(work@.to_multiset() =~= Multiset::<crate::store::RefRecord>::empty());
        assert(out@.to_multiset() =~= input_snap.to_multiset());
    }
    out
}

/// Sorts symbol rows by starting line.
/// Extracts a minimal row repeatedly, under the order `spec_sym_line_le`.
pub fn sort_symbols_by_line(input: Vec<crate::store::SymbolRecord>) -> (r: Vec<crate::store::SymbolRecord>)
    ensures
        r@.to_multiset() == input@.to_multiset(),
        forall|a: int, b: int| 0 <= a < b < r@.len() ==> #[trigger] spec_sym_line_le(r@[a], r@[b]),
{
    let ghost input_snap = input@;
    let mut work = input;
    let mut out: Vec<crate::store::SymbolRecord> = Vec::new();
    proof {
        assert(out@.to_multiset().add(work@.to_multiset()) =~= input_snap.to_multiset());
    }
    while work.len() > 0
        invariant
            out@.to_multiset().add(work@.to_multiset()) == input_snap.to_multiset(),
            forall|a: int, b: int| 0 <= a < b < out@.len() ==> #[trigger] spec_sym_line_le(out@[a], out@[b]),
            forall|a: int, b: int|
                0 <= a < out@.len() && 0 <= b < work@.len() ==> #[trigger] spec_sym_line_le(
                    out@[a],
                    work@[b],
                ),
        decreases work@.len(),
    {
        let n = work.len();
        let mut m: usize = 0;
        let mut k: usize = 1;
        proof {
            lemma_sym_line_le_total(work@[0], work@[0]);
        }
        while k < n
            invariant
                n == work@.len(),
                0 < n,
                m < k,
                k <= n,
                forall|j: int| 0 <= j < k ==> spec_sym_line_le(work@[m as int], #[trigger] work@[j]),
            decreases n - k,
        {
            if !sym_line_le_exec(&work[m], &work[k]) {
                proof {
                    lemma_sym_line_le_total(work@[m as int], work@[k as int]);
                    assert forall|j: int| 0 <= j < k + 1 implies spec_sym_line_le(
                        work@[k as int],
                        #[trigger] work@[j],
                    ) by {
                        if j < k {
                            lemma_sym_line_le_trans(work@[k as int], work@[m as int], work@[j]);
                        } else {
                            lemma_sym_line_le_total(work@[k as int], work@[k as int]);
                        }
                    }
                }
                m = k;
            }
            k = k + 1;
        }
        let ghost w0 = work@;
        let x = work.remove(m);
        let ghost o0 = out@;
        out.push(x);
        proof {
            assert(out@.to_multiset() =~= o0.to_multiset().insert(w0[m as int]));
            assert(work@.to_multiset() =~= w0.to_multiset().remove(w0[m as int]));
            assert(w0.contains(w0[m as int]));
            assert(w0.to_multiset().count(w0[m as int]) > 0);
            assert(out@.to_multiset().add(work@.to_multiset()) =~= o0.to_multiset().add(
                w0.to_multiset(),
            ));
            assert forall|a: int, b: int|
                0 <= a < out@.len() && 0 <= b < work@.len() implies #[trigger] spec_sym_line_le(
                out@[a],
                work@[b],
            ) by {
                assert(work@[b] == (if b < m as int {
                    w0[b]
                } else {
                    w0[b + 1]
                }));
                if a < o0.len() {
                    assert(out@[a] == o0[a]);
                } else {
                    assert(out@[a] == w0[m as int]);
                }
            }
            assert forall|a: int, b: int| 0 <= a < b < out@.len() implies #[trigger] spec_sym_line_le(
                out@[a],
                out@[b],
            ) by {
                if b == out@.len() - 1 {
                    assert(out@[a] == o0[a]);
                    assert(out@[b] == w0[m as int]);
                } else {
                    assert(out@[a] == o0[a]);
                    assert(out@[b] == o0[b]);
                }
            }
        }
    }
    proof {
        assert(work@.to_multiset() =~= Multiset::<crate::store::SymbolRecord>::empty());
        assert(out@.to_multiset() =~= input_snap.to_multiset());
    }
    out
}

/// Sequences with equal multisets keep equal multisets under a value map.
pub proof fn lemma_map_values_multiset<A, B>(s1: Seq<A>, s2: Seq<A>, f: spec_fn(A) -> B)
    requires
        s1.to_multiset() == s2.to_multiset(),
    ensures
        s1.map_values(f).to_multiset() == s2.map_values(f).to_multiset(),
    decreases s1.len(),
{
    if s1.len() == 0 {
        assert(s2.to_multiset().len() == 0);
        assert(s2.len() == 0);
        assert(s1.map_values(f) =~= s2.map_values(f));
    } else {
        let x = s1.last();
        assert(s1.contains(x));
        assert(s1.to_multiset().count(x) > 0);
        assert(s2.to_multiset().count(x) > 0);
        assert(s2.contains(x));
        let j = choose|j: int| 0 <= j < s2.len() && s2[j] == x;
        let s1p = s1.drop_last();
        let s2p = s2.remove(j);
        assert(s1.push(x).to_multiset() =~= s1.to_multiset().insert(x));
        assert(s1p.push(x) =~= s1);
        assert(s1p.push(x).to_multiset() =~= s1p.to_multiset().insert(x));
        assert(s2p.to_multiset() =~= s2.to_multiset().remove(x));
        assert(s1p.to_multiset() =~= s2p.to_multiset());
        lemma_map_values_multiset(s1p, s2p, f);
        assert(s1.map_values(f) =~= s1p.map_values(f).push(f(x)));
        assert(s1.map_values(f).to_multiset() =~= s1p.map_values(f).to_multiset().insert(f(x)));
        assert(s2.map_values(f).remove(j) =~= s2p.map_values(f));
        assert(s2.map_values(f).remove(j).to_multiset() =~= s2.map_values(f).to_multiset().remove(
            f(x),
        ));
        assert(s2.map_values(f).to_multiset().count(f(x)) > 0) by {
            assert(s2.map_values(f)[j] == f(x));
            assert(s2.map_values(f).contains(f(x)));
        }
        assert(s1.map_values(f).to_multiset() =~= s2.map_values(f).to_multiset());
    }
}

/// Symbols by line span, widest first.
pub open spec fn spec_span_ge(x: crate::store::SymbolRecord, y: crate::store::SymbolRecord) -> bool {
    x.end_line - x.start_line >= y.end_line - y.start_line
}

fn span_ge_exec(a: &crate::store::SymbolRecord, b: &crate::store::SymbolRecord) -> (r: bool)
    ensures
        r == spec_span_ge(*a, *b),
{
    (a.end_line as i128) - (a.start_line as i128) >= (b.end_line as i128) - (b.start_line as i128)
}

/// Language histogram entries by count, largest first.
pub open spec fn spec_count_ge(x: (String, i64), y: (String, i64)) -> bool {
    x.1 >= y.1
}

fn count_ge_exec(a: &(String, i64), b: &(String, i64)) -> (r: bool)
    ensures
        r == spec_count_ge(*a, *b),
{
    a.1 >= b.1
}

/// Directory aggregates by symbol count, largest first.
pub open spec fn spec_module_ge(x: crate::store::ModuleInfo, y: crate::store::ModuleInfo) -> bool {
    x.symbol_count >= y.symbol_count
}

fn module_ge_exec(a: &crate::store::ModuleInfo, b: &crate::store::ModuleInfo) -> (r: bool)
    ensures
        r == spec_module_ge(*a, *b),
{
    a.symbol_count >= b.symbol_count
}

/// Sorts symbol rows by line span, widest first.
/// Extracts a minimal row repeatedly, under the order `spec_span_ge`.
pub fn sort_symbols_by_span(input: Vec<crate::store::SymbolRecord>) -> (r: Vec<crate::store::SymbolRecord>)
    ensures
        r@.to_multiset() == input@.to_multiset(),
        forall|a: int, b: int| 0 <= a < b < r@.len() ==> #[trigger] spec_span_ge(r@[a], r@[b]),
{
    let ghost input_snap = input@;
    let mut work = input;
    let mut out: Vec<crate::store::SymbolRecord> = Vec::new();
    proof {
        assert(out@.to_multiset().add(work@.to_multiset()) =~= input_snap.to_multiset());
    }
    while work.len() > 0
        invariant
            out@.to_multiset().add(work@.to_multiset()) == input_snap.to_multiset(),
            forall|a: int, b: int| 0 <= a < b < out@.len() ==> #[trigger] spec_span_ge(out@[a], out@[b]),
            forall|a: int, b: int|
                0 <= a < out@.len() && 0 <= b < work@.len() ==> #[trigger] spec_span_ge(
                    out@[a],
                    work@[b],
                ),
        decreases work@.len(),
    {
        let n = work.len();
        let mut m: usize = 0;
        let mut k: usize = 1;
        while k < n
            invariant
                n == work@.len(),
                0 < n,
                m < k,
                k <= n,
                forall|j: int| 0 <= j < k ==> spec_span_ge(work@[m as int], #[trigger] work@[j]),
            decreases n - k,
        {
            if !span_ge_exec(&work[m], &work[k]) {
                proof {
                    assert forall|j: int| 0 <= j < k + 1 implies spec_span_ge(
                        work@[k as int],
                        #[trigger] work@[j],
                    ) by {}
                }
                m = k;
            }
            k = k + 1;
        }
        let ghost w0 = work@;
        let x = work.remove(m);
        let ghost o0 = out@;
        out.push(x);
        proof {
            assert(out@.to_multiset() =~= o0.to_multiset().insert(w0[m as int]));
            assert(work@.to_multiset() =~= w0.to_multiset().remove(w0[m as int]));
            assert(w0.contains(w0[m as int]));
            assert(w0.to_multiset().count(w0[m as int]) > 0);
            assert(out@.to_multiset().add(work@.to_multiset()) =~= o0.to_multiset().add(
                w0.to_multiset(),
            ));
            assert forall|a: int, b: int|
                0 <= a < out@.len() && 0 <= b < work@.len() implies #[trigger] spec_span_ge(
                out@[a],
                work@[b],
            ) by {
                assert(work@[b] == (if b < m as int {
                    w0[b]
                } else {
                    w0[b + 1]
                }));
                if a < o0.len() {
                    assert(out@[a] == o0[a]);
                } else {
                    assert(out@[a] == w0[m as int]);
                }
            }
            assert forall|a: int, b: int| 0 <= a < b < out@.len() implies #[trigger] spec_span_ge(
                out@[a],
                out@[b],
            ) by {
                if b == out@.len() - 1 {
                    assert(out@[a] == o0[a]);
                    assert(out@[b] == w0[m as int]);
                } else {
                    assert(out@[a] == o0[a]);
                    assert(out@[b] == o0[b]);
                }
            }
        }
    }
    proof {
        assert(work@.to_multiset() =~= Multiset::<crate::store::SymbolRecord>::empty());
        assert(out@.to_multiset() =~= input_snap.to_multiset());
    }
    out
}

/// Sorts histogram entries by count, largest first.
/// Extracts a minimal row repeatedly, under the order `spec_count_ge`.
pub fn sort_hist_by_count(input: Vec<(String, i64)>) -> (r: Vec<(String, i64)>)
    ensures
        r@.to_multiset() == input@.to_multiset(),
        forall|a: int, b: int| 0 <= a < b < r@.len() ==> #[trigger] spec_count_ge(r@[a], r@[b]),
{
    let ghost input_snap = input@;
    let mut work = input;
    let mut out: Vec<(String, i64)> = Vec::new();
    proof {
        assert(out@.to_multiset().add(work@.to_multiset()) =~= input_snap.to_multiset());
    }
    while work.len() > 0
        invariant
            out@.to_multiset().add(work@.to_multiset()) == input_snap.to_multiset(),
            forall|a: int, b: int| 0 <= a < b < out@.len() ==> #[trigger] spec_count_ge(out@[a], out@[b]),
            forall|a: int, b: int|
                0 <= a < out@.len() && 0 <= b < work@.len() ==> #[trigger] spec_count_ge(
                    out@[a],
                    work@[b],
                ),
        decreases work@.len(),
    {
        let n = work.len();
        let mut m: usize = 0;
        let mut k: usize = 1;
        while k < n
            invariant
                n == work@.len(),
                0 < n,
                m < k,
                k <= n,
                forall|j: int| 0 <= j < k ==> spec_count_ge(work@[m as int], #[trigger] work@[j]),
            decreases n - k,
        {
            if !count_ge_exec(&work[m], &work[k]) {
                proof {
                    assert forall|j: int| 0 <= j < k + 1 implies spec_count_ge(
                        work@[k as int],
                        #[trigger] work@[j],
                    ) by {}
                }
                m = k;
            }
            k = k + 1;
        }
        let ghost w0 = work@;
        let x = work.remove(m);
        let ghost o0 = out@;
        out.push(x);
        proof {
            assert(out@.to_multiset() =~= o0.to_multiset().insert(w0[m as int]));
            assert(work@.to_multiset() =~= w0.to_multiset().remove(w0[m as int]));
            assert(w0.contains(w0[m as int]));
            assert(w0.to_multiset().count(w0[m as int]) > 0);
            assert(out@.to_multiset().add(work@.to_multiset()) =~= o0.to_multiset().add(
                w0.to_multiset(),
            ));
            assert forall|a: int, b: int|
                0 <= a < out@.len() && 0 <= b < work@.len() implies #[trigger] spec_count_ge(
                out@[a],
                work@[b],
            ) by {
                assert(work@[b] == (if b < m as int {
                    w0[b]
                } else {
                    w0[b + 1]
                }));
                if a < o0.len() {
                    assert(out@[a] == o0[a]);
                } else {
                    assert(out@[a] == w0[m as int]);
                }
            }
            assert forall|a: int, b: int| 0 <= a < b < out@.len() implies #[trigger] spec_count_ge(
                out@[a],
                out@[b],
            ) by {
                if b == out@.len() - 1 {
                    assert(out@[a] == o0[a]);
                    assert(out@[b] == w0[m as int]);
                } else {
                    assert(out@[a] == o0[a]);
                    assert(out@[b] == o0[b]);
                }
            }
        }
    }
    proof {
        assert(work@.to_multiset() =~= Multiset::<(String, i64)>::empty());
        assert(out@.to_multiset() =~= input_snap.to_multiset());
    }
    out
}

/// Sorts directory aggregates by symbol count, largest first.
/// Extracts a minimal row repeatedly, under the order `spec_module_ge`.
pub fn sort_modules_by_count(input: Vec<crate::store::ModuleInfo>) -> (r: Vec<crate::store::ModuleInfo>)
    ensures
        r@.to_multiset() == input@.to_multiset(),
        forall|a: int, b: int| 0 <= a < b < r@.len() ==> #[trigger] spec_module_ge(r@[a], r@[b]),
{
    let ghost input_snap = input@;
    let mut work = input;
    let mut out: Vec<crate::store::ModuleInfo> = Vec::new();
    proof {
        assert(out@.to_multiset().add(work@.to_multiset()) =~= input_snap.to_multiset());
    }
    while work.len() > 0
        invariant
            out@.to_multiset().add(work@.to_multiset()) == input_snap.to_multiset(),
            forall|a: int, b: int| 0 <= a < b < out@.len() ==> #[trigger] spec_module_ge(out@[a], out@[b]),
            forall|a: int, b: int|
                0 <= a < out@.len() && 0 <= b < work@.len() ==> #[trigger] spec_module_ge(
                    out@[a],
                    work@[b],
                ),
        decreases work@.len(),
    {
        let n = work.len();
        let mut m: usize = 0;
        let mut k: usize = 1;
        while k < n
            invariant
                n == work@.len(),
                0 < n,
                m < k,
                k <= n,
                forall|j: int| 0 <= j < k ==> spec_module_ge(work@[m as int], #[trigger] work@[j]),
            decreases n - k,
        {
            if !module_ge_exec(&work[m], &work[k]) {
                proof {
                    assert forall|j: int| 0 <= j < k + 1 implies spec_module_ge(
                        work@[k as int],
                        #[trigger] work@[j],
                    ) by {}
                }
                m = k;
            }
            k = k + 1;
        }
        let ghost w0 = work@;
        let x = work.remove(m);
        let ghost o0 = out@;
        out.push(x);
        proof {
            assert(out@.to_multiset() =~= o0.to_multiset().insert(w0[m as int]));
            assert(work@.to_multiset() =~= w0.to_multiset().remove(w0[m as int]));
            assert(w0.contains(w0[m as int]));
            assert(w0.to_multiset().count(w0[m as int]) > 0);
            assert(out@.to_multiset().add(work@.to_multiset()) =~= o0.to_multiset().add(
                w0.to_multiset(),
            ));
            assert forall|a: int, b: int|
                0 <= a < out@.len() && 0 <= b < work@.len() implies #[trigger] spec_module_ge(
                out@[a],
                work@[b],
            ) by {
                assert(work@[b] == (if b < m as int {
                    w0[b]
                } else {
                    w0[b + 1]
                }));
                if a < o0.len() {
                    assert(out@[a] == o0[a]);
                } else {
                    assert(out@[a] == w0[m as int]);
                }
            }
            assert forall|a: int, b: int| 0 <= a < b < out@.len() implies #[trigger] spec_module_ge(
                out@[a],
                out@[b],
            ) by {
                if b == out@.len() - 1 {
                    assert(out@[a] == o0[a]);
                    assert(out@[b] == w0[m as int]);
                } else {
                    assert(out@[a] == o0[a]);
                    assert(out@[b] == o0[b]);
                }
            }
        }
    }
    proof {
        assert(work@.to_multiset() =~= Multiset::<crate::store::ModuleInfo>::empty());
        assert(out@.to_multiset() =~= input_snap.to_multiset());
    }
    out
}

} // verus!
