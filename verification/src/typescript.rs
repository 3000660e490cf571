//! The TypeScript/JavaScript extractor: functions, classes with methods and
//! fields, interfaces, type aliases, enums, variable bindings, export and
//! import handling, JSDoc comments, and call, constructor, `instanceof`,
//! import and test-callback references.

use vstd::prelude::*;

use crate::cst::{lemma_child_descends, lemma_field_child_descends, spec_child_by_field, CstNode};
use crate::rust_lang::{field_text_or_empty, opt_field_text, push_part};
use crate::strutil::{
    spec_contains_sub, spec_join_char, spec_starts_with, spec_strip_leading, spec_strip_matches,
    spec_trim,
};
use crate::strutil::{
    join_char, split_lines, str_contains, str_eq, str_starts_with, strip_leading, strip_matches,
    trim,
};
use crate::symbols::{
    refs_view, sym_view, syms_view, ExtractedRef, ExtractedSymbol, RefKind, SpecRef, SpecSymbol,
    SymbolKind,
};

verus! {

broadcast use vstd::std_specs::vec::axiom_vec_decreases_to_view, vstd::string::group_string_axioms;

// ── JSDoc comments ──

/// One JSDoc line: trimmed, leading `*` markers dropped, trimmed again.
pub open spec fn jsdoc_clean_line(t: Seq<char>) -> Seq<char> {
    spec_trim(spec_strip_leading(spec_trim(t), '*'))
}

/// Cleaned JSDoc lines, empties dropped.
pub open spec fn jsdoc_lines(ls: Seq<Seq<char>>) -> Seq<Seq<char>>
    decreases ls.len(),
{
    if ls.len() == 0 {
        Seq::<Seq<char>>::empty()
    } else {
        jsdoc_lines(ls.drop_last()) + (if jsdoc_clean_line(ls.last()).len() > 0 {
            seq![jsdoc_clean_line(ls.last())]
        } else {
            Seq::<Seq<char>>::empty()
        })
    }
}

/// The body of a `/** ... */` comment: markers dropped, lines cleaned and
/// joined.
pub open spec fn spec_clean_jsdoc(t: Seq<char>) -> Seq<char> {
    let body0 = t.skip(3);
    let body = if crate::strutil::spec_ends_with(body0, "*/"@) {
        body0.take(body0.len() - 2)
    } else {
        body0
    };
    spec_join_char(jsdoc_lines(crate::strutil::spec_lines(body)), '\n')
}

/// The JSDoc comment attached to child `i`: the immediately preceding
/// sibling when it is a `/** ... */` comment with nonempty cleaned text.
pub open spec fn spec_ts_doc(cs: Seq<CstNode>, i: int) -> Option<Seq<char>> {
    if 0 < i <= cs.len() && cs[i - 1].kind@ == "comment"@ && spec_starts_with(
        cs[i - 1].text@,
        "/**"@,
    ) {
        let cleaned = spec_clean_jsdoc(cs[i - 1].text@);
        if cleaned.len() > 0 {
            Some(cleaned)
        } else {
            None
        }
    } else {
        None
    }
}

fn jsdoc_lines_exec(ls: &Vec<String>) -> (r: Vec<String>)
    ensures
        r.deep_view() == jsdoc_lines(ls.deep_view()),
{
    let mut out: Vec<String> = Vec::new();
    let n = ls.len();
    let mut i: usize = 0;
    proof {
        assert(ls.deep_view().take(0) =~= Seq::<Seq<char>>::empty());
        assert(out.deep_view() =~= jsdoc_lines(ls.deep_view().take(0)));
    }
    while i < n
        invariant
            n == ls@.len(),
            ls.deep_view().len() == n,
            i <= n,
            out.deep_view() == jsdoc_lines(ls.deep_view().take(i as int)),
        decreases n - i,
    {
        proof {
            assert(ls.deep_view().take(i + 1).drop_last() =~= ls.deep_view().take(i as int));
            assert(ls.deep_view().take(i + 1).last() == ls.deep_view()[i as int]);
            assert(ls.deep_view()[i as int] == ls@[i as int]@);
        }
        let t0 = trim(ls[i].as_str());
        let t1 = strip_leading(t0.as_str(), '*');
        let t = trim(t1.as_str());
        if t.as_str().unicode_len() > 0 {
            let ghost before = out.deep_view();
            out.push(t);
            proof {
                assert(out.deep_view() =~= before.push(jsdoc_clean_line(ls@[i as int]@)));
                assert(out.deep_view() =~= jsdoc_lines(ls.deep_view().take(i + 1)));
            }
        } else {
            proof {
                assert(out.deep_view() =~= jsdoc_lines(ls.deep_view().take(i + 1)));
            }
        }
        i = i + 1;
    }
    proof {
        assert(ls.deep_view().take(n as int) =~= ls.deep_view());
    }
    out
}

fn clean_jsdoc(t: &str) -> (r: String)
    requires
        t@.len() >= 3,
    ensures
        r@ == spec_clean_jsdoc(t@),
{
    let n = t.unicode_len();
    let body0 = t.substring_char(3, n);
    proof {
        assert(body0@ =~= t@.skip(3));
    }
    let m = body0.unicode_len();
    let body = if crate::strutil::str_ends_with(body0, "*/") {
        proof {
            reveal_strlit("*/");
        }
        let b = body0.substring_char(0, m - 2);
        proof {
            assert(b@ =~= t@.skip(3).take(t@.skip(3).len() - 2));
        }
        b.to_owned()
    } else {
        body0.to_owned()
    };
    let ls = split_lines(body.as_str());
    let cleaned = jsdoc_lines_exec(&ls);
    join_char(&cleaned, '\n')
}

/// The JSDoc comment right above child `i`, if any.
pub fn ts_doc(cs: &Vec<CstNode>, i: usize) -> (r: Option<String>)
    requires
        i <= cs@.len(),
    ensures
        crate::symbols::opt_view(r) == spec_ts_doc(cs@, i as int),
{
    if i > 0 && cs[i - 1].is_kind("comment") && str_starts_with(cs[i - 1].text.as_str(), "/**") {
        proof {
            reveal_strlit("/**");
        }
        let cleaned = clean_jsdoc(cs[i - 1].text.as_str());
        if cleaned.as_str().unicode_len() > 0 {
            Some(cleaned)
        } else {
            None
        }
    } else {
        None
    }
}

// ── Signatures ──

/// A TypeScript signature: the parameter list followed by the return type.
pub open spec fn spec_ts_signature(node: CstNode) -> Seq<char> {
    field_text_or_empty(node, "parameters"@) + field_text_or_empty(node, "return_type"@)
}

/// Builds the signature of a function-like node.
pub fn build_ts_signature(node: &CstNode) -> (r: String)
    ensures
        r@ == spec_ts_signature(*node),
{
    let mut s = match node.field_text("parameters") {
        Some(t) => t,
        None => String::new(),
    };
    match node.field_text("return_type") {
        Some(t) => {
            s.append(t.as_str());
        },
        None => {},
    }
    proof {
        assert(s@ =~= spec_ts_signature(*node));
    }
    s
}

// ── Call, constructor and instanceof references ──

/// The name a callable target renders as: member expressions join object
/// and property with a dot.
pub open spec fn spec_ts_callable_name(f: CstNode) -> Seq<char> {
    if f.kind@ == "member_expression"@ {
        match (spec_child_by_field(f, "object"@), spec_child_by_field(f, "property"@)) {
            (Some(o), Some(p)) => o.text@ + seq!['.'] + p.text@,
            (None, Some(p)) => p.text@,
            _ => f.text@,
        }
    } else {
        f.text@
    }
}

/// The references a single node contributes: calls, `new` constructions,
/// and `instanceof` type references.
pub open spec fn spec_ts_own_refs(n: CstNode) -> Seq<SpecRef> {
    if n.kind@ == "call_expression"@ {
        match spec_child_by_field(n, "function"@) {
            Some(f) => {
                let nm = spec_ts_callable_name(f);
                if nm.len() > 0 {
                    seq![SpecRef { name: nm, kind: RefKind::Call, line: n.spec_start_line() }]
                } else {
                    Seq::<SpecRef>::empty()
                }
            },
            None => Seq::<SpecRef>::empty(),
        }
    } else if n.kind@ == "new_expression"@ {
        match spec_child_by_field(n, "constructor"@) {
            Some(f) => {
                let nm = spec_ts_callable_name(f);
                if nm.len() > 0 {
                    seq![SpecRef { name: nm, kind: RefKind::Call, line: n.spec_start_line() }]
                } else {
                    Seq::<SpecRef>::empty()
                }
            },
            None => Seq::<SpecRef>::empty(),
        }
    } else if n.kind@ == "binary_expression"@ {
        match spec_child_by_field(n, "operator"@) {
            Some(op) => if op.text@ == "instanceof"@ {
                match spec_child_by_field(n, "right"@) {
                    Some(rhs) => if rhs.text@.len() > 0 {
                        seq![
                            SpecRef {
                                name: rhs.text@,
                                kind: RefKind::TypeRef,
                                line: n.spec_start_line(),
                            },
                        ]
                    } else {
                        Seq::<SpecRef>::empty()
                    },
                    None => Seq::<SpecRef>::empty(),
                }
            } else {
                Seq::<SpecRef>::empty()
            },
            None => Seq::<SpecRef>::empty(),
        }
    } else {
        Seq::<SpecRef>::empty()
    }
}

/// All references under a node forest, in pre-order.
pub open spec fn spec_ts_calls_in(cs: Seq<CstNode>) -> Seq<SpecRef>
    decreases cs,
{
    if cs.len() == 0 {
        Seq::<SpecRef>::empty()
    } else {
        spec_ts_calls_in(cs.drop_last()) + spec_ts_own_refs(cs.last()) + spec_ts_calls_in(
            cs.last().children@,
        )
    }
}

/// All references of a body node, itself included.
pub open spec fn spec_ts_body_calls(body: CstNode) -> Seq<SpecRef> {
    spec_ts_own_refs(body) + spec_ts_calls_in(body.children@)
}

fn ts_callable_name(f: &CstNode) -> (r: String)
    ensures
        r@ == spec_ts_callable_name(*f),
{
    if f.is_kind("member_expression") {
        let obj = f.field_text("object");
        let prop = f.field_text("property");
        match (obj, prop) {
            (Some(o), Some(p)) => {
                let mut s = o;
                s.push('.');
                s.append(p.as_str());
                proof {
                    assert(s@ =~= spec_ts_callable_name(*f));
                }
                s
            },
            (None, Some(p)) => p,
            _ => f.text.clone(),
        }
    } else {
        f.text.clone()
    }
}

fn ts_push_own_refs(n: &CstNode, out: &mut Vec<ExtractedRef>)
    ensures
        refs_view(final(out)@) == refs_view(old(out)@) + spec_ts_own_refs(*n),
{
    let ghost r0 = refs_view(out@);
    if n.is_kind("call_expression") {
        match n.child_by_field("function") {
            Some(f) => {
                let nm = ts_callable_name(f);
                if nm.as_str().unicode_len() > 0 {
                    out.push(ExtractedRef { name: nm, kind: RefKind::Call, line: n.start_line() });
                }
            },
            None => {},
        }
    } else if n.is_kind("new_expression") {
        match n.child_by_field("constructor") {
            Some(f) => {
                let nm = ts_callable_name(f);
                if nm.as_str().unicode_len() > 0 {
                    out.push(ExtractedRef { name: nm, kind: RefKind::Call, line: n.start_line() });
                }
            },
            None => {},
        }
    } else if n.is_kind("binary_expression") {
        match n.child_by_field("operator") {
            Some(op) => {
                if str_eq(op.text.as_str(), "instanceof") {
                    match n.child_by_field("right") {
                        Some(rhs) => {
                            if rhs.text.as_str().unicode_len() > 0 {
                                out.push(
                                    ExtractedRef {
                                        name: rhs.text.clone(),
                                        kind: RefKind::TypeRef,
                                        line: n.start_line(),
                                    },
                                );
                            }
                        },
                        None => {},
                    }
                }
            },
            None => {},
        }
    }
    proof {
        assert(refs_view(out@) =~= r0 + spec_ts_own_refs(*n));
    }
}

fn ts_collect_calls_in(cs: &Vec<CstNode>, out: &mut Vec<ExtractedRef>)
    ensures
        refs_view(final(out)@) == refs_view(old(out)@) + spec_ts_calls_in(cs@),
    decreases cs@,
{
    let n = cs.len();
    let mut i: usize = 0;
    proof {
        assert(refs_view(out@) =~= refs_view(old(out)@) + spec_ts_calls_in(cs@.take(0)));
    }
    while i < n
        invariant
            n == cs@.len(),
            i <= n,
            refs_view(out@) == refs_view(old(out)@) + spec_ts_calls_in(cs@.take(i as int)),
        decreases n - i,
    {
        proof {
            assert(cs@.take(i + 1).drop_last() =~= cs@.take(i as int));
            assert(cs@.take(i + 1).last() == cs@[i as int]);
        }
        ts_push_own_refs(&cs[i], out);
        ts_collect_calls_in(&cs[i].children, out);
        proof {
            assert(refs_view(out@) =~= refs_view(old(out)@) + spec_ts_calls_in(cs@.take(i + 1)));
        }
        i = i + 1;
    }
    proof {
        assert(cs@.take(n as int) =~= cs@);
    }
}

/// Collects the references of a body node, itself included.
pub fn ts_body_calls_into(body: &CstNode, out: &mut Vec<ExtractedRef>)
    ensures
        refs_view(final(out)@) == refs_view(old(out)@) + spec_ts_body_calls(*body),
{
    ts_push_own_refs(body, out);
    ts_collect_calls_in(&body.children, out);
}

fn ts_refs_of_body(node: &CstNode) -> (r: Vec<ExtractedRef>)
    ensures
        refs_view(r@) == (match spec_child_by_field(*node, "body"@) {
            Some(b) => spec_ts_body_calls(b),
            None => Seq::<SpecRef>::empty(),
        }),
{
    let mut out: Vec<ExtractedRef> = Vec::new();
    proof {
        assert(refs_view(out@) =~= Seq::<SpecRef>::empty());
    }
    match node.child_by_field("body") {
        Some(b) => ts_body_calls_into(b, &mut out),
        None => {},
    }
    out
}

// ── Nested callback references of a default export expression ──

/// A callback argument node.
pub open spec fn is_callback_kind(k: Seq<char>) -> bool {
    k == "arrow_function"@ || k == "function_expression"@ || k == "function"@
}

/// The body references of the callback arguments of one call's argument
/// list.
pub open spec fn ncr_args_upto(cs: Seq<CstNode>, i: int) -> Seq<SpecRef>
    decreases i,
{
    if i <= 0 || i > cs.len() {
        Seq::<SpecRef>::empty()
    } else {
        ncr_args_upto(cs, i - 1) + (if is_callback_kind(cs[i - 1].kind@) {
            match spec_child_by_field(cs[i - 1], "body"@) {
                Some(b) => spec_ts_body_calls(b),
                None => Seq::<SpecRef>::empty(),
            }
        } else {
            Seq::<SpecRef>::empty()
        })
    }
}

/// What one call expression contributes to nested-callback collection: the
/// body references of its callback arguments.
pub open spec fn ncr_own(n: CstNode) -> Seq<SpecRef> {
    if n.kind@ == "call_expression"@ {
        match spec_child_by_field(n, "arguments"@) {
            Some(a) => ncr_args_upto(a.children@, a.children@.len() as int),
            None => Seq::<SpecRef>::empty(),
        }
    } else {
        Seq::<SpecRef>::empty()
    }
}

/// The nested-callback references under a forest: each node's own callback
/// bodies, recursing only into nodes that are not themselves calls.
pub open spec fn spec_ncr_in(cs: Seq<CstNode>) -> Seq<SpecRef>
    decreases cs,
{
    if cs.len() == 0 {
        Seq::<SpecRef>::empty()
    } else {
        spec_ncr_in(cs.drop_last()) + (if cs.last().kind@ != "call_expression"@ {
            ncr_own(cs.last()) + spec_ncr_in(cs.last().children@)
        } else {
            Seq::<SpecRef>::empty()
        })
    }
}

/// The nested-callback references of an expression node.
pub open spec fn spec_ncr(n: CstNode) -> Seq<SpecRef> {
    ncr_own(n) + spec_ncr_in(n.children@)
}

fn ncr_push_own(n: &CstNode, out: &mut Vec<ExtractedRef>)
    ensures
        refs_view(final(out)@) == refs_view(old(out)@) + ncr_own(*n),
{
    let ghost r0 = refs_view(out@);
    if n.is_kind("call_expression") {
        match n.child_by_field("arguments") {
            Some(a) => {
                let m = a.children.len();
                let mut i: usize = 0;
                proof {
                    assert(refs_view(out@) =~= r0 + ncr_args_upto(a.children@, 0));
                }
                while i < m
                    invariant
                        m == a.children@.len(),
                        i <= m,
                        refs_view(out@) == r0 + ncr_args_upto(a.children@, i as int),
                    decreases m - i,
                {
                    let arg = &a.children[i];
                    if arg.is_kind("arrow_function") || arg.is_kind("function_expression")
                        || arg.is_kind("function") {
                        match arg.child_by_field("body") {
                            Some(b) => {
                                ts_body_calls_into(b, out);
                            },
                            None => {},
                        }
                    }
                    proof {
                        assert(refs_view(out@) =~= r0 + ncr_args_upto(a.children@, i + 1));
                    }
                    i = i + 1;
                }
            },
            None => {},
        }
    }
    proof {
        assert(refs_view(out@) =~= r0 + ncr_own(*n));
    }
}

fn ncr_collect_in(cs: &Vec<CstNode>, out: &mut Vec<ExtractedRef>)
    ensures
        refs_view(final(out)@) == refs_view(old(out)@) + spec_ncr_in(cs@),
    decreases cs@,
{
    let n = cs.len();
    let mut i: usize = 0;
    proof {
        assert(refs_view(out@) =~= refs_view(old(out)@) + spec_ncr_in(cs@.take(0)));
    }
    while i < n
        invariant
            n == cs@.len(),
            i <= n,
            refs_view(out@) == refs_view(old(out)@) + spec_ncr_in(cs@.take(i as int)),
        decreases n - i,
    {
        proof {
            assert(cs@.take(i + 1).drop_last() =~= cs@.take(i as int));
            assert(cs@.take(i + 1).last() == cs@[i as int]);
        }
        if !cs[i].is_kind("call_expression") {
            ncr_push_own(&cs[i], out);
            ncr_collect_in(&cs[i].children, out);
        }
        proof {
            assert(refs_view(out@) =~= refs_view(old(out)@) + spec_ncr_in(cs@.take(i + 1)));
        }
        i = i + 1;
    }
    proof {
        assert(cs@.take(n as int) =~= cs@);
    }
}

/// Collects the nested-callback references of an expression node.
pub fn ncr_collect(n: &CstNode, out: &mut Vec<ExtractedRef>)
    ensures
        refs_view(final(out)@) == refs_view(old(out)@) + spec_ncr(*n),
{
    ncr_push_own(n, out);
    ncr_collect_in(&n.children, out);
}

// ── Test and callback wrapper references ──

/// A well-known test or callback wrapper name at top level.
pub open spec fn spec_is_wrapper(s: Seq<char>) -> bool {
    ||| s == "describe"@
    ||| s == "test"@
    ||| s == "it"@
    ||| s == "fp"@
    ||| s == "beforeEach"@
    ||| s == "afterEach"@
    ||| s == "beforeAll"@
    ||| s == "afterAll"@
}

fn is_wrapper(s: &str) -> (r: bool)
    ensures
        r == spec_is_wrapper(s@),
{
    str_eq(s, "describe") || str_eq(s, "test") || str_eq(s, "it") || str_eq(s, "fp") || str_eq(
        s,
        "beforeEach",
    ) || str_eq(s, "afterEach") || str_eq(s, "beforeAll") || str_eq(s, "afterAll")
}

/// The wrapper name of a call, where its target is a bare identifier or a
/// member property; nothing for other callables.
pub open spec fn ccr_fname(n: CstNode) -> Option<Seq<char>> {
    match spec_child_by_field(n, "function"@) {
        None => None,
        Some(f) => if f.kind@ == "identifier"@ {
            Some(f.text@)
        } else if f.kind@ == "member_expression"@ {
            match spec_child_by_field(f, "property"@) {
                Some(p) => Some(p.text@),
                None => Some(Seq::<char>::empty()),
            }
        } else {
            None
        },
    }
}

/// The references collected from wrapper calls among a node list: the body
/// references of each callback argument, plus nested wrapper calls inside
/// those bodies.
pub open spec fn ccr_calls(cs: Seq<CstNode>) -> Seq<SpecRef>
    decreases cs,
    via ccr_calls_decreases
{
    if cs.len() == 0 {
        Seq::<SpecRef>::empty()
    } else {
        ccr_calls(cs.drop_last()) + (if cs.last().kind@ == "call_expression"@ && (match ccr_fname(
            cs.last(),
        ) {
            Some(nm) => spec_is_wrapper(nm),
            None => false,
        }) {
            match spec_child_by_field(cs.last(), "arguments"@) {
                Some(a) => ccr_args(a.children@),
                None => Seq::<SpecRef>::empty(),
            }
        } else {
            Seq::<SpecRef>::empty()
        })
    }
}

/// The references of each callback argument's body, with nested wrapper
/// calls walked in turn.
pub open spec fn ccr_args(cs: Seq<CstNode>) -> Seq<SpecRef>
    decreases cs,
    via ccr_args_decreases
{
    if cs.len() == 0 {
        Seq::<SpecRef>::empty()
    } else {
        ccr_args(cs.drop_last()) + (if is_callback_kind(cs.last().kind@) {
            match spec_child_by_field(cs.last(), "body"@) {
                Some(b) => spec_ts_body_calls(b) + ccr_stmts(b.children@),
                None => Seq::<SpecRef>::empty(),
            }
        } else {
            Seq::<SpecRef>::empty()
        })
    }
}

/// Nested wrapper calls inside a callback body's statements.
pub open spec fn ccr_stmts(cs: Seq<CstNode>) -> Seq<SpecRef>
    decreases cs,
    via ccr_stmts_decreases
{
    if cs.len() == 0 {
        Seq::<SpecRef>::empty()
    } else {
        ccr_stmts(cs.drop_last()) + (if cs.last().kind@ == "expression_statement"@ {
            ccr_calls(cs.last().children@)
        } else {
            Seq::<SpecRef>::empty()
        })
    }
}

#[via_fn]
proof fn ccr_calls_decreases(cs: Seq<CstNode>) {
    if cs.len() > 0 {
        let c = cs.last();
        assert(decreases_to!(cs => c));
        crate::cst::lemma_field_child_children_descend(c, "arguments"@);
    }
}

#[via_fn]
proof fn ccr_args_decreases(cs: Seq<CstNode>) {
    if cs.len() > 0 {
        let c = cs.last();
        assert(decreases_to!(cs => c));
        crate::cst::lemma_field_child_children_descend(c, "body"@);
    }
}

#[via_fn]
proof fn ccr_stmts_decreases(cs: Seq<CstNode>) {
    if cs.len() > 0 {
        crate::cst::lemma_seq_elem_children_descend(cs, cs.len() - 1);
    }
}

fn ccr_calls_exec(cs: &Vec<CstNode>, out: &mut Vec<ExtractedRef>)
    ensures
        refs_view(final(out)@) == refs_view(old(out)@) + ccr_calls(cs@),
    decreases cs@,
{
    let n = cs.len();
    let mut i: usize = 0;
    proof {
        assert(refs_view(out@) =~= refs_view(old(out)@) + ccr_calls(cs@.take(0)));
    }
    while i < n
        invariant
            n == cs@.len(),
            i <= n,
            refs_view(out@) == refs_view(old(out)@) + ccr_calls(cs@.take(i as int)),
        decreases n - i,
    {
        proof {
            assert(cs@.take(i + 1).drop_last() =~= cs@.take(i as int));
            assert(cs@.take(i + 1).last() == cs@[i as int]);
        }
        let c = &cs[i];
        if c.is_kind("call_expression") {
            let wrapper = match c.child_by_field("function") {
                None => false,
                Some(f) => {
                    if f.is_kind("identifier") {
                        is_wrapper(f.text.as_str())
                    } else if f.is_kind("member_expression") {
                        match f.field_text("property") {
                            Some(p) => is_wrapper(p.as_str()),
                            None => {
                                proof {
                                    reveal_strlit("");
                                    assert(""@ =~= Seq::<char>::empty());
                                }
                                is_wrapper("")
                            },
                        }
                    } else {
                        false
                    }
                },
            };
            proof {
                assert(wrapper == (match ccr_fname(cs@[i as int]) {
                    Some(nm) => spec_is_wrapper(nm),
                    None => false,
                }));
            }
            if wrapper {
                match c.child_by_field("arguments") {
                    Some(a) => {
                        proof {
                            assert(decreases_to!(cs@ => cs@[i as int]));
                            crate::cst::lemma_field_child_children_descend(
                                cs@[i as int],
                                "arguments"@,
                            );
                        }
                        ccr_args_exec(&a.children, out);
                    },
                    None => {},
                }
            }
        }
        proof {
            assert(refs_view(out@) =~= refs_view(old(out)@) + ccr_calls(cs@.take(i + 1)));
        }
        i = i + 1;
    }
    proof {
        assert(cs@.take(n as int) =~= cs@);
    }
}

fn ccr_args_exec(cs: &Vec<CstNode>, out: &mut Vec<ExtractedRef>)
    ensures
        refs_view(final(out)@) == refs_view(old(out)@) + ccr_args(cs@),
    decreases cs@,
{
    let n = cs.len();
    let mut i: usize = 0;
    proof {
        assert(refs_view(out@) =~= refs_view(old(out)@) + ccr_args(cs@.take(0)));
    }
    while i < n
        invariant
            n == cs@.len(),
            i <= n,
            refs_view(out@) == refs_view(old(out)@) + ccr_args(cs@.take(i as int)),
        decreases n - i,
    {
        proof {
            assert(cs@.take(i + 1).drop_last() =~= cs@.take(i as int));
            assert(cs@.take(i + 1).last() == cs@[i as int]);
        }
        let c = &cs[i];
        if c.is_kind("arrow_function") || c.is_kind("function_expression") || c.is_kind("function")
        {
            match c.child_by_field("body") {
                Some(b) => {
                    ts_body_calls_into(b, out);
                    proof {
                        assert(decreases_to!(cs@ => cs@[i as int]));
                        crate::cst::lemma_field_child_children_descend(cs@[i as int], "body"@);
                    }
                    ccr_stmts_exec(&b.children, out);
                },
                None => {},
            }
        }
        proof {
            assert(refs_view(out@) =~= refs_view(old(out)@) + ccr_args(cs@.take(i + 1)));
        }
        i = i + 1;
    }
    proof {
        assert(cs@.take(n as int) =~= cs@);
    }
}

fn ccr_stmts_exec(cs: &Vec<CstNode>, out: &mut Vec<ExtractedRef>)
    ensures
        refs_view(final(out)@) == refs_view(old(out)@) + ccr_stmts(cs@),
    decreases cs@,
{
    let n = cs.len();
    let mut i: usize = 0;
    proof {
        assert(refs_view(out@) =~= refs_view(old(out)@) + ccr_stmts(cs@.take(0)));
    }
    while i < n
        invariant
            n == cs@.len(),
            i <= n,
            refs_view(out@) == refs_view(old(out)@) + ccr_stmts(cs@.take(i as int)),
        decreases n - i,
    {
        proof {
            assert(cs@.take(i + 1).drop_last() =~= cs@.take(i as int));
            assert(cs@.take(i + 1).last() == cs@[i as int]);
        }
        let c = &cs[i];
        if c.is_kind("expression_statement") {
            proof {
                crate::cst::lemma_seq_elem_children_descend(cs@, i as int);
            }
            ccr_calls_exec(&c.children, out);
        }
        proof {
            assert(refs_view(out@) =~= refs_view(old(out)@) + ccr_stmts(cs@.take(i + 1)));
        }
        i = i + 1;
    }
    proof {
        assert(cs@.take(n as int) =~= cs@);
    }
}

/// Collects wrapper-call references from a top-level expression statement.
pub fn collect_callback_refs(stmt: &CstNode, out: &mut Vec<ExtractedRef>)
    ensures
        refs_view(final(out)@) == refs_view(old(out)@) + ccr_calls(stmt.children@),
{
    ccr_calls_exec(&stmt.children, out);
}

// ── Import references ──

/// The references of the specifiers of a `named_imports` node: each
/// specifier's `name` field, or its first named child.
pub open spec fn named_import_refs_upto(cs: Seq<CstNode>, i: int) -> Seq<SpecRef>
    decreases i,
{
    if i <= 0 || i > cs.len() {
        Seq::<SpecRef>::empty()
    } else {
        named_import_refs_upto(cs, i - 1) + (if cs[i - 1].kind@ == "import_specifier"@ {
            match spec_child_by_field(cs[i - 1], "name"@) {
                Some(nm) => seq![
                    SpecRef {
                        name: nm.text@,
                        kind: RefKind::Import,
                        line: cs[i - 1].spec_start_line(),
                    },
                ],
                None => match crate::cst::spec_find_named(cs[i - 1].children@, 0) {
                    Some(j) => seq![
                        SpecRef {
                            name: cs[i - 1].children@[j].text@,
                            kind: RefKind::Import,
                            line: cs[i - 1].spec_start_line(),
                        },
                    ],
                    None => Seq::<SpecRef>::empty(),
                },
            }
        } else {
            Seq::<SpecRef>::empty()
        })
    }
}

/// The references of one import clause: default imports, named imports and
/// namespace imports, aliases standing for their originals.
pub open spec fn clause_refs_upto(cs: Seq<CstNode>, i: int, line: int) -> Seq<SpecRef>
    decreases i,
{
    if i <= 0 || i > cs.len() {
        Seq::<SpecRef>::empty()
    } else {
        clause_refs_upto(cs, i - 1, line) + (if cs[i - 1].kind@ == "identifier"@ {
            seq![SpecRef { name: cs[i - 1].text@, kind: RefKind::Import, line }]
        } else if cs[i - 1].kind@ == "named_imports"@ {
            named_import_refs_upto(cs[i - 1].children@, cs[i - 1].children@.len() as int)
        } else if cs[i - 1].kind@ == "namespace_import"@ {
            match crate::cst::spec_find_named(cs[i - 1].children@, 0) {
                Some(j) => seq![
                    SpecRef { name: cs[i - 1].children@[j].text@, kind: RefKind::Import, line },
                ],
                None => Seq::<SpecRef>::empty(),
            }
        } else {
            Seq::<SpecRef>::empty()
        })
    }
}

/// The references of one import statement.
pub open spec fn import_refs_upto(cs: Seq<CstNode>, i: int, stmt_line: int) -> Seq<SpecRef>
    decreases i,
{
    if i <= 0 || i > cs.len() {
        Seq::<SpecRef>::empty()
    } else {
        import_refs_upto(cs, i - 1, stmt_line) + (if cs[i - 1].kind@ == "import_clause"@ {
            clause_refs_upto(cs[i - 1].children@, cs[i - 1].children@.len() as int, stmt_line)
        } else if cs[i - 1].kind@ == "identifier"@ {
            seq![
                SpecRef {
                    name: cs[i - 1].text@,
                    kind: RefKind::Import,
                    line: cs[i - 1].spec_start_line(),
                },
            ]
        } else {
            Seq::<SpecRef>::empty()
        })
    }
}

/// Every imported identifier of an import statement, tagged `import`.
pub open spec fn spec_import_refs(stmt: CstNode) -> Seq<SpecRef> {
    import_refs_upto(stmt.children@, stmt.children@.len() as int, stmt.spec_start_line())
}

fn named_import_refs(cs: &Vec<CstNode>, i: usize, out: &mut Vec<ExtractedRef>)
    requires
        i <= cs@.len(),
    ensures
        refs_view(final(out)@) == refs_view(old(out)@) + named_import_refs_upto(cs@, i as int),
    decreases i,
{
    if i == 0 {
        proof {
            assert(refs_view(out@) =~= refs_view(out@) + named_import_refs_upto(cs@, 0));
        }
        return;
    }
    named_import_refs(cs, i - 1, out);
    let c = &cs[i - 1];
    if c.is_kind("import_specifier") {
        let nm: Option<String> = match c.field_text("name") {
            Some(t) => Some(t),
            None => match c.first_named_child() {
                Some(ch) => Some(ch.text.clone()),
                None => None,
            },
        };
        match nm {
            Some(t) => {
                let ghost before = out@;
                out.push(ExtractedRef { name: t, kind: RefKind::Import, line: c.start_line() });
                proof {
                    assert(refs_view(out@) =~= refs_view(before).push(
                        crate::symbols::ref_view(out@.last()),
                    ));
                }
            },
            None => {},
        }
    }
    proof {
        assert(refs_view(out@) =~= refs_view(old(out)@) + named_import_refs_upto(cs@, i as int));
    }
}

fn clause_refs(cs: &Vec<CstNode>, i: usize, line: usize, out: &mut Vec<ExtractedRef>)
    requires
        i <= cs@.len(),
    ensures
        refs_view(final(out)@) == refs_view(old(out)@) + clause_refs_upto(
            cs@,
            i as int,
            line as int,
        ),
    decreases i,
{
    if i == 0 {
        proof {
            assert(refs_view(out@) =~= refs_view(out@) + clause_refs_upto(cs@, 0, line as int));
        }
        return;
    }
    clause_refs(cs, i - 1, line, out);
    let c = &cs[i - 1];
    if c.is_kind("identifier") {
        let ghost before = out@;
        out.push(ExtractedRef { name: c.text.clone(), kind: RefKind::Import, line });
        proof {
            assert(refs_view(out@) =~= refs_view(before).push(crate::symbols::ref_view(out@.last())));
        }
    } else if c.is_kind("named_imports") {
        let m = c.children.len();
        named_import_refs(&c.children, m, out);
    } else if c.is_kind("namespace_import") {
        match c.first_named_child() {
            Some(ch) => {
                let ghost before = out@;
                out.push(ExtractedRef { name: ch.text.clone(), kind: RefKind::Import, line });
                proof {
                    assert(refs_view(out@) =~= refs_view(before).push(
                        crate::symbols::ref_view(out@.last()),
                    ));
                }
            },
            None => {},
        }
    }
    proof {
        assert(refs_view(out@) =~= refs_view(old(out)@) + clause_refs_upto(
            cs@,
            i as int,
            line as int,
        ));
    }
}

/// Collects the import references of one import statement.
pub fn extract_import_refs(stmt: &CstNode, out: &mut Vec<ExtractedRef>)
    ensures
        refs_view(final(out)@) == refs_view(old(out)@) + spec_import_refs(*stmt),
{
    let line = stmt.start_line();
    let n = stmt.children.len();
    let mut i: usize = 0;
    proof {
        assert(refs_view(out@) =~= refs_view(old(out)@) + import_refs_upto(
            stmt.children@,
            0,
            line as int,
        ));
    }
    while i < n
        invariant
            n == stmt.children@.len(),
            i <= n,
            line as int == stmt.spec_start_line(),
            refs_view(out@) == refs_view(old(out)@) + import_refs_upto(
                stmt.children@,
                i as int,
                line as int,
            ),
        decreases n - i,
    {
        let c = &stmt.children[i];
        if c.is_kind("import_clause") {
            let m = c.children.len();
            clause_refs(&c.children, m, line, out);
        } else if c.is_kind("identifier") {
            let ghost before = out@;
            out.push(ExtractedRef { name: c.text.clone(), kind: RefKind::Import, line: c.start_line() });
            proof {
                assert(refs_view(out@) =~= refs_view(before).push(
                    crate::symbols::ref_view(out@.last()),
                ));
            }
        }
        proof {
            assert(refs_view(out@) =~= refs_view(old(out)@) + import_refs_upto(
                stmt.children@,
                i + 1,
                line as int,
            ));
        }
        i = i + 1;
    }
}

// ── Item builders ──

/// A function symbol (function or generator declaration).
pub open spec fn spec_ts_fn(node: CstNode, doc: Option<Seq<char>>) -> Seq<SpecSymbol> {
    match spec_child_by_field(node, "name"@) {
        None => Seq::<SpecSymbol>::empty(),
        Some(nm) => seq![
            SpecSymbol {
                name: nm.text@,
                kind: SymbolKind::Fn,
                signature: Some(spec_ts_signature(node)),
                doc_comment: doc,
                start_line: node.spec_start_line(),
                end_line: node.spec_end_line(),
                children: Seq::<SpecSymbol>::empty(),
                references: match spec_child_by_field(node, "body"@) {
                    Some(b) => spec_ts_body_calls(b),
                    None => Seq::<SpecRef>::empty(),
                },
            },
        ],
    }
}

fn build_ts_fn(node: &CstNode, doc: Option<String>) -> (r: Option<ExtractedSymbol>)
    ensures
        match r {
            Some(s) => seq![sym_view(s)] == spec_ts_fn(*node, crate::symbols::opt_view(doc)),
            None => spec_ts_fn(*node, crate::symbols::opt_view(doc)).len() == 0,
        },
{
    let name = match node.field_text("name") {
        Some(t) => t,
        None => {
            return None;
        },
    };
    let s = ExtractedSymbol {
        name,
        kind: SymbolKind::Fn,
        signature: Some(build_ts_signature(node)),
        doc_comment: doc,
        start_line: node.start_line(),
        end_line: node.end_line(),
        children: Vec::new(),
        references: ts_refs_of_body(node),
    };
    proof {
        assert(syms_view(s.children@) =~= Seq::<SpecSymbol>::empty());
        assert(seq![sym_view(s)] =~= spec_ts_fn(*node, crate::symbols::opt_view(s.doc_comment)));
    }
    Some(s)
}

/// A method symbol inside a class body, with its sibling JSDoc.
pub open spec fn spec_ts_method(cs: Seq<CstNode>, i: int) -> Seq<SpecSymbol> {
    let node = cs[i];
    match spec_child_by_field(node, "name"@) {
        None => Seq::<SpecSymbol>::empty(),
        Some(nm) => seq![
            SpecSymbol {
                name: nm.text@,
                kind: SymbolKind::Method,
                signature: Some(spec_ts_signature(node)),
                doc_comment: spec_ts_doc(cs, i),
                start_line: node.spec_start_line(),
                end_line: node.spec_end_line(),
                children: Seq::<SpecSymbol>::empty(),
                references: match spec_child_by_field(node, "body"@) {
                    Some(b) => spec_ts_body_calls(b),
                    None => Seq::<SpecRef>::empty(),
                },
            },
        ],
    }
}

fn build_ts_method(cs: &Vec<CstNode>, i: usize) -> (r: Option<ExtractedSymbol>)
    requires
        i < cs@.len(),
    ensures
        match r {
            Some(s) => seq![sym_view(s)] == spec_ts_method(cs@, i as int),
            None => spec_ts_method(cs@, i as int).len() == 0,
        },
{
    let node = &cs[i];
    let name = match node.field_text("name") {
        Some(t) => t,
        None => {
            return None;
        },
    };
    let s = ExtractedSymbol {
        name,
        kind: SymbolKind::Method,
        signature: Some(build_ts_signature(node)),
        doc_comment: ts_doc(cs, i),
        start_line: node.start_line(),
        end_line: node.end_line(),
        children: Vec::new(),
        references: ts_refs_of_body(node),
    };
    proof {
        assert(syms_view(s.children@) =~= Seq::<SpecSymbol>::empty());
        assert(seq![sym_view(s)] =~= spec_ts_method(cs@, i as int));
    }
    Some(s)
}

/// A class field symbol.
pub open spec fn spec_ts_field(node: CstNode) -> Seq<SpecSymbol> {
    match spec_child_by_field(node, "name"@) {
        None => Seq::<SpecSymbol>::empty(),
        Some(nm) => seq![
            SpecSymbol {
                name: nm.text@,
                kind: SymbolKind::Var,
                signature: opt_field_text(node, "type"@),
                doc_comment: None,
                start_line: node.spec_start_line(),
                end_line: node.spec_end_line(),
                children: Seq::<SpecSymbol>::empty(),
                references: Seq::<SpecRef>::empty(),
            },
        ],
    }
}

fn build_ts_field(node: &CstNode) -> (r: Option<ExtractedSymbol>)
    ensures
        match r {
            Some(s) => seq![sym_view(s)] == spec_ts_field(*node),
            None => spec_ts_field(*node).len() == 0,
        },
{
    let name = match node.field_text("name") {
        Some(t) => t,
        None => {
            return None;
        },
    };
    let s = ExtractedSymbol {
        name,
        kind: SymbolKind::Var,
        signature: node.field_text("type"),
        doc_comment: None,
        start_line: node.start_line(),
        end_line: node.end_line(),
        children: Vec::new(),
        references: Vec::new(),
    };
    proof {
        assert(syms_view(s.children@) =~= Seq::<SpecSymbol>::empty());
        assert(refs_view(s.references@) =~= Seq::<SpecRef>::empty());
        assert(seq![sym_view(s)] =~= spec_ts_field(*node));
    }
    Some(s)
}

/// The `extends` references of the identifiers under one heritage clause.
pub open spec fn heritage_ids_upto(cs: Seq<CstNode>, i: int) -> Seq<SpecRef>
    decreases i,
{
    if i <= 0 || i > cs.len() {
        Seq::<SpecRef>::empty()
    } else {
        heritage_ids_upto(cs, i - 1) + (if cs[i - 1].kind@ == "identifier"@ || cs[i - 1].kind@
            == "type_identifier"@ {
            seq![
                SpecRef {
                    name: cs[i - 1].text@,
                    kind: RefKind::Extends,
                    line: cs[i - 1].spec_start_line(),
                },
            ]
        } else {
            Seq::<SpecRef>::empty()
        })
    }
}

/// The `extends` references of a class node's heritage clauses.
pub open spec fn class_refs_upto(cs: Seq<CstNode>, i: int) -> Seq<SpecRef>
    decreases i,
{
    if i <= 0 || i > cs.len() {
        Seq::<SpecRef>::empty()
    } else {
        class_refs_upto(cs, i - 1) + (if cs[i - 1].kind@ == "class_heritage"@ && (spec_contains_sub(
            cs[i - 1].text@,
            "extends"@,
        ) || spec_contains_sub(cs[i - 1].text@, "implements"@)) {
            heritage_ids_upto(cs[i - 1].children@, cs[i - 1].children@.len() as int)
        } else {
            Seq::<SpecRef>::empty()
        })
    }
}

/// The member symbols of a class body: methods and public fields.
pub open spec fn class_members_upto(cs: Seq<CstNode>, i: int) -> Seq<SpecSymbol>
    decreases i,
{
    if i <= 0 || i > cs.len() {
        Seq::<SpecSymbol>::empty()
    } else {
        class_members_upto(cs, i - 1) + (if cs[i - 1].kind@ == "method_definition"@ {
            spec_ts_method(cs, i - 1)
        } else if cs[i - 1].kind@ == "public_field_definition"@ || cs[i - 1].kind@
            == "property_definition"@ {
            spec_ts_field(cs[i - 1])
        } else {
            Seq::<SpecSymbol>::empty()
        })
    }
}

/// A class symbol: heritage references and member children.
pub open spec fn spec_ts_class(node: CstNode, doc: Option<Seq<char>>) -> Seq<SpecSymbol> {
    match spec_child_by_field(node, "name"@) {
        None => Seq::<SpecSymbol>::empty(),
        Some(nm) => seq![
            SpecSymbol {
                name: nm.text@,
                kind: SymbolKind::Class,
                signature: None,
                doc_comment: doc,
                start_line: node.spec_start_line(),
                end_line: node.spec_end_line(),
                children: match spec_child_by_field(node, "body"@) {
                    Some(b) => class_members_upto(b.children@, b.children@.len() as int),
                    None => Seq::<SpecSymbol>::empty(),
                },
                references: class_refs_upto(node.children@, node.children@.len() as int),
            },
        ],
    }
}

fn build_heritage_refs(cs: &Vec<CstNode>, i: usize, out: &mut Vec<ExtractedRef>)
    requires
        i <= cs@.len(),
    ensures
        refs_view(final(out)@) == refs_view(old(out)@) + class_refs_upto(cs@, i as int),
    decreases i,
{
    if i == 0 {
        proof {
            assert(refs_view(out@) =~= refs_view(out@) + class_refs_upto(cs@, 0));
        }
        return;
    }
    build_heritage_refs(cs, i - 1, out);
    let c = &cs[i - 1];
    if c.is_kind("class_heritage") && (str_contains(c.text.as_str(), "extends") || str_contains(
        c.text.as_str(),
        "implements",
    )) {
        let m = c.children.len();
        let mut j: usize = 0;
        let ghost mid = refs_view(out@);
        proof {
            assert(refs_view(out@) =~= mid + heritage_ids_upto(c.children@, 0));
        }
        while j < m
            invariant
                m == c.children@.len(),
                j <= m,
                refs_view(out@) == mid + heritage_ids_upto(c.children@, j as int),
            decreases m - j,
        {
            let h = &c.children[j];
            if h.is_kind("identifier") || h.is_kind("type_identifier") {
                let ghost before = out@;
                out.push(
                    ExtractedRef { name: h.text.clone(), kind: RefKind::Extends, line: h.start_line() },
                );
                proof {
                    assert(refs_view(out@) =~= refs_view(before).push(
                        crate::symbols::ref_view(out@.last()),
                    ));
                }
            }
            proof {
                assert(refs_view(out@) =~= mid + heritage_ids_upto(c.children@, j + 1));
            }
            j = j + 1;
        }
    }
    proof {
        assert(refs_view(out@) =~= refs_view(old(out)@) + class_refs_upto(cs@, i as int));
    }
}

fn build_class_members(cs: &Vec<CstNode>, i: usize) -> (r: Vec<ExtractedSymbol>)
    requires
        i <= cs@.len(),
    ensures
        syms_view(r@) == class_members_upto(cs@, i as int),
    decreases i,
{
    if i == 0 {
        let r: Vec<ExtractedSymbol> = Vec::new();
        proof {
            assert(syms_view(r@) =~= class_members_upto(cs@, 0));
        }
        r
    } else {
        let mut v = build_class_members(cs, i - 1);
        let c = &cs[i - 1];
        if c.is_kind("method_definition") {
            let part = build_ts_method(cs, i - 1);
            push_part(&mut v, part, Ghost(spec_ts_method(cs@, i as int - 1)));
        } else if c.is_kind("public_field_definition") || c.is_kind("property_definition") {
            let part = build_ts_field(c);
            push_part(&mut v, part, Ghost(spec_ts_field(cs@[i as int - 1])));
        }
        proof {
            assert(syms_view(v@) =~= class_members_upto(cs@, i as int));
        }
        v
    }
}

fn build_ts_class(node: &CstNode, doc: Option<String>) -> (r: Option<ExtractedSymbol>)
    ensures
        match r {
            Some(s) => seq![sym_view(s)] == spec_ts_class(*node, crate::symbols::opt_view(doc)),
            None => spec_ts_class(*node, crate::symbols::opt_view(doc)).len() == 0,
        },
{
    let name = match node.field_text("name") {
        Some(t) => t,
        None => {
            return None;
        },
    };
    let mut refs: Vec<ExtractedRef> = Vec::new();
    proof {
        assert(refs_view(refs@) =~= Seq::<SpecRef>::empty());
    }
    let n = node.children.len();
    build_heritage_refs(&node.children, n, &mut refs);
    let children = match node.child_by_field("body") {
        Some(b) => {
            let m = b.children.len();
            build_class_members(&b.children, m)
        },
        None => {
            let e: Vec<ExtractedSymbol> = Vec::new();
            proof {
                assert(syms_view(e@) =~= Seq::<SpecSymbol>::empty());
            }
            e
        },
    };
    let s = ExtractedSymbol {
        name,
        kind: SymbolKind::Class,
        signature: None,
        doc_comment: doc,
        start_line: node.start_line(),
        end_line: node.end_line(),
        children,
        references: refs,
    };
    proof {
        assert(seq![sym_view(s)] =~= spec_ts_class(*node, crate::symbols::opt_view(s.doc_comment)));
    }
    Some(s)
}

/// The member symbols of an interface body: property and method signatures.
pub open spec fn interface_members_upto(cs: Seq<CstNode>, i: int) -> Seq<SpecSymbol>
    decreases i,
{
    if i <= 0 || i > cs.len() {
        Seq::<SpecSymbol>::empty()
    } else {
        let c = cs[i - 1];
        interface_members_upto(cs, i - 1) + (if c.kind@ == "property_signature"@ {
            match spec_child_by_field(c, "name"@) {
                Some(nm) => seq![
                    SpecSymbol {
                        name: nm.text@,
                        kind: SymbolKind::Var,
                        signature: opt_field_text(c, "type"@),
                        doc_comment: None,
                        start_line: c.spec_start_line(),
                        end_line: c.spec_end_line(),
                        children: Seq::<SpecSymbol>::empty(),
                        references: Seq::<SpecRef>::empty(),
                    },
                ],
                None => Seq::<SpecSymbol>::empty(),
            }
        } else if c.kind@ == "method_signature"@ {
            match spec_child_by_field(c, "name"@) {
                Some(nm) => seq![
                    SpecSymbol {
                        name: nm.text@,
                        kind: SymbolKind::Method,
                        signature: Some(spec_ts_signature(c)),
                        doc_comment: None,
                        start_line: c.spec_start_line(),
                        end_line: c.spec_end_line(),
                        children: Seq::<SpecSymbol>::empty(),
                        references: Seq::<SpecRef>::empty(),
                    },
                ],
                None => Seq::<SpecSymbol>::empty(),
            }
        } else {
            Seq::<SpecSymbol>::empty()
        })
    }
}

/// An interface symbol over its member signatures.
pub open spec fn spec_ts_interface(node: CstNode, doc: Option<Seq<char>>) -> Seq<SpecSymbol> {
    match spec_child_by_field(node, "name"@) {
        None => Seq::<SpecSymbol>::empty(),
        Some(nm) => seq![
            SpecSymbol {
                name: nm.text@,
                kind: SymbolKind::Interface,
                signature: None,
                doc_comment: doc,
                start_line: node.spec_start_line(),
                end_line: node.spec_end_line(),
                children: match spec_child_by_field(node, "body"@) {
                    Some(b) => interface_members_upto(b.children@, b.children@.len() as int),
                    None => Seq::<SpecSymbol>::empty(),
                },
                references: Seq::<SpecRef>::empty(),
            },
        ],
    }
}

fn build_interface_members(cs: &Vec<CstNode>, i: usize) -> (r: Vec<ExtractedSymbol>)
    requires
        i <= cs@.len(),
    ensures
        syms_view(r@) == interface_members_upto(cs@, i as int),
    decreases i,
{
    if i == 0 {
        let r: Vec<ExtractedSymbol> = Vec::new();
        proof {
            assert(syms_view(r@) =~= interface_members_upto(cs@, 0));
        }
        r
    } else {
        let mut v = build_interface_members(cs, i - 1);
        let c = &cs[i - 1];
        if c.is_kind("property_signature") {
            match c.field_text("name") {
                Some(nm) => {
                    let s = ExtractedSymbol {
                        name: nm,
                        kind: SymbolKind::Var,
                        signature: c.field_text("type"),
                        doc_comment: None,
                        start_line: c.start_line(),
                        end_line: c.end_line(),
                        children: Vec::new(),
                        references: Vec::new(),
                    };
                    proof {
                        assert(syms_view(s.children@) =~= Seq::<SpecSymbol>::empty());
                        assert(refs_view(s.references@) =~= Seq::<SpecRef>::empty());
                    }
                    let ghost sv = seq![sym_view(s)];
                    push_part(&mut v, Some(s), Ghost(sv));
                },
                None => {},
            }
        } else if c.is_kind("method_signature") {
            match c.field_text("name") {
                Some(nm) => {
                    let s = ExtractedSymbol {
                        name: nm,
                        kind: SymbolKind::Method,
                        signature: Some(build_ts_signature(c)),
                        doc_comment: None,
                        start_line: c.start_line(),
                        end_line: c.end_line(),
                        children: Vec::new(),
                        references: Vec::new(),
                    };
                    proof {
                        assert(syms_view(s.children@) =~= Seq::<SpecSymbol>::empty());
                        assert(refs_view(s.references@) =~= Seq::<SpecRef>::empty());
                    }
                    let ghost sv = seq![sym_view(s)];
                    push_part(&mut v, Some(s), Ghost(sv));
                },
                None => {},
            }
        }
        proof {
            assert(syms_view(v@) =~= interface_members_upto(cs@, i as int));
        }
        v
    }
}

fn build_ts_interface(node: &CstNode, doc: Option<String>) -> (r: Option<ExtractedSymbol>)
    ensures
        match r {
            Some(s) => seq![sym_view(s)] == spec_ts_interface(*node, crate::symbols::opt_view(doc)),
            None => spec_ts_interface(*node, crate::symbols::opt_view(doc)).len() == 0,
        },
{
    let name = match node.field_text("name") {
        Some(t) => t,
        None => {
            return None;
        },
    };
    let children = match node.child_by_field("body") {
        Some(b) => {
            let m = b.children.len();
            build_interface_members(&b.children, m)
        },
        None => {
            let e: Vec<ExtractedSymbol> = Vec::new();
            proof {
                assert(syms_view(e@) =~= Seq::<SpecSymbol>::empty());
            }
            e
        },
    };
    let s = ExtractedSymbol {
        name,
        kind: SymbolKind::Interface,
        signature: None,
        doc_comment: doc,
        start_line: node.start_line(),
        end_line: node.end_line(),
        children,
        references: Vec::new(),
    };
    proof {
        assert(refs_view(s.references@) =~= Seq::<SpecRef>::empty());
        assert(seq![sym_view(s)] =~= spec_ts_interface(
            *node,
            crate::symbols::opt_view(s.doc_comment),
        ));
    }
    Some(s)
}

/// A type alias symbol; its aliased type text is the signature.
pub open spec fn spec_ts_alias(node: CstNode, doc: Option<Seq<char>>) -> Seq<SpecSymbol> {
    match spec_child_by_field(node, "name"@) {
        None => Seq::<SpecSymbol>::empty(),
        Some(nm) => seq![
            SpecSymbol {
                name: nm.text@,
                kind: SymbolKind::Type,
                signature: opt_field_text(node, "value"@),
                doc_comment: doc,
                start_line: node.spec_start_line(),
                end_line: node.spec_end_line(),
                children: Seq::<SpecSymbol>::empty(),
                references: Seq::<SpecRef>::empty(),
            },
        ],
    }
}

fn build_ts_alias(node: &CstNode, doc: Option<String>) -> (r: Option<ExtractedSymbol>)
    ensures
        match r {
            Some(s) => seq![sym_view(s)] == spec_ts_alias(*node, crate::symbols::opt_view(doc)),
            None => spec_ts_alias(*node, crate::symbols::opt_view(doc)).len() == 0,
        },
{
    let name = match node.field_text("name") {
        Some(t) => t,
        None => {
            return None;
        },
    };
    let s = ExtractedSymbol {
        name,
        kind: SymbolKind::Type,
        signature: node.field_text("value"),
        doc_comment: doc,
        start_line: node.start_line(),
        end_line: node.end_line(),
        children: Vec::new(),
        references: Vec::new(),
    };
    proof {
        assert(syms_view(s.children@) =~= Seq::<SpecSymbol>::empty());
        assert(refs_view(s.references@) =~= Seq::<SpecRef>::empty());
        assert(seq![sym_view(s)] =~= spec_ts_alias(*node, crate::symbols::opt_view(s.doc_comment)));
    }
    Some(s)
}

/// The member constants of an enum body.
pub open spec fn enum_members_upto(cs: Seq<CstNode>, i: int) -> Seq<SpecSymbol>
    decreases i,
{
    if i <= 0 || i > cs.len() {
        Seq::<SpecSymbol>::empty()
    } else {
        let c = cs[i - 1];
        enum_members_upto(cs, i - 1) + (if c.kind@ == "property_identifier"@ && c.text@.len() > 0 {
            seq![
                SpecSymbol {
                    name: c.text@,
                    kind: SymbolKind::Const,
                    signature: None,
                    doc_comment: None,
                    start_line: c.spec_start_line(),
                    end_line: c.spec_end_line(),
                    children: Seq::<SpecSymbol>::empty(),
                    references: Seq::<SpecRef>::empty(),
                },
            ]
        } else if c.kind@ == "enum_assignment"@ {
            match spec_child_by_field(c, "name"@) {
                Some(nm) => if nm.text@.len() > 0 {
                    seq![
                        SpecSymbol {
                            name: nm.text@,
                            kind: SymbolKind::Const,
                            signature: None,
                            doc_comment: None,
                            start_line: c.spec_start_line(),
                            end_line: c.spec_end_line(),
                            children: Seq::<SpecSymbol>::empty(),
                            references: Seq::<SpecRef>::empty(),
                        },
                    ]
                } else {
                    Seq::<SpecSymbol>::empty()
                },
                None => Seq::<SpecSymbol>::empty(),
            }
        } else {
            Seq::<SpecSymbol>::empty()
        })
    }
}

/// An enum symbol over its member constants.
pub open spec fn spec_ts_enum(node: CstNode, doc: Option<Seq<char>>) -> Seq<SpecSymbol> {
    match spec_child_by_field(node, "name"@) {
        None => Seq::<SpecSymbol>::empty(),
        Some(nm) => seq![
            SpecSymbol {
                name: nm.text@,
                kind: SymbolKind::Enum,
                signature: None,
                doc_comment: doc,
                start_line: node.spec_start_line(),
                end_line: node.spec_end_line(),
                children: match spec_child_by_field(node, "body"@) {
                    Some(b) => enum_members_upto(b.children@, b.children@.len() as int),
                    None => Seq::<SpecSymbol>::empty(),
                },
                references: Seq::<SpecRef>::empty(),
            },
        ],
    }
}

fn build_enum_members(cs: &Vec<CstNode>, i: usize) -> (r: Vec<ExtractedSymbol>)
    requires
        i <= cs@.len(),
    ensures
        syms_view(r@) == enum_members_upto(cs@, i as int),
    decreases i,
{
    if i == 0 {
        let r: Vec<ExtractedSymbol> = Vec::new();
        proof {
            assert(syms_view(r@) =~= enum_members_upto(cs@, 0));
        }
        r
    } else {
        let mut v = build_enum_members(cs, i - 1);
        let c = &cs[i - 1];
        let nm: Option<String> = if c.is_kind("property_identifier") {
            if c.text.as_str().unicode_len() > 0 {
                Some(c.text.clone())
            } else {
                None
            }
        } else if c.is_kind("enum_assignment") {
            match c.field_text("name") {
                Some(t) => {
                    if t.as_str().unicode_len() > 0 {
                        Some(t)
                    } else {
                        None
                    }
                },
                None => None,
            }
        } else {
            None
        };
        match nm {
            Some(t) => {
                let s = ExtractedSymbol {
                    name: t,
                    kind: SymbolKind::Const,
                    signature: None,
                    doc_comment: None,
                    start_line: c.start_line(),
                    end_line: c.end_line(),
                    children: Vec::new(),
                    references: Vec::new(),
                };
                proof {
                    assert(syms_view(s.children@) =~= Seq::<SpecSymbol>::empty());
                    assert(refs_view(s.references@) =~= Seq::<SpecRef>::empty());
                }
                let ghost sv = seq![sym_view(s)];
                push_part(&mut v, Some(s), Ghost(sv));
                proof {
                    assert(enum_members_upto(cs@, i as int) =~= enum_members_upto(
                        cs@,
                        i as int - 1,
                    ) + sv);
                }
            },
            None => {
                proof {
                    reveal_strlit("property_identifier");
                    reveal_strlit("enum_assignment");
                    assert("property_identifier"@.len() == 19);
                    assert("enum_assignment"@.len() == 15);
                    assert("property_identifier"@ != "enum_assignment"@);
                    assert(enum_members_upto(cs@, i as int) == enum_members_upto(
                        cs@,
                        i as int - 1,
                    ) + Seq::<SpecSymbol>::empty());
                    assert(enum_members_upto(cs@, i as int) =~= enum_members_upto(
                        cs@,
                        i as int - 1,
                    ));
                }
            },
        }
        proof {
            assert(syms_view(v@) =~= enum_members_upto(cs@, i as int));
        }
        v
    }
}

fn build_ts_enum(node: &CstNode, doc: Option<String>) -> (r: Option<ExtractedSymbol>)
    ensures
        match r {
            Some(s) => seq![sym_view(s)] == spec_ts_enum(*node, crate::symbols::opt_view(doc)),
            None => spec_ts_enum(*node, crate::symbols::opt_view(doc)).len() == 0,
        },
{
    let name = match node.field_text("name") {
        Some(t) => t,
        None => {
            return None;
        },
    };
    let children = match node.child_by_field("body") {
        Some(b) => {
            let m = b.children.len();
            build_enum_members(&b.children, m)
        },
        None => {
            let e: Vec<ExtractedSymbol> = Vec::new();
            proof {
                assert(syms_view(e@) =~= Seq::<SpecSymbol>::empty());
            }
            e
        },
    };
    let s = ExtractedSymbol {
        name,
        kind: SymbolKind::Enum,
        signature: None,
        doc_comment: doc,
        start_line: node.start_line(),
        end_line: node.end_line(),
        children,
        references: Vec::new(),
    };
    proof {
        assert(refs_view(s.references@) =~= Seq::<SpecRef>::empty());
        assert(seq![sym_view(s)] =~= spec_ts_enum(*node, crate::symbols::opt_view(s.doc_comment)));
    }
    Some(s)
}

/// The symbols of the declarators of a `const`/`let`/`var` statement:
/// function-valued bindings become functions with the callback's signature
/// and body references; others become constants.
pub open spec fn var_decls_upto(node: CstNode, i: int, doc: Option<Seq<char>>) -> Seq<SpecSymbol>
    decreases i,
{
    let cs = node.children@;
    if i <= 0 || i > cs.len() {
        Seq::<SpecSymbol>::empty()
    } else {
        let c = cs[i - 1];
        var_decls_upto(node, i - 1, doc) + (if c.kind@ == "variable_declarator"@ {
            match (spec_child_by_field(c, "name"@), spec_child_by_field(c, "value"@)) {
                (Some(nm), Some(value)) => if is_callback_kind(value.kind@) {
                    seq![
                        SpecSymbol {
                            name: nm.text@,
                            kind: SymbolKind::Fn,
                            signature: Some(spec_ts_signature(value)),
                            doc_comment: doc,
                            start_line: node.spec_start_line(),
                            end_line: node.spec_end_line(),
                            children: Seq::<SpecSymbol>::empty(),
                            references: match spec_child_by_field(value, "body"@) {
                                Some(b) => spec_ts_body_calls(b),
                                None => Seq::<SpecRef>::empty(),
                            },
                        },
                    ]
                } else {
                    seq![
                        SpecSymbol {
                            name: nm.text@,
                            kind: SymbolKind::Const,
                            signature: opt_field_text(c, "type"@),
                            doc_comment: doc,
                            start_line: node.spec_start_line(),
                            end_line: node.spec_end_line(),
                            children: Seq::<SpecSymbol>::empty(),
                            references: Seq::<SpecRef>::empty(),
                        },
                    ]
                },
                _ => Seq::<SpecSymbol>::empty(),
            }
        } else {
            Seq::<SpecSymbol>::empty()
        })
    }
}

fn build_var_decls(node: &CstNode, i: usize, doc: &Option<String>, out: &mut Vec<ExtractedSymbol>)
    requires
        i <= node.children@.len(),
    ensures
        syms_view(final(out)@) == syms_view(old(out)@) + var_decls_upto(
            *node,
            i as int,
            crate::symbols::opt_view(*doc),
        ),
    decreases i,
{
    if i == 0 {
        proof {
            assert(syms_view(out@) =~= syms_view(out@) + var_decls_upto(
                *node,
                0,
                crate::symbols::opt_view(*doc),
            ));
        }
        return;
    }
    build_var_decls(node, i - 1, doc, out);
    let c = &node.children[i - 1];
    if c.is_kind("variable_declarator") {
        let nm = c.field_text("name");
        match (nm, c.child_by_field("value")) {
            (Some(name), Some(value)) => {
                let dc = match doc {
                    Some(d) => Some(d.clone()),
                    None => None,
                };
                proof {
                    assert(crate::symbols::opt_view(dc) == crate::symbols::opt_view(*doc));
                }
                if value.is_kind("arrow_function") || value.is_kind("function_expression")
                    || value.is_kind("function") {
                    let refs = ts_refs_of_body(value);
                    let s = ExtractedSymbol {
                        name,
                        kind: SymbolKind::Fn,
                        signature: Some(build_ts_signature(value)),
                        doc_comment: dc,
                        start_line: node.start_line(),
                        end_line: node.end_line(),
                        children: Vec::new(),
                        references: refs,
                    };
                    proof {
                        assert(syms_view(s.children@) =~= Seq::<SpecSymbol>::empty());
                    }
                    let ghost sv = seq![sym_view(s)];
                    push_part(out, Some(s), Ghost(sv));
                } else {
                    let s = ExtractedSymbol {
                        name,
                        kind: SymbolKind::Const,
                        signature: c.field_text("type"),
                        doc_comment: dc,
                        start_line: node.start_line(),
                        end_line: node.end_line(),
                        children: Vec::new(),
                        references: Vec::new(),
                    };
                    proof {
                        assert(syms_view(s.children@) =~= Seq::<SpecSymbol>::empty());
                        assert(refs_view(s.references@) =~= Seq::<SpecRef>::empty());
                    }
                    let ghost sv = seq![sym_view(s)];
                    push_part(out, Some(s), Ghost(sv));
                }
            },
            _ => {},
        }
    }
    proof {
        assert(syms_view(out@) =~= syms_view(old(out)@) + var_decls_upto(
            *node,
            i as int,
            crate::symbols::opt_view(*doc),
        ));
    }
}

// ── Export statements ──

/// A declaration kind that an export statement wraps.
pub open spec fn is_decl_kind(k: Seq<char>) -> bool {
    ||| k == "function_declaration"@
    ||| k == "generator_function_declaration"@
    ||| k == "class_declaration"@
    ||| k == "interface_declaration"@
    ||| k == "type_alias_declaration"@
    ||| k == "enum_declaration"@
    ||| k == "lexical_declaration"@
    ||| k == "variable_declaration"@
}

fn is_decl_node(c: &CstNode) -> (r: bool)
    ensures
        r == is_decl_kind(c.kind@),
{
    c.is_kind("function_declaration") || c.is_kind("generator_function_declaration") || c.is_kind(
        "class_declaration",
    ) || c.is_kind("interface_declaration") || c.is_kind("type_alias_declaration") || c.is_kind(
        "enum_declaration",
    ) || c.is_kind("lexical_declaration") || c.is_kind("variable_declaration")
}

/// Some child among the first `i` is a wrapped declaration.
pub open spec fn has_decl_child(cs: Seq<CstNode>, i: int) -> bool
    decreases i,
{
    if i <= 0 || i > cs.len() {
        false
    } else {
        has_decl_child(cs, i - 1) || is_decl_kind(cs[i - 1].kind@)
    }
}

/// Some child among the first `i` is an export clause or a `*`.
pub open spec fn has_clause_or_star(cs: Seq<CstNode>, i: int) -> bool
    decreases i,
{
    if i <= 0 || i > cs.len() {
        false
    } else {
        has_clause_or_star(cs, i - 1) || cs[i - 1].kind@ == "export_clause"@ || cs[i - 1].kind@
            == "*"@
    }
}

/// The items the declarations among a node's children yield, every one
/// carrying the given doc comment.
pub open spec fn ts_decls_upto(node: CstNode, i: int, doc: Option<Seq<char>>) -> Seq<SpecSymbol>
    decreases i,
{
    let cs = node.children@;
    if i <= 0 || i > cs.len() {
        Seq::<SpecSymbol>::empty()
    } else {
        let c = cs[i - 1];
        ts_decls_upto(node, i - 1, doc) + (if c.kind@ == "function_declaration"@ || c.kind@
            == "generator_function_declaration"@ {
            spec_ts_fn(c, doc)
        } else if c.kind@ == "class_declaration"@ {
            spec_ts_class(c, doc)
        } else if c.kind@ == "interface_declaration"@ {
            spec_ts_interface(c, doc)
        } else if c.kind@ == "type_alias_declaration"@ {
            spec_ts_alias(c, doc)
        } else if c.kind@ == "enum_declaration"@ {
            spec_ts_enum(c, doc)
        } else if c.kind@ == "lexical_declaration"@ || c.kind@ == "variable_declaration"@ {
            var_decls_upto(c, c.children@.len() as int, doc)
        } else {
            Seq::<SpecSymbol>::empty()
        })
    }
}

/// A module name with its quotes stripped.
pub open spec fn spec_strip_quotes(t: Seq<char>) -> Seq<char> {
    crate::strutil::spec_strip_matches(crate::strutil::spec_strip_matches(t, '"'), '\'')
}

fn strip_quotes(t: &str) -> (r: String)
    ensures
        r@ == spec_strip_quotes(t@),
{
    let a = strip_matches(t, '"');
    strip_matches(a.as_str(), '\'')
}

/// The index of the first child of the given kind, at or after `j`.
pub open spec fn first_kind_from(cs: Seq<CstNode>, kind: Seq<char>, j: int) -> Option<int>
    decreases cs.len() - j,
{
    if !(0 <= j < cs.len()) {
        None
    } else if cs[j].kind@ == kind {
        Some(j)
    } else {
        first_kind_from(cs, kind, j + 1)
    }
}

/// The star re-export symbol of an export statement: `* from <module>`,
/// named after its first string-ish child.
pub open spec fn star_sym(e: CstNode) -> Seq<SpecSymbol> {
    let j = match first_kind_from(e.children@, "string"@, 0) {
        Some(j) => Some(j),
        None => first_kind_from(e.children@, "string_fragment"@, 0),
    };
    match j {
        Some(j) => seq![
            SpecSymbol {
                name: "* from "@ + spec_strip_quotes(e.children@[j].text@),
                kind: SymbolKind::Mod,
                signature: None,
                doc_comment: None,
                start_line: e.spec_start_line(),
                end_line: e.spec_end_line(),
                children: Seq::<SpecSymbol>::empty(),
                references: Seq::<SpecRef>::empty(),
            },
        ],
        None => Seq::<SpecSymbol>::empty(),
    }
}

/// The re-export symbols of one export clause: one per specifier, named by
/// the alias when present; with a source module, each also imports its
/// original name.
pub open spec fn export_specs_upto(cs: Seq<CstNode>, i: int, has_module: bool) -> Seq<SpecSymbol>
    decreases i,
{
    if i <= 0 || i > cs.len() {
        Seq::<SpecSymbol>::empty()
    } else {
        let c = cs[i - 1];
        export_specs_upto(cs, i - 1, has_module) + (if c.kind@ == "export_specifier"@ {
            let nm = match spec_child_by_field(c, "name"@) {
                Some(n) => Some(n),
                None => match crate::cst::spec_find_named(c.children@, 0) {
                    Some(j) => Some(c.children@[j]),
                    None => None,
                },
            };
            match nm {
                Some(n) => seq![
                    SpecSymbol {
                        name: match spec_child_by_field(c, "alias"@) {
                            Some(a) => a.text@,
                            None => n.text@,
                        },
                        kind: SymbolKind::Var,
                        signature: None,
                        doc_comment: None,
                        start_line: c.spec_start_line(),
                        end_line: c.spec_end_line(),
                        children: Seq::<SpecSymbol>::empty(),
                        references: if has_module {
                            seq![
                                SpecRef {
                                    name: n.text@,
                                    kind: RefKind::Import,
                                    line: c.spec_start_line(),
                                },
                            ]
                        } else {
                            Seq::<SpecRef>::empty()
                        },
                    },
                ],
                None => Seq::<SpecSymbol>::empty(),
            }
        } else {
            Seq::<SpecSymbol>::empty()
        })
    }
}

/// The clause and star symbols of an export statement, in child order.
pub open spec fn export_items_upto(e: CstNode, i: int) -> Seq<SpecSymbol>
    decreases i,
{
    let cs = e.children@;
    if i <= 0 || i > cs.len() {
        Seq::<SpecSymbol>::empty()
    } else {
        export_items_upto(e, i - 1) + (if cs[i - 1].kind@ == "export_clause"@ {
            export_specs_upto(
                cs[i - 1].children@,
                cs[i - 1].children@.len() as int,
                first_kind_from(e.children@, "string"@, 0) is Some,
            )
        } else if cs[i - 1].kind@ == "*"@ {
            star_sym(e)
        } else {
            Seq::<SpecSymbol>::empty()
        })
    }
}

/// The first child that is not an `export`/`default` keyword or semicolon:
/// the defaulted expression.
pub open spec fn default_expr_from(cs: Seq<CstNode>, j: int) -> Option<int>
    decreases cs.len() - j,
{
    if !(0 <= j < cs.len()) {
        None
    } else if cs[j].kind@ != "export"@ && cs[j].kind@ != "default"@ && cs[j].kind@ != ";"@ {
        Some(j)
    } else {
        default_expr_from(cs, j + 1)
    }
}

/// The synthetic `default` symbol of an `export default <expr>`: its
/// references come from the expression and one level of callback arguments
/// of any contained call.
pub open spec fn default_sym(e: CstNode, doc: Option<Seq<char>>) -> Seq<SpecSymbol> {
    match default_expr_from(e.children@, 0) {
        None => Seq::<SpecSymbol>::empty(),
        Some(j) => {
            let expr = e.children@[j];
            seq![
                SpecSymbol {
                    name: "default"@,
                    kind: SymbolKind::Fn,
                    signature: None,
                    doc_comment: doc,
                    start_line: e.spec_start_line(),
                    end_line: e.spec_end_line(),
                    children: Seq::<SpecSymbol>::empty(),
                    references: spec_ts_body_calls(expr) + spec_ncr(expr),
                },
            ]
        },
    }
}

/// What one export statement yields: the wrapped declarations under the
/// export's own doc comment; or named and star re-exports; or the synthetic
/// `default` symbol.
pub open spec fn spec_ts_export(cs: Seq<CstNode>, i: int) -> Seq<SpecSymbol> {
    let e = cs[i];
    let doc = spec_ts_doc(cs, i);
    if has_decl_child(e.children@, e.children@.len() as int) {
        ts_decls_upto(e, e.children@.len() as int, doc)
    } else if has_clause_or_star(e.children@, e.children@.len() as int) {
        export_items_upto(e, e.children@.len() as int)
    } else {
        export_items_upto(e, e.children@.len() as int) + default_sym(e, doc)
    }
}

fn clone_opt(o: &Option<String>) -> (r: Option<String>)
    ensures
        crate::symbols::opt_view(r) == crate::symbols::opt_view(*o),
{
    match o {
        Some(s) => Some(s.clone()),
        None => None,
    }
}

fn build_ts_decls(node: &CstNode, i: usize, doc: &Option<String>, out: &mut Vec<ExtractedSymbol>)
    requires
        i <= node.children@.len(),
    ensures
        syms_view(final(out)@) == syms_view(old(out)@) + ts_decls_upto(
            *node,
            i as int,
            crate::symbols::opt_view(*doc),
        ),
    decreases i,
{
    let ghost dv = crate::symbols::opt_view(*doc);
    if i == 0 {
        proof {
            assert(syms_view(out@) =~= syms_view(out@) + ts_decls_upto(*node, 0, dv));
        }
        return;
    }
    build_ts_decls(node, i - 1, doc, out);
    let c = &node.children[i - 1];
    if c.is_kind("function_declaration") || c.is_kind("generator_function_declaration") {
        let part = build_ts_fn(c, clone_opt(doc));
        push_part(out, part, Ghost(spec_ts_fn(node.children@[i as int - 1], dv)));
    } else if c.is_kind("class_declaration") {
        let part = build_ts_class(c, clone_opt(doc));
        push_part(out, part, Ghost(spec_ts_class(node.children@[i as int - 1], dv)));
    } else if c.is_kind("interface_declaration") {
        let part = build_ts_interface(c, clone_opt(doc));
        push_part(out, part, Ghost(spec_ts_interface(node.children@[i as int - 1], dv)));
    } else if c.is_kind("type_alias_declaration") {
        let part = build_ts_alias(c, clone_opt(doc));
        push_part(out, part, Ghost(spec_ts_alias(node.children@[i as int - 1], dv)));
    } else if c.is_kind("enum_declaration") {
        let part = build_ts_enum(c, clone_opt(doc));
        push_part(out, part, Ghost(spec_ts_enum(node.children@[i as int - 1], dv)));
    } else if c.is_kind("lexical_declaration") || c.is_kind("variable_declaration") {
        let m = c.children.len();
        let d2 = clone_opt(doc);
        build_var_decls(c, m, &d2, out);
    }
    proof {
        assert(syms_view(out@) =~= syms_view(old(out)@) + ts_decls_upto(*node, i as int, dv));
    }
}

fn find_first_kind<'a>(cs: &'a Vec<CstNode>, kind: &str) -> (r: Option<&'a CstNode>)
    ensures
        match first_kind_from(cs@, kind@, 0) {
            Some(j) => r matches Some(c) && *c == cs@[j],
            None => r is None,
        },
{
    let n = cs.len();
    let mut j: usize = 0;
    while j < n
        invariant
            n == cs@.len(),
            j <= n,
            first_kind_from(cs@, kind@, 0) == first_kind_from(cs@, kind@, j as int),
        decreases n - j,
    {
        if cs[j].is_kind(kind) {
            return Some(&cs[j]);
        }
        j = j + 1;
    }
    None
}

fn build_export_specs(
    cs: &Vec<CstNode>,
    i: usize,
    has_module: bool,
    out: &mut Vec<ExtractedSymbol>,
)
    requires
        i <= cs@.len(),
    ensures
        syms_view(final(out)@) == syms_view(old(out)@) + export_specs_upto(
            cs@,
            i as int,
            has_module,
        ),
    decreases i,
{
    if i == 0 {
        proof {
            assert(syms_view(out@) =~= syms_view(out@) + export_specs_upto(cs@, 0, has_module));
        }
        return;
    }
    build_export_specs(cs, i - 1, has_module, out);
    let c = &cs[i - 1];
    if c.is_kind("export_specifier") {
        let nm: Option<String> = match c.field_text("name") {
            Some(t) => Some(t),
            None => match c.first_named_child() {
                Some(ch) => Some(ch.text.clone()),
                None => None,
            },
        };
        match nm {
            Some(original) => {
                let exported = match c.field_text("alias") {
                    Some(a) => a,
                    None => original.clone(),
                };
                let mut refs: Vec<ExtractedRef> = Vec::new();
                proof {
                    assert(refs_view(refs@) =~= Seq::<SpecRef>::empty());
                }
                if has_module {
                    refs.push(
                        ExtractedRef { name: original, kind: RefKind::Import, line: c.start_line() },
                    );
                    proof {
                        assert(refs_view(refs@) =~= Seq::<SpecRef>::empty().push(
                            crate::symbols::ref_view(refs@.last()),
                        ));
                    }
                }
                let s = ExtractedSymbol {
                    name: exported,
                    kind: SymbolKind::Var,
                    signature: None,
                    doc_comment: None,
                    start_line: c.start_line(),
                    end_line: c.end_line(),
                    children: Vec::new(),
                    references: refs,
                };
                proof {
                    assert(syms_view(s.children@) =~= Seq::<SpecSymbol>::empty());
                }
                let ghost sv = seq![sym_view(s)];
                push_part(out, Some(s), Ghost(sv));
            },
            None => {},
        }
    }
    proof {
        assert(syms_view(out@) =~= syms_view(old(out)@) + export_specs_upto(
            cs@,
            i as int,
            has_module,
        ));
    }
}

fn build_star_sym(e: &CstNode) -> (r: Option<ExtractedSymbol>)
    ensures
        match r {
            Some(s) => seq![sym_view(s)] == star_sym(*e),
            None => star_sym(*e).len() == 0,
        },
{
    let found = match find_first_kind(&e.children, "string") {
        Some(c) => Some(c),
        None => find_first_kind(&e.children, "string_fragment"),
    };
    match found {
        Some(c) => {
            let module = strip_quotes(c.text.as_str());
            let mut name = String::new();
            name.append("* from ");
            name.append(module.as_str());
            proof {
                assert(name@ =~= "* from "@ + spec_strip_quotes(c.text@));
            }
            let s = ExtractedSymbol {
                name,
                kind: SymbolKind::Mod,
                signature: None,
                doc_comment: None,
                start_line: e.start_line(),
                end_line: e.end_line(),
                children: Vec::new(),
                references: Vec::new(),
            };
            proof {
                assert(syms_view(s.children@) =~= Seq::<SpecSymbol>::empty());
                assert(refs_view(s.references@) =~= Seq::<SpecRef>::empty());
                assert(seq![sym_view(s)] =~= star_sym(*e));
            }
            Some(s)
        },
        None => None,
    }
}

fn build_export(cs: &Vec<CstNode>, i: usize) -> (r: Vec<ExtractedSymbol>)
    requires
        i < cs@.len(),
    ensures
        syms_view(r@) == spec_ts_export(cs@, i as int),
{
    let e = &cs[i];
    let doc = ts_doc(cs, i);
    let ghost dv = crate::symbols::opt_view(doc);
    let n = e.children.len();

    let mut has_decl = false;
    let mut j: usize = 0;
    while j < n
        invariant
            n == e.children@.len(),
            j <= n,
            has_decl == has_decl_child(e.children@, j as int),
        decreases n - j,
    {
        if is_decl_node(&e.children[j]) {
            has_decl = true;
        }
        j = j + 1;
    }

    let mut out: Vec<ExtractedSymbol> = Vec::new();
    proof {
        assert(syms_view(out@) =~= Seq::<SpecSymbol>::empty());
    }
    if has_decl {
        build_ts_decls(e, n, &doc, &mut out);
        proof {
            assert(syms_view(out@) =~= spec_ts_export(cs@, i as int));
        }
        return out;
    }

    let has_module = match find_first_kind(&e.children, "string") {
        Some(_) => true,
        None => false,
    };
    let mut any_clause = false;
    let mut k: usize = 0;
    while k < n
        invariant
            n == e.children@.len(),
            k <= n,
            dv == crate::symbols::opt_view(doc),
            has_module == (first_kind_from(e.children@, "string"@, 0) is Some),
            any_clause == has_clause_or_star(e.children@, k as int),
            syms_view(out@) == export_items_upto(*e, k as int),
        decreases n - k,
    {
        let c = &e.children[k];
        if c.is_kind("export_clause") {
            any_clause = true;
            let m = c.children.len();
            build_export_specs(&c.children, m, has_module, &mut out);
        } else if c.is_kind("*") {
            any_clause = true;
            let part = build_star_sym(e);
            push_part(&mut out, part, Ghost(star_sym(*e)));
        }
        proof {
            assert(syms_view(out@) =~= export_items_upto(*e, k + 1));
        }
        k = k + 1;
    }

    if !any_clause {
        match first_non_keyword(&e.children) {
            Some(expr) => {
                let mut refs: Vec<ExtractedRef> = Vec::new();
                proof {
                    assert(refs_view(refs@) =~= Seq::<SpecRef>::empty());
                }
                ts_body_calls_into(expr, &mut refs);
                ncr_collect(expr, &mut refs);
                let s = ExtractedSymbol {
                    name: {
                        let mut nm = String::new();
                        nm.append("default");
                        nm
                    },
                    kind: SymbolKind::Fn,
                    signature: None,
                    doc_comment: doc,
                    start_line: e.start_line(),
                    end_line: e.end_line(),
                    children: Vec::new(),
                    references: refs,
                };
                proof {
                    assert(s.name@ =~= "default"@);
                    assert(syms_view(s.children@) =~= Seq::<SpecSymbol>::empty());
                }
                let ghost sv = seq![sym_view(s)];
                push_part(&mut out, Some(s), Ghost(sv));
                proof {
                    assert(syms_view(out@) =~= spec_ts_export(cs@, i as int));
                }
            },
            None => {
                proof {
                    assert(syms_view(out@) =~= spec_ts_export(cs@, i as int));
                }
            },
        }
    } else {
        proof {
            assert(syms_view(out@) =~= spec_ts_export(cs@, i as int));
        }
    }
    out
}

fn first_non_keyword<'a>(cs: &'a Vec<CstNode>) -> (r: Option<&'a CstNode>)
    ensures
        match default_expr_from(cs@, 0) {
            Some(j) => r matches Some(c) && *c == cs@[j],
            None => r is None,
        },
{
    let n = cs.len();
    let mut j: usize = 0;
    while j < n
        invariant
            n == cs@.len(),
            j <= n,
            default_expr_from(cs@, 0) == default_expr_from(cs@, j as int),
        decreases n - j,
    {
        if !cs[j].is_kind("export") && !cs[j].is_kind("default") && !cs[j].is_kind(";") {
            return Some(&cs[j]);
        }
        j = j + 1;
    }
    None
}

// ── Ambient declarations, aggregation and the top-level walker ──

/// The items of an ambient (`declare`) statement, walked forward: a
/// `declare module "name" { ... }` yields one module symbol over the fully
/// extracted body and ends the walk; bare declared functions, classes,
/// interfaces and aliases accumulate.
pub open spec fn ambient_from(node: CstNode, j: int) -> Seq<SpecSymbol>
    decreases node, node.children@.len() - j,
    via ambient_from_decreases
{
    let cs = node.children@;
    if !(0 <= j < cs.len()) {
        Seq::<SpecSymbol>::empty()
    } else {
        let c = cs[j];
        if c.kind@ == "module"@ {
            seq![
                SpecSymbol {
                    name: match spec_child_by_field(c, "name"@) {
                        Some(nm) => spec_strip_quotes(nm.text@),
                        None => "unknown"@,
                    },
                    kind: SymbolKind::Mod,
                    signature: None,
                    doc_comment: None,
                    start_line: node.spec_start_line(),
                    end_line: node.spec_end_line(),
                    children: match spec_child_by_field(c, "body"@) {
                        Some(b) => spec_ts_extract_node(b),
                        None => Seq::<SpecSymbol>::empty(),
                    },
                    references: Seq::<SpecRef>::empty(),
                },
            ]
        } else {
            (if c.kind@ == "function_declaration"@ || c.kind@ == "function_signature"@ {
                spec_ts_fn(c, spec_ts_doc(cs, j))
            } else if c.kind@ == "class_declaration"@ {
                spec_ts_class(c, spec_ts_doc(cs, j))
            } else if c.kind@ == "interface_declaration"@ {
                spec_ts_interface(c, spec_ts_doc(cs, j))
            } else if c.kind@ == "type_alias_declaration"@ {
                spec_ts_alias(c, spec_ts_doc(cs, j))
            } else {
                Seq::<SpecSymbol>::empty()
            }) + ambient_from(node, j + 1)
        }
    }
}

#[via_fn]
proof fn ambient_from_decreases(node: CstNode, j: int) {
    if 0 <= j < node.children@.len() {
        lemma_child_descends(node, j);
        lemma_field_child_descends(node.children@[j], "body"@);
    }
}

/// One walk state over a node's children: the symbols so far, the import
/// references with their line range, and the test-wrapper references.
pub ghost struct TsAcc {
    pub syms: Seq<SpecSymbol>,
    pub imports: Seq<SpecRef>,
    pub start: int,
    pub end: int,
    pub tests: Seq<SpecRef>,
}

/// The walk state after a node's first `i` children: declarations become
/// symbols (export and ambient statements through their own rules), import
/// statements accumulate import references and stretch the `_imports` line
/// range, and top-level expression statements feed the test-wrapper
/// collection.
pub open spec fn ts_acc_upto(node: CstNode, i: int) -> TsAcc
    decreases node, i,
    via ts_acc_decreases
{
    let cs = node.children@;
    if i <= 0 || i > cs.len() {
        TsAcc {
            syms: Seq::<SpecSymbol>::empty(),
            imports: Seq::<SpecRef>::empty(),
            start: usize::MAX as int,
            end: 0,
            tests: Seq::<SpecRef>::empty(),
        }
    } else {
        let acc = ts_acc_upto(node, i - 1);
        let c = cs[i - 1];
        if c.kind@ == "function_declaration"@ || c.kind@ == "generator_function_declaration"@ {
            TsAcc { syms: acc.syms + spec_ts_fn(c, spec_ts_doc(cs, i - 1)), ..acc }
        } else if c.kind@ == "class_declaration"@ {
            TsAcc { syms: acc.syms + spec_ts_class(c, spec_ts_doc(cs, i - 1)), ..acc }
        } else if c.kind@ == "interface_declaration"@ {
            TsAcc { syms: acc.syms + spec_ts_interface(c, spec_ts_doc(cs, i - 1)), ..acc }
        } else if c.kind@ == "type_alias_declaration"@ {
            TsAcc { syms: acc.syms + spec_ts_alias(c, spec_ts_doc(cs, i - 1)), ..acc }
        } else if c.kind@ == "enum_declaration"@ {
            TsAcc { syms: acc.syms + spec_ts_enum(c, spec_ts_doc(cs, i - 1)), ..acc }
        } else if c.kind@ == "lexical_declaration"@ || c.kind@ == "variable_declaration"@ {
            TsAcc {
                syms: acc.syms + var_decls_upto(c, c.children@.len() as int, spec_ts_doc(cs, i - 1)),
                ..acc
            }
        } else if c.kind@ == "export_statement"@ {
            TsAcc { syms: acc.syms + spec_ts_export(cs, i - 1), ..acc }
        } else if c.kind@ == "ambient_declaration"@ {
            TsAcc { syms: acc.syms + ambient_from(c, 0), ..acc }
        } else if c.kind@ == "import_statement"@ {
            let refs = spec_import_refs(c);
            if refs.len() > 0 {
                TsAcc {
                    imports: acc.imports + refs,
                    start: if c.spec_start_line() < acc.start {
                        c.spec_start_line()
                    } else {
                        acc.start
                    },
                    end: if c.spec_end_line() > acc.end {
                        c.spec_end_line()
                    } else {
                        acc.end
                    },
                    ..acc
                }
            } else {
                acc
            }
        } else if c.kind@ == "expression_statement"@ {
            TsAcc { tests: acc.tests + ccr_calls(c.children@), ..acc }
        } else {
            acc
        }
    }
}

#[via_fn]
proof fn ts_acc_decreases(node: CstNode, i: int) {
    if 0 < i <= node.children@.len() {
        lemma_child_descends(node, i - 1);
    }
}

/// References deduplicated by name and kind, first occurrences kept.
pub open spec fn spec_dedup(rs: Seq<SpecRef>) -> Seq<SpecRef>
    decreases rs.len(),
{
    if rs.len() == 0 {
        Seq::<SpecRef>::empty()
    } else {
        spec_dedup(rs.drop_last()) + (if exists|j: int|
            0 <= j < rs.len() - 1 && (#[trigger] rs[j]).name == rs.last().name && rs[j].kind
                == rs.last().kind {
            Seq::<SpecRef>::empty()
        } else {
            seq![rs.last()]
        })
    }
}

fn dedup_refs(rs: Vec<ExtractedRef>) -> (r: Vec<ExtractedRef>)
    ensures
        refs_view(r@) == spec_dedup(refs_view(rs@)),
{
    let ghost rv = refs_view(rs@);
    let mut out: Vec<ExtractedRef> = Vec::new();
    let n = rs.len();
    let mut i: usize = 0;
    proof {
        assert(rv.take(0) =~= Seq::<SpecRef>::empty());
        assert(refs_view(out@) =~= spec_dedup(rv.take(0)));
    }
    while i < n
        invariant
            n == rs@.len(),
            rv == refs_view(rs@),
            rv.len() == n,
            i <= n,
            refs_view(out@) == spec_dedup(rv.take(i as int)),
        decreases n - i,
    {
        proof {
            assert(rv.take(i + 1).drop_last() =~= rv.take(i as int));
            assert(rv.take(i + 1).last() == rv[i as int]);
        }
        let mut dup = false;
        let mut j: usize = 0;
        while j < i
            invariant
                i < n,
                n == rs@.len(),
                rv == refs_view(rs@),
                rv.len() == n,
                j <= i,
                dup == exists|k: int|
                    0 <= k < j && (#[trigger] rv[k]).name == rv[i as int].name && rv[k].kind
                        == rv[i as int].kind,
            decreases i - j,
        {
            proof {
                assert(rv[j as int] == crate::symbols::ref_view(rs@[j as int]));
                assert(rv[i as int] == crate::symbols::ref_view(rs@[i as int]));
            }
            if str_eq(rs[j].name.as_str(), rs[i].name.as_str()) && rs[j].kind == rs[i].kind {
                dup = true;
            }
            j = j + 1;
        }
        if !dup {
            proof {
                assert forall|k: int| 0 <= k < rv.take(i + 1).len() - 1 implies !((
                #[trigger] rv.take(i + 1)[k]).name == rv.take(i + 1).last().name && rv.take(
                    i + 1,
                )[k].kind == rv.take(i + 1).last().kind) by {
                    assert(rv.take(i + 1)[k] == rv[k]);
                }
            }
            let ghost before = out@;
            out.push(rs[i].duplicate());
            proof {
                assert(refs_view(out@) =~= refs_view(before).push(
                    crate::symbols::ref_view(out@.last()),
                ));
                assert(refs_view(out@) =~= spec_dedup(rv.take(i + 1)));
            }
        } else {
            proof {
                let k0 = choose|k: int|
                    0 <= k < i && (#[trigger] rv[k]).name == rv[i as int].name && rv[k].kind
                        == rv[i as int].kind;
                assert(rv.take(i + 1)[k0] == rv[k0]);
                assert(exists|k: int|
                    0 <= k < rv.take(i + 1).len() - 1 && (#[trigger] rv.take(i + 1)[k]).name
                        == rv.take(i + 1).last().name && rv.take(i + 1)[k].kind == rv.take(
                        i + 1,
                    ).last().kind);
                assert(spec_dedup(rv.take(i + 1)) =~= spec_dedup(rv.take(i as int)));
            }
        }
        i = i + 1;
    }
    proof {
        assert(rv.take(n as int) =~= rv);
    }
    out
}

/// What the TypeScript extractor yields for one node's children: the plain
/// symbols, one `_imports` module when any import references exist, and one
/// deduplicated `_tests` function when any wrapper references exist.
pub open spec fn spec_ts_extract_node(node: CstNode) -> Seq<SpecSymbol>
    decreases node, node.children@.len() + 1,
{
    let acc = ts_acc_upto(node, node.children@.len() as int);
    let tests = spec_dedup(acc.tests);
    acc.syms + (if acc.imports.len() > 0 {
        seq![
            SpecSymbol {
                name: "_imports"@,
                kind: SymbolKind::Mod,
                signature: None,
                doc_comment: None,
                start_line: acc.start,
                end_line: acc.end,
                children: Seq::<SpecSymbol>::empty(),
                references: acc.imports,
            },
        ]
    } else {
        Seq::<SpecSymbol>::empty()
    }) + (if tests.len() > 0 {
        seq![
            SpecSymbol {
                name: "_tests"@,
                kind: SymbolKind::Fn,
                signature: None,
                doc_comment: None,
                start_line: 1,
                end_line: node.spec_end_line(),
                children: Seq::<SpecSymbol>::empty(),
                references: tests,
            },
        ]
    } else {
        Seq::<SpecSymbol>::empty()
    })
}

fn build_ts_node(node: &CstNode) -> (r: Vec<ExtractedSymbol>)
    ensures
        syms_view(r@) == spec_ts_extract_node(*node),
    decreases *node,
{
    let ghost cs = node.children@;
    let n = node.children.len();
    let mut syms: Vec<ExtractedSymbol> = Vec::new();
    let mut imports: Vec<ExtractedRef> = Vec::new();
    let mut tests: Vec<ExtractedRef> = Vec::new();
    let mut start: usize = usize::MAX;
    let mut end: usize = 0;
    let mut i: usize = 0;
    proof {
        assert(syms_view(syms@) =~= ts_acc_upto(*node, 0).syms);
        assert(refs_view(imports@) =~= ts_acc_upto(*node, 0).imports);
        assert(refs_view(tests@) =~= ts_acc_upto(*node, 0).tests);
    }
    while i < n
        invariant
            n == node.children@.len(),
            cs == node.children@,
            i <= n,
            syms_view(syms@) == ts_acc_upto(*node, i as int).syms,
            refs_view(imports@) == ts_acc_upto(*node, i as int).imports,
            refs_view(tests@) == ts_acc_upto(*node, i as int).tests,
            start as int == ts_acc_upto(*node, i as int).start,
            end as int == ts_acc_upto(*node, i as int).end,
        decreases n - i,
    {
        let c = &node.children[i];
        let k_fn = c.is_kind("function_declaration") || c.is_kind("generator_function_declaration");
        let k_class = c.is_kind("class_declaration");
        let k_iface = c.is_kind("interface_declaration");
        let k_alias = c.is_kind("type_alias_declaration");
        let k_enum = c.is_kind("enum_declaration");
        let k_var = c.is_kind("lexical_declaration") || c.is_kind("variable_declaration");
        let k_export = c.is_kind("export_statement");
        let k_ambient = c.is_kind("ambient_declaration");
        let k_import = c.is_kind("import_statement");
        let k_expr = c.is_kind("expression_statement");
        if k_fn {
            let part = build_ts_fn(c, ts_doc(&node.children, i));
            push_part(&mut syms, part, Ghost(spec_ts_fn(cs[i as int], spec_ts_doc(cs, i as int))));
        } else if k_class {
            let part = build_ts_class(c, ts_doc(&node.children, i));
            push_part(
                &mut syms,
                part,
                Ghost(spec_ts_class(cs[i as int], spec_ts_doc(cs, i as int))),
            );
        } else if k_iface {
            let part = build_ts_interface(c, ts_doc(&node.children, i));
            push_part(
                &mut syms,
                part,
                Ghost(spec_ts_interface(cs[i as int], spec_ts_doc(cs, i as int))),
            );
        } else if k_alias {
            let part = build_ts_alias(c, ts_doc(&node.children, i));
            push_part(
                &mut syms,
                part,
                Ghost(spec_ts_alias(cs[i as int], spec_ts_doc(cs, i as int))),
            );
        } else if k_enum {
            let part = build_ts_enum(c, ts_doc(&node.children, i));
            push_part(
                &mut syms,
                part,
                Ghost(spec_ts_enum(cs[i as int], spec_ts_doc(cs, i as int))),
            );
        } else if k_var {
            let d = ts_doc(&node.children, i);
            let m = c.children.len();
            build_var_decls(c, m, &d, &mut syms);
        } else if k_export {
            let mut part = build_export(&node.children, i);
            let ghost pv = part@;
            let ghost before = syms@;
            syms.append(&mut part);
            proof {
                assert(syms@ =~= before + pv);
                crate::symbols::lemma_syms_view_concat(before, pv);
            }
        } else if k_ambient {
            let mut part = build_ambient(c, 0);
            let ghost pv = part@;
            let ghost before = syms@;
            syms.append(&mut part);
            proof {
                assert(syms@ =~= before + pv);
                crate::symbols::lemma_syms_view_concat(before, pv);
            }
        } else if k_import {
            let mut tmp: Vec<ExtractedRef> = Vec::new();
            proof {
                assert(refs_view(tmp@) =~= Seq::<SpecRef>::empty());
            }
            extract_import_refs(c, &mut tmp);
            if tmp.len() > 0 {
                proof {
                    crate::symbols::lemma_refs_view_len(tmp@);
                }
                let line = c.start_line();
                if line < start {
                    start = line;
                }
                let endl = c.end_line();
                if endl > end {
                    end = endl;
                }
                let ghost before = imports@;
                let mut tmp2 = tmp;
                let ghost tv = tmp2@;
                imports.append(&mut tmp2);
                proof {
                    assert(imports@ =~= before + tv);
                    crate::symbols::lemma_refs_view_concat(before, tv);
                    assert(refs_view(tv) =~= spec_import_refs(cs[i as int]));
                }
            } else {
                proof {
                    crate::symbols::lemma_refs_view_len(tmp@);
                    assert(spec_import_refs(cs[i as int]).len() == 0);
                }
            }
        } else if k_expr {
            collect_callback_refs(c, &mut tests);
        }
        proof {
            assert(syms_view(syms@) =~= ts_acc_upto(*node, i + 1).syms);
            assert(refs_view(imports@) =~= ts_acc_upto(*node, i + 1).imports);
            assert(refs_view(tests@) =~= ts_acc_upto(*node, i + 1).tests);
        }
        i = i + 1;
    }

    if imports.len() > 0 {
        proof {
            crate::symbols::lemma_refs_view_len(imports@);
        }
        let s = ExtractedSymbol {
            name: {
                let mut nm = String::new();
                nm.append("_imports");
                nm
            },
            kind: SymbolKind::Mod,
            signature: None,
            doc_comment: None,
            start_line: start,
            end_line: end,
            children: Vec::new(),
            references: imports,
        };
        proof {
            assert(s.name@ =~= "_imports"@);
            assert(syms_view(s.children@) =~= Seq::<SpecSymbol>::empty());
        }
        let ghost sv = seq![sym_view(s)];
        push_part(&mut syms, Some(s), Ghost(sv));
    } else {
        proof {
            crate::symbols::lemma_refs_view_len(imports@);
        }
    }

    let deduped = dedup_refs(tests);
    if deduped.len() > 0 {
        proof {
            crate::symbols::lemma_refs_view_len(deduped@);
        }
        let s = ExtractedSymbol {
            name: {
                let mut nm = String::new();
                nm.append("_tests");
                nm
            },
            kind: SymbolKind::Fn,
            signature: None,
            doc_comment: None,
            start_line: 1,
            end_line: node.end_line(),
            children: Vec::new(),
            references: deduped,
        };
        proof {
            assert(s.name@ =~= "_tests"@);
            assert(syms_view(s.children@) =~= Seq::<SpecSymbol>::empty());
        }
        let ghost sv = seq![sym_view(s)];
        push_part(&mut syms, Some(s), Ghost(sv));
    } else {
        proof {
            crate::symbols::lemma_refs_view_len(deduped@);
        }
    }
    proof {
        assert(syms_view(syms@) =~= spec_ts_extract_node(*node));
    }
    syms
}

fn build_ambient(node: &CstNode, j: usize) -> (r: Vec<ExtractedSymbol>)
    requires
        j <= node.children@.len(),
    ensures
        syms_view(r@) == ambient_from(*node, j as int),
    decreases *node, node.children@.len() - j,
{
    let mut out: Vec<ExtractedSymbol> = Vec::new();
    proof {
        assert(syms_view(out@) =~= Seq::<SpecSymbol>::empty());
    }
    if j >= node.children.len() {
        return out;
    }
    let c = &node.children[j];
    if c.is_kind("module") {
        let name = match c.field_text("name") {
            Some(t) => strip_quotes(t.as_str()),
            None => {
                let mut nm = String::new();
                nm.append("unknown");
                proof {
                    assert(nm@ =~= "unknown"@);
                }
                nm
            },
        };
        let children = match c.child_by_field("body") {
            Some(b) => {
                proof {
                    lemma_child_descends(*node, j as int);
                    lemma_field_child_descends(node.children@[j as int], "body"@);
                    assert(decreases_to!(*node => *b));
                }
                build_ts_node(b)
            },
            None => {
                let e: Vec<ExtractedSymbol> = Vec::new();
                proof {
                    assert(syms_view(e@) =~= Seq::<SpecSymbol>::empty());
                }
                e
            },
        };
        let s = ExtractedSymbol {
            name,
            kind: SymbolKind::Mod,
            signature: None,
            doc_comment: None,
            start_line: node.start_line(),
            end_line: node.end_line(),
            children,
            references: Vec::new(),
        };
        proof {
            assert(refs_view(s.references@) =~= Seq::<SpecRef>::empty());
        }
        let ghost sv = seq![sym_view(s)];
        push_part(&mut out, Some(s), Ghost(sv));
        proof {
            assert(syms_view(out@) =~= ambient_from(*node, j as int));
        }
        return out;
    }
    if c.is_kind("function_declaration") || c.is_kind("function_signature") {
        let part = build_ts_fn(c, ts_doc(&node.children, j));
        push_part(
            &mut out,
            part,
            Ghost(spec_ts_fn(node.children@[j as int], spec_ts_doc(node.children@, j as int))),
        );
    } else if c.is_kind("class_declaration") {
        let part = build_ts_class(c, ts_doc(&node.children, j));
        push_part(
            &mut out,
            part,
            Ghost(spec_ts_class(node.children@[j as int], spec_ts_doc(node.children@, j as int))),
        );
    } else if c.is_kind("interface_declaration") {
        let part = build_ts_interface(c, ts_doc(&node.children, j));
        push_part(
            &mut out,
            part,
            Ghost(
                spec_ts_interface(node.children@[j as int], spec_ts_doc(node.children@, j as int)),
            ),
        );
    } else if c.is_kind("type_alias_declaration") {
        let part = build_ts_alias(c, ts_doc(&node.children, j));
        push_part(
            &mut out,
            part,
            Ghost(spec_ts_alias(node.children@[j as int], spec_ts_doc(node.children@, j as int))),
        );
    }
    let mut rest = build_ambient(node, j + 1);
    let ghost rv = rest@;
    let ghost before = out@;
    out.append(&mut rest);
    proof {
        assert(out@ =~= before + rv);
        crate::symbols::lemma_syms_view_concat(before, rv);
        assert(syms_view(out@) =~= ambient_from(*node, j as int));
    }
    out
}

/// Extracts symbols from a TypeScript or JavaScript syntax tree.
pub struct TypeScriptExtractor;

impl TypeScriptExtractor {
    /// The top-level symbols of the parsed file, with synthetic `_imports`
    /// and `_tests` aggregates when the file has imports or test blocks.
    pub fn extract(&self, root: &CstNode) -> (r: Vec<ExtractedSymbol>)
        ensures
            syms_view(r@) == spec_ts_extract_node(*root),
    {
        build_ts_node(root)
    }
}

} // verus!
