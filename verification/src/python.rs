//! The Python extractor: functions and classes with nested methods,
//! docstrings, base-class references, SCREAMING_SNAKE_CASE module and class
//! constants, and call references.

use vstd::prelude::*;

use crate::cst::{spec_child_by_field, CstNode};
use crate::strutil::{spec_ends_with, spec_join_char, spec_lines, spec_starts_with, spec_trim};
use crate::strutil::{join_char, split_lines, str_ends_with, str_starts_with, trim};
use crate::symbols::{
    lemma_syms_view_push, refs_view, sym_view, syms_view, ExtractedRef, ExtractedSymbol, RefKind,
    SpecRef, SpecSymbol, SymbolKind,
};

verus! {

broadcast use vstd::std_specs::vec::axiom_vec_decreases_to_view;

// ── Docstrings ──

/// Trimmed lines, empties dropped, of a docstring body.
pub open spec fn clean_lines(ls: Seq<Seq<char>>) -> Seq<Seq<char>>
    decreases ls.len(),
{
    if ls.len() == 0 {
        Seq::<Seq<char>>::empty()
    } else {
        clean_lines(ls.drop_last()) + (if spec_trim(ls.last()).len() > 0 {
            seq![spec_trim(ls.last())]
        } else {
            Seq::<Seq<char>>::empty()
        })
    }
}

/// A triple-quoted string's body: the quotes dropped, each line trimmed,
/// empty lines dropped, the rest joined with line feeds; empty when the
/// text is not triple-quoted.
pub open spec fn spec_strip_triple_quotes(s: Seq<char>) -> Seq<char> {
    let t = spec_trim(s);
    let q1 = "\"\"\""@;
    let q2 = "'''"@;
    let triple = (spec_starts_with(t, q1) && spec_ends_with(t, q1)) || (spec_starts_with(t, q2)
        && spec_ends_with(t, q2));
    if !triple || t.len() < 6 {
        Seq::<char>::empty()
    } else {
        spec_join_char(clean_lines(spec_lines(t.subrange(3, t.len() - 3))), '\n')
    }
}

fn clean_lines_exec(ls: &Vec<String>) -> (r: Vec<String>)
    ensures
        r.deep_view() == clean_lines(ls.deep_view()),
{
    let mut out: Vec<String> = Vec::new();
    let n = ls.len();
    let mut i: usize = 0;
    proof {
        assert(ls.deep_view().take(0) =~= Seq::<Seq<char>>::empty());
        assert(out.deep_view() =~= clean_lines(ls.deep_view().take(0)));
    }
    while i < n
        invariant
            n == ls@.len(),
            ls.deep_view().len() == n,
            i <= n,
            out.deep_view() == clean_lines(ls.deep_view().take(i as int)),
        decreases n - i,
    {
        proof {
            assert(ls.deep_view().take(i + 1).drop_last() =~= ls.deep_view().take(i as int));
            assert(ls.deep_view().take(i + 1).last() == ls.deep_view()[i as int]);
            assert(ls.deep_view()[i as int] == ls@[i as int]@);
        }
        let t = trim(ls[i].as_str());
        if t.as_str().unicode_len() > 0 {
            let ghost before = out.deep_view();
            out.push(t);
            proof {
                assert(out.deep_view() =~= before.push(spec_trim(ls@[i as int]@)));
                assert(out.deep_view() =~= clean_lines(ls.deep_view().take(i + 1)));
            }
        } else {
            proof {
                assert(out.deep_view() =~= clean_lines(ls.deep_view().take(i + 1)));
            }
        }
        i = i + 1;
    }
    proof {
        assert(ls.deep_view().take(n as int) =~= ls.deep_view());
    }
    out
}

/// Strips triple quotes and tidies the lines of a docstring.
pub fn strip_triple_quotes(s: &str) -> (r: String)
    ensures
        r@ == spec_strip_triple_quotes(s@),
{
    let t = trim(s);
    let n = t.as_str().unicode_len();
    let dq = str_starts_with(t.as_str(), "\"\"\"") && str_ends_with(t.as_str(), "\"\"\"");
    let sq = str_starts_with(t.as_str(), "'''") && str_ends_with(t.as_str(), "'''");
    if !(dq || sq) || n < 6 {
        return String::new();
    }
    proof {
        reveal_strlit("\"\"\"");
        reveal_strlit("'''");
    }
    let inner = t.as_str().substring_char(3, n - 3);
    let ls = split_lines(inner);
    let cleaned = clean_lines_exec(&ls);
    join_char(&cleaned, '\n')
}

/// The docstring of a definition node: the body's first statement when it is
/// a plain string, stripped; nothing otherwise.
pub open spec fn spec_docstring(node: CstNode) -> Option<Seq<char>> {
    match spec_child_by_field(node, "body"@) {
        None => None,
        Some(b) => if b.children@.len() > 0 && b.children@[0].kind@ == "expression_statement"@
            && b.children@[0].children@.len() > 0 && b.children@[0].children@[0].kind@
            == "string"@ {
            let cleaned = spec_strip_triple_quotes(b.children@[0].children@[0].text@);
            if cleaned.len() == 0 {
                None
            } else {
                Some(cleaned)
            }
        } else {
            None
        },
    }
}

fn get_docstring(node: &CstNode) -> (r: Option<String>)
    ensures
        crate::symbols::opt_view(r) == spec_docstring(*node),
{
    let b = match node.child_by_field("body") {
        Some(b) => b,
        None => {
            return None;
        },
    };
    if b.children.len() == 0 || !b.children[0].is_kind("expression_statement") {
        return None;
    }
    let st = &b.children[0];
    if st.children.len() == 0 || !st.children[0].is_kind("string") {
        return None;
    }
    let cleaned = strip_triple_quotes(st.children[0].text.as_str());
    if cleaned.as_str().unicode_len() == 0 {
        None
    } else {
        Some(cleaned)
    }
}

// ── Signatures ──

/// A Python signature: the parameters, with ` -> ` and the return type when
/// one is annotated.
pub open spec fn spec_py_signature(node: CstNode) -> Seq<char> {
    let params = crate::rust_lang::field_text_or_empty(node, "parameters"@);
    let ret = crate::rust_lang::field_text_or_empty(node, "return_type"@);
    if ret.len() == 0 {
        params
    } else {
        params + " -> "@ + ret
    }
}

fn build_py_signature(node: &CstNode) -> (r: String)
    ensures
        r@ == spec_py_signature(*node),
{
    let params = match node.field_text("parameters") {
        Some(t) => t,
        None => String::new(),
    };
    let ret = match node.field_text("return_type") {
        Some(t) => t,
        None => String::new(),
    };
    if ret.as_str().unicode_len() == 0 {
        proof {
            assert(params@ =~= spec_py_signature(*node));
        }
        params
    } else {
        let mut s = params;
        s.append(" -> ");
        s.append(ret.as_str());
        proof {
            assert(s@ =~= spec_py_signature(*node));
        }
        s
    }
}

// ── Call references ──

/// The name a Python call target renders as.
pub open spec fn spec_py_call_name(f: CstNode) -> Seq<char> {
    if f.kind@ == "attribute"@ {
        match (spec_child_by_field(f, "object"@), spec_child_by_field(f, "attribute"@)) {
            (Some(o), Some(a)) => o.text@ + seq!['.'] + a.text@,
            (None, Some(a)) => a.text@,
            _ => f.text@,
        }
    } else {
        f.text@
    }
}

/// The call references a single Python node contributes.
pub open spec fn spec_py_own_refs(n: CstNode) -> Seq<SpecRef> {
    if n.kind@ == "call"@ {
        match spec_child_by_field(n, "function"@) {
            Some(f) => {
                let nm = spec_py_call_name(f);
                if nm.len() > 0 {
                    seq![SpecRef { name: nm, kind: RefKind::Call, line: n.spec_start_line() }]
                } else {
                    Seq::<SpecRef>::empty()
                }
            },
            None => Seq::<SpecRef>::empty(),
        }
    } else {
        Seq::<SpecRef>::empty()
    }
}

/// All call references under a Python node forest, in pre-order.
pub open spec fn spec_py_calls_in(cs: Seq<CstNode>) -> Seq<SpecRef>
    decreases cs,
{
    if cs.len() == 0 {
        Seq::<SpecRef>::empty()
    } else {
        spec_py_calls_in(cs.drop_last()) + spec_py_own_refs(cs.last()) + spec_py_calls_in(
            cs.last().children@,
        )
    }
}

/// All call references of a body node, itself included.
pub open spec fn spec_py_body_calls(body: CstNode) -> Seq<SpecRef> {
    spec_py_own_refs(body) + spec_py_calls_in(body.children@)
}

fn py_call_name(f: &CstNode) -> (r: String)
    ensures
        r@ == spec_py_call_name(*f),
{
    if f.is_kind("attribute") {
        let obj = f.field_text("object");
        let attr = f.field_text("attribute");
        match (obj, attr) {
            (Some(o), Some(a)) => {
                let mut s = o;
                s.push('.');
                s.append(a.as_str());
                proof {
                    assert(s@ =~= spec_py_call_name(*f));
                }
                s
            },
            (None, Some(a)) => a,
            _ => f.text.clone(),
        }
    } else {
        f.text.clone()
    }
}

fn py_push_own_refs(n: &CstNode, out: &mut Vec<ExtractedRef>)
    ensures
        refs_view(final(out)@) == refs_view(old(out)@) + spec_py_own_refs(*n),
{
    let ghost r0 = refs_view(out@);
    if n.is_kind("call") {
        match n.child_by_field("function") {
            Some(f) => {
                let nm = py_call_name(f);
                if nm.as_str().unicode_len() > 0 {
                    out.push(ExtractedRef { name: nm, kind: RefKind::Call, line: n.start_line() });
                }
            },
            None => {},
        }
    }
    proof {
        assert(refs_view(out@) =~= r0 + spec_py_own_refs(*n));
    }
}

fn py_collect_calls_in(cs: &Vec<CstNode>, out: &mut Vec<ExtractedRef>)
    ensures
        refs_view(final(out)@) == refs_view(old(out)@) + spec_py_calls_in(cs@),
    decreases cs@,
{
    let n = cs.len();
    let mut i: usize = 0;
    proof {
        assert(refs_view(out@) =~= refs_view(old(out)@) + spec_py_calls_in(cs@.take(0)));
    }
    while i < n
        invariant
            n == cs@.len(),
            i <= n,
            refs_view(out@) == refs_view(old(out)@) + spec_py_calls_in(cs@.take(i as int)),
        decreases n - i,
    {
        proof {
            assert(cs@.take(i + 1).drop_last() =~= cs@.take(i as int));
            assert(cs@.take(i + 1).last() == cs@[i as int]);
        }
        py_push_own_refs(&cs[i], out);
        py_collect_calls_in(&cs[i].children, out);
        proof {
            assert(refs_view(out@) =~= refs_view(old(out)@) + spec_py_calls_in(cs@.take(i + 1)));
        }
        i = i + 1;
    }
    proof {
        assert(cs@.take(n as int) =~= cs@);
    }
}

fn py_body_calls(node: &CstNode) -> (r: Vec<ExtractedRef>)
    ensures
        refs_view(r@) == (match spec_child_by_field(*node, "body"@) {
            Some(b) => spec_py_body_calls(b),
            None => Seq::<SpecRef>::empty(),
        }),
{
    let mut out: Vec<ExtractedRef> = Vec::new();
    proof {
        assert(refs_view(out@) =~= Seq::<SpecRef>::empty());
    }
    match node.child_by_field("body") {
        Some(b) => {
            py_push_own_refs(b, &mut out);
            py_collect_calls_in(&b.children, &mut out);
        },
        None => {},
    }
    out
}

// ── Constants ──

/// A SCREAMING_SNAKE_CASE identifier: nonempty, all upper-case ASCII
/// letters, digits or underscores.
pub open spec fn spec_upper_snake(s: Seq<char>) -> bool {
    s.len() > 0 && forall|i: int|
        0 <= i < s.len() ==> crate::strutil::is_ascii_upper(#[trigger] s[i]) || ('0' <= s[i] && s[i]
            <= '9') || s[i] == '_'
}

/// True for SCREAMING_SNAKE_CASE identifiers.
pub fn is_upper_snake_case(name: &str) -> (r: bool)
    ensures
        r == spec_upper_snake(name@),
{
    let n = name.unicode_len();
    if n == 0 {
        return false;
    }
    let mut i: usize = 0;
    while i < n
        invariant
            n == name@.len(),
            i <= n,
            forall|k: int|
                0 <= k < i ==> crate::strutil::is_ascii_upper(#[trigger] name@[k]) || ('0'
                    <= name@[k] && name@[k] <= '9') || name@[k] == '_',
        decreases n - i,
    {
        let c = name.get_char(i);
        if !(('A' <= c && c <= 'Z') || ('0' <= c && c <= '9') || c == '_') {
            return false;
        }
        i = i + 1;
    }
    true
}

/// The constant symbol an expression statement yields: a module- or
/// class-level `NAME = ...` assignment to a SCREAMING_SNAKE_CASE identifier;
/// its type annotation, when asked for, becomes the signature.
pub open spec fn spec_py_constant(node: CstNode, with_type: bool) -> Seq<SpecSymbol> {
    if node.children@.len() > 0 && node.children@[0].kind@ == "assignment"@ {
        let a = node.children@[0];
        match spec_child_by_field(a, "left"@) {
            Some(l) => if l.kind@ == "identifier"@ && spec_upper_snake(l.text@) {
                seq![
                    SpecSymbol {
                        name: l.text@,
                        kind: SymbolKind::Const,
                        signature: if with_type {
                            crate::rust_lang::opt_field_text(a, "type"@)
                        } else {
                            None
                        },
                        doc_comment: None,
                        start_line: node.spec_start_line(),
                        end_line: node.spec_end_line(),
                        children: Seq::<SpecSymbol>::empty(),
                        references: Seq::<SpecRef>::empty(),
                    },
                ]
            } else {
                Seq::<SpecSymbol>::empty()
            },
            None => Seq::<SpecSymbol>::empty(),
        }
    } else {
        Seq::<SpecSymbol>::empty()
    }
}

fn build_py_constant(node: &CstNode, with_type: bool) -> (r: Option<ExtractedSymbol>)
    ensures
        match r {
            Some(s) => seq![sym_view(s)] == spec_py_constant(*node, with_type),
            None => spec_py_constant(*node, with_type).len() == 0,
        },
{
    if node.children.len() == 0 || !node.children[0].is_kind("assignment") {
        return None;
    }
    let a = &node.children[0];
    let l = match a.child_by_field("left") {
        Some(l) => l,
        None => {
            return None;
        },
    };
    if !l.is_kind("identifier") || !is_upper_snake_case(l.text.as_str()) {
        return None;
    }
    let s = ExtractedSymbol {
        name: l.text.clone(),
        kind: SymbolKind::Const,
        signature: if with_type {
            a.field_text("type")
        } else {
            None
        },
        doc_comment: None,
        start_line: node.start_line(),
        end_line: node.end_line(),
        children: Vec::new(),
        references: Vec::new(),
    };
    proof {
        assert(syms_view(s.children@) =~= Seq::<SpecSymbol>::empty());
        assert(refs_view(s.references@) =~= Seq::<SpecRef>::empty());
        assert(seq![sym_view(s)] =~= spec_py_constant(*node, with_type));
    }
    Some(s)
}

// ── Functions and classes ──

/// The function or method symbol a `function_definition` yields.
pub open spec fn spec_py_fn(node: CstNode, method: bool) -> Seq<SpecSymbol> {
    match spec_child_by_field(node, "name"@) {
        None => Seq::<SpecSymbol>::empty(),
        Some(nm) => seq![
            SpecSymbol {
                name: nm.text@,
                kind: if method {
                    SymbolKind::Method
                } else {
                    SymbolKind::Fn
                },
                signature: Some(spec_py_signature(node)),
                doc_comment: spec_docstring(node),
                start_line: node.spec_start_line(),
                end_line: node.spec_end_line(),
                children: Seq::<SpecSymbol>::empty(),
                references: match spec_child_by_field(node, "body"@) {
                    Some(b) => spec_py_body_calls(b),
                    None => Seq::<SpecRef>::empty(),
                },
            },
        ],
    }
}

fn build_py_fn(node: &CstNode, method: bool) -> (r: Option<ExtractedSymbol>)
    ensures
        match r {
            Some(s) => seq![sym_view(s)] == spec_py_fn(*node, method),
            None => spec_py_fn(*node, method).len() == 0,
        },
{
    let name = match node.field_text("name") {
        Some(t) => t,
        None => {
            return None;
        },
    };
    let s = ExtractedSymbol {
        name,
        kind: if method {
            SymbolKind::Method
        } else {
            SymbolKind::Fn
        },
        signature: Some(build_py_signature(node)),
        doc_comment: get_docstring(node),
        start_line: node.start_line(),
        end_line: node.end_line(),
        children: Vec::new(),
        references: py_body_calls(node),
    };
    proof {
        assert(syms_view(s.children@) =~= Seq::<SpecSymbol>::empty());
        assert(seq![sym_view(s)] =~= spec_py_fn(*node, method));
    }
    Some(s)
}

/// The `extends` references of a class's superclass list.
pub open spec fn spec_py_bases_upto(cs: Seq<CstNode>, i: int) -> Seq<SpecRef>
    decreases i,
{
    if i <= 0 || i > cs.len() {
        Seq::<SpecRef>::empty()
    } else {
        spec_py_bases_upto(cs, i - 1) + (if cs[i - 1].kind@ == "identifier"@ || cs[i - 1].kind@
            == "attribute"@ {
            seq![
                SpecRef {
                    name: cs[i - 1].text@,
                    kind: RefKind::Extends,
                    line: cs[i - 1].spec_start_line(),
                },
            ]
        } else {
            Seq::<SpecRef>::empty()
        })
    }
}

fn build_py_bases(cs: &Vec<CstNode>, i: usize) -> (r: Vec<ExtractedRef>)
    requires
        i <= cs@.len(),
    ensures
        refs_view(r@) == spec_py_bases_upto(cs@, i as int),
    decreases i,
{
    if i == 0 {
        let r: Vec<ExtractedRef> = Vec::new();
        proof {
            assert(refs_view(r@) =~= spec_py_bases_upto(cs@, 0));
        }
        r
    } else {
        let mut v = build_py_bases(cs, i - 1);
        let c = &cs[i - 1];
        if c.is_kind("identifier") || c.is_kind("attribute") {
            let ghost before = v@;
            v.push(ExtractedRef { name: c.text.clone(), kind: RefKind::Extends, line: c.start_line() });
            proof {
                assert(refs_view(v@) =~= refs_view(before).push(
                    crate::symbols::ref_view(v@.last()),
                ));
            }
        }
        proof {
            assert(refs_view(v@) =~= spec_py_bases_upto(cs@, i as int));
        }
        v
    }
}

/// The members of a class body: methods (decorated or not) and class
/// constants.
pub open spec fn spec_py_members_upto(cs: Seq<CstNode>, i: int) -> Seq<SpecSymbol>
    decreases i,
{
    if i <= 0 || i > cs.len() {
        Seq::<SpecSymbol>::empty()
    } else {
        let c = cs[i - 1];
        spec_py_members_upto(cs, i - 1) + (if c.kind@ == "function_definition"@ {
            spec_py_fn(c, true)
        } else if c.kind@ == "decorated_definition"@ {
            match spec_child_by_field(c, "definition"@) {
                Some(d) => if d.kind@ == "function_definition"@ {
                    spec_py_fn(d, true)
                } else {
                    Seq::<SpecSymbol>::empty()
                },
                None => Seq::<SpecSymbol>::empty(),
            }
        } else if c.kind@ == "expression_statement"@ {
            spec_py_constant(c, false)
        } else {
            Seq::<SpecSymbol>::empty()
        })
    }
}

fn build_py_members(cs: &Vec<CstNode>, i: usize) -> (r: Vec<ExtractedSymbol>)
    requires
        i <= cs@.len(),
    ensures
        syms_view(r@) == spec_py_members_upto(cs@, i as int),
    decreases i,
{
    if i == 0 {
        let r: Vec<ExtractedSymbol> = Vec::new();
        proof {
            assert(syms_view(r@) =~= spec_py_members_upto(cs@, 0));
        }
        r
    } else {
        let mut v = build_py_members(cs, i - 1);
        let c = &cs[i - 1];
        if c.is_kind("function_definition") {
            let part = build_py_fn(c, true);
            crate::rust_lang::push_part(&mut v, part, Ghost(spec_py_fn(cs@[i as int - 1], true)));
        } else if c.is_kind("decorated_definition") {
            match c.child_by_field("definition") {
                Some(d) => {
                    if d.is_kind("function_definition") {
                        let part = build_py_fn(d, true);
                        crate::rust_lang::push_part(&mut v, part, Ghost(spec_py_fn(*d, true)));
                    }
                },
                None => {},
            }
        } else if c.is_kind("expression_statement") {
            let part = build_py_constant(c, false);
            crate::rust_lang::push_part(
                &mut v,
                part,
                Ghost(spec_py_constant(cs@[i as int - 1], false)),
            );
        }
        proof {
            assert(syms_view(v@) =~= spec_py_members_upto(cs@, i as int));
        }
        v
    }
}

/// The class symbol a `class_definition` yields: base classes as `extends`
/// references, methods and class constants as children.
pub open spec fn spec_py_class(node: CstNode) -> Seq<SpecSymbol> {
    match spec_child_by_field(node, "name"@) {
        None => Seq::<SpecSymbol>::empty(),
        Some(nm) => seq![
            SpecSymbol {
                name: nm.text@,
                kind: SymbolKind::Class,
                signature: None,
                doc_comment: spec_docstring(node),
                start_line: node.spec_start_line(),
                end_line: node.spec_end_line(),
                children: match spec_child_by_field(node, "body"@) {
                    Some(b) => spec_py_members_upto(b.children@, b.children@.len() as int),
                    None => Seq::<SpecSymbol>::empty(),
                },
                references: match spec_child_by_field(node, "superclasses"@) {
                    Some(sc) => spec_py_bases_upto(sc.children@, sc.children@.len() as int),
                    None => Seq::<SpecRef>::empty(),
                },
            },
        ],
    }
}

fn build_py_class(node: &CstNode) -> (r: Option<ExtractedSymbol>)
    ensures
        match r {
            Some(s) => seq![sym_view(s)] == spec_py_class(*node),
            None => spec_py_class(*node).len() == 0,
        },
{
    let name = match node.field_text("name") {
        Some(t) => t,
        None => {
            return None;
        },
    };
    let refs = match node.child_by_field("superclasses") {
        Some(sc) => {
            let n = sc.children.len();
            build_py_bases(&sc.children, n)
        },
        None => {
            let e: Vec<ExtractedRef> = Vec::new();
            proof {
                assert(refs_view(e@) =~= Seq::<SpecRef>::empty());
            }
            e
        },
    };
    let children = match node.child_by_field("body") {
        Some(b) => {
            let n = b.children.len();
            build_py_members(&b.children, n)
        },
        None => {
            let e: Vec<ExtractedSymbol> = Vec::new();
            proof {
                assert(syms_view(e@) =~= Seq::<SpecSymbol>::empty());
            }
            e
        },
    };
    let s = ExtractedSymbol {
        name,
        kind: SymbolKind::Class,
        signature: None,
        doc_comment: get_docstring(node),
        start_line: node.start_line(),
        end_line: node.end_line(),
        children,
        references: refs,
    };
    proof {
        assert(seq![sym_view(s)] =~= spec_py_class(*node));
    }
    Some(s)
}

/// The top-level symbols of a Python module.
pub open spec fn spec_py_top_upto(cs: Seq<CstNode>, i: int) -> Seq<SpecSymbol>
    decreases i,
{
    if i <= 0 || i > cs.len() {
        Seq::<SpecSymbol>::empty()
    } else {
        let c = cs[i - 1];
        spec_py_top_upto(cs, i - 1) + (if c.kind@ == "function_definition"@ {
            spec_py_fn(c, false)
        } else if c.kind@ == "class_definition"@ {
            spec_py_class(c)
        } else if c.kind@ == "decorated_definition"@ {
            match spec_child_by_field(c, "definition"@) {
                Some(d) => if d.kind@ == "function_definition"@ {
                    spec_py_fn(d, false)
                } else if d.kind@ == "class_definition"@ {
                    spec_py_class(d)
                } else {
                    Seq::<SpecSymbol>::empty()
                },
                None => Seq::<SpecSymbol>::empty(),
            }
        } else if c.kind@ == "expression_statement"@ {
            spec_py_constant(c, true)
        } else {
            Seq::<SpecSymbol>::empty()
        })
    }
}

/// What the Python extractor yields for a parsed tree.
pub open spec fn spec_py_extract(root: CstNode) -> Seq<SpecSymbol> {
    spec_py_top_upto(root.children@, root.children@.len() as int)
}

fn build_py_top(cs: &Vec<CstNode>, i: usize) -> (r: Vec<ExtractedSymbol>)
    requires
        i <= cs@.len(),
    ensures
        syms_view(r@) == spec_py_top_upto(cs@, i as int),
    decreases i,
{
    if i == 0 {
        let r: Vec<ExtractedSymbol> = Vec::new();
        proof {
            assert(syms_view(r@) =~= spec_py_top_upto(cs@, 0));
        }
        r
    } else {
        let mut v = build_py_top(cs, i - 1);
        let c = &cs[i - 1];
        if c.is_kind("function_definition") {
            let part = build_py_fn(c, false);
            crate::rust_lang::push_part(&mut v, part, Ghost(spec_py_fn(cs@[i as int - 1], false)));
        } else if c.is_kind("class_definition") {
            let part = build_py_class(c);
            crate::rust_lang::push_part(&mut v, part, Ghost(spec_py_class(cs@[i as int - 1])));
        } else if c.is_kind("decorated_definition") {
            match c.child_by_field("definition") {
                Some(d) => {
                    if d.is_kind("function_definition") {
                        let part = build_py_fn(d, false);
                        crate::rust_lang::push_part(&mut v, part, Ghost(spec_py_fn(*d, false)));
                    } else if d.is_kind("class_definition") {
                        let part = build_py_class(d);
                        crate::rust_lang::push_part(&mut v, part, Ghost(spec_py_class(*d)));
                    }
                },
                None => {},
            }
        } else if c.is_kind("expression_statement") {
            let part = build_py_constant(c, true);
            crate::rust_lang::push_part(
                &mut v,
                part,
                Ghost(spec_py_constant(cs@[i as int - 1], true)),
            );
        }
        proof {
            assert(syms_view(v@) =~= spec_py_top_upto(cs@, i as int));
        }
        v
    }
}

/// Extracts symbols from a Python syntax tree.
pub struct PythonExtractor;

impl PythonExtractor {
    /// The top-level definitions of the parsed file, with nested methods.
    pub fn extract(&self, root: &CstNode) -> (r: Vec<ExtractedSymbol>)
        ensures
            syms_view(r@) == spec_py_extract(*root),
    {
        let n = root.children.len();
        build_py_top(&root.children, n)
    }
}

} // verus!
