//! The Rust extractor: functions, structs with fields, enums with variants,
//! traits with required methods, impl blocks with members, modules, type
//! aliases and constants, with `///` doc comments and call references.

use vstd::prelude::*;

use crate::cst::{spec_child_by_field, CstNode};
use crate::strutil::{spec_join_char, spec_starts_with, spec_trim};
use crate::strutil::{join_char, str_starts_with, trim};
use crate::symbols::{
    lemma_syms_view_push, ref_view, refs_view, sym_view, syms_view, ExtractedRef, ExtractedSymbol,
    RefKind, SpecRef, SpecSymbol, SymbolKind,
};

verus! {

broadcast use vstd::std_specs::vec::axiom_vec_decreases_to_view;

// ── Doc comments: a contiguous run of `///` lines right above the item ──

/// A `///` line comment.
pub open spec fn is_doc_line(c: CstNode) -> bool {
    c.kind@ == "line_comment"@ && spec_starts_with(c.text@, "///"@)
}

/// One doc line with the marker dropped and the rest trimmed.
pub open spec fn doc_clean(t: Seq<char>) -> Seq<char> {
    spec_trim(t.skip(3))
}

/// The cleaned doc lines of the contiguous `///` run ending just before
/// child `i`, in source order.
pub open spec fn doc_run(cs: Seq<CstNode>, i: int) -> Seq<Seq<char>>
    decreases i,
{
    if 0 < i <= cs.len() && is_doc_line(cs[i - 1]) {
        doc_run(cs, i - 1).push(doc_clean(cs[i - 1].text@))
    } else {
        Seq::<Seq<char>>::empty()
    }
}

/// The doc comment attached to child `i`, if any `///` run precedes it.
pub open spec fn spec_rust_doc(cs: Seq<CstNode>, i: int) -> Option<Seq<char>> {
    let ls = doc_run(cs, i);
    if ls.len() == 0 {
        None
    } else {
        Some(spec_join_char(ls, '\n'))
    }
}

fn doc_lines(cs: &Vec<CstNode>, i: usize) -> (r: Vec<String>)
    requires
        i <= cs@.len(),
    ensures
        r.deep_view() == doc_run(cs@, i as int),
    decreases i,
{
    if i > 0 && cs[i - 1].is_kind("line_comment") && str_starts_with(cs[i - 1].text.as_str(), "///")
    {
        let mut v = doc_lines(cs, i - 1);
        let t = &cs[i - 1].text;
        let n = t.as_str().unicode_len();
        proof {
            reveal_strlit("///");
            assert(t@.len() >= 3);
        }
        let rest = t.as_str().substring_char(3, n);
        proof {
            assert(rest@ =~= t@.skip(3));
        }
        let ghost before = v.deep_view();
        v.push(trim(rest));
        proof {
            assert(v.deep_view() =~= before.push(doc_clean(t@)));
        }
        v
    } else {
        let v: Vec<String> = Vec::new();
        proof {
            assert(v.deep_view() =~= Seq::<Seq<char>>::empty());
        }
        v
    }
}

/// The `///` doc comment right above child `i` of the node, if any.
pub fn rust_doc(cs: &Vec<CstNode>, i: usize) -> (r: Option<String>)
    requires
        i <= cs@.len(),
    ensures
        crate::symbols::opt_view(r) == spec_rust_doc(cs@, i as int),
{
    let ls = doc_lines(cs, i);
    if ls.len() == 0 {
        None
    } else {
        proof {
            assert(ls.deep_view().len() == ls@.len());
        }
        Some(join_char(&ls, '\n'))
    }
}

// ── Signatures ──

/// The text of a field child, or empty when the field is absent.
pub open spec fn field_text_or_empty(node: CstNode, name: Seq<char>) -> Seq<char> {
    match spec_child_by_field(node, name) {
        Some(c) => c.text@,
        None => Seq::<char>::empty(),
    }
}

/// A function signature: type parameters, parameters, and the return type
/// after one space when present.
pub open spec fn spec_fn_signature(node: CstNode) -> Seq<char> {
    let tp = field_text_or_empty(node, "type_parameters"@);
    let params = field_text_or_empty(node, "parameters"@);
    let ret = field_text_or_empty(node, "return_type"@);
    (if tp.len() > 0 {
        tp
    } else {
        Seq::<char>::empty()
    }) + params + (if ret.len() > 0 {
        seq![' '] + ret
    } else {
        Seq::<char>::empty()
    })
}

fn field_text_or_new(node: &CstNode, name: &str) -> (r: String)
    ensures
        r@ == field_text_or_empty(*node, name@),
{
    match node.field_text(name) {
        Some(t) => t,
        None => String::new(),
    }
}

/// Builds the signature text of a function-like node.
pub fn build_fn_signature(node: &CstNode) -> (r: String)
    ensures
        r@ == spec_fn_signature(*node),
{
    let tp = field_text_or_new(node, "type_parameters");
    let params = field_text_or_new(node, "parameters");
    let ret = field_text_or_new(node, "return_type");
    let mut sig = String::new();
    if tp.as_str().unicode_len() > 0 {
        sig.append(tp.as_str());
    }
    sig.append(params.as_str());
    if ret.as_str().unicode_len() > 0 {
        sig.push(' ');
        sig.append(ret.as_str());
    }
    proof {
        assert(sig@ =~= spec_fn_signature(*node));
    }
    sig
}

// ── Call references ──

/// The name a call target renders as: a bare identifier or scoped path is
/// its text; a field expression joins value and field with a dot.
pub open spec fn spec_call_name(f: CstNode) -> Seq<char> {
    if f.kind@ == "field_expression"@ {
        match (spec_child_by_field(f, "value"@), spec_child_by_field(f, "field"@)) {
            (Some(o), Some(fl)) => o.text@ + seq!['.'] + fl.text@,
            (None, Some(fl)) => fl.text@,
            _ => f.text@,
        }
    } else {
        f.text@
    }
}

/// The call references a single node contributes.
pub open spec fn spec_own_refs(n: CstNode) -> Seq<SpecRef> {
    if n.kind@ == "call_expression"@ {
        match spec_child_by_field(n, "function"@) {
            Some(f) => {
                let nm = spec_call_name(f);
                if nm.len() > 0 {
                    seq![SpecRef { name: nm, kind: RefKind::Call, line: n.spec_start_line() }]
                } else {
                    Seq::<SpecRef>::empty()
                }
            },
            None => Seq::<SpecRef>::empty(),
        }
    } else {
        Seq::<SpecRef>::empty()
    }
}

/// All call references under a node forest, in pre-order.
pub open spec fn spec_calls_in(cs: Seq<CstNode>) -> Seq<SpecRef>
    decreases cs,
{
    if cs.len() == 0 {
        Seq::<SpecRef>::empty()
    } else {
        spec_calls_in(cs.drop_last()) + spec_own_refs(cs.last()) + spec_calls_in(
            cs.last().children@,
        )
    }
}

/// All call references of a body node, itself included, in pre-order.
pub open spec fn spec_body_calls(body: CstNode) -> Seq<SpecRef> {
    spec_own_refs(body) + spec_calls_in(body.children@)
}

fn call_name(f: &CstNode) -> (r: String)
    ensures
        r@ == spec_call_name(*f),
{
    if f.is_kind("field_expression") {
        let obj = f.field_text("value");
        let fld = f.field_text("field");
        match (obj, fld) {
            (Some(o), Some(fl)) => {
                let mut s = o;
                s.push('.');
                s.append(fl.as_str());
                proof {
                    assert(s@ =~= spec_call_name(*f));
                }
                s
            },
            (None, Some(fl)) => fl,
            _ => f.text.clone(),
        }
    } else {
        f.text.clone()
    }
}

fn push_own_refs(n: &CstNode, out: &mut Vec<ExtractedRef>)
    ensures
        refs_view(final(out)@) == refs_view(old(out)@) + spec_own_refs(*n),
{
    let ghost r0 = refs_view(out@);
    if n.is_kind("call_expression") {
        match n.child_by_field("function") {
            Some(f) => {
                let nm = call_name(f);
                if nm.as_str().unicode_len() > 0 {
                    out.push(ExtractedRef { name: nm, kind: RefKind::Call, line: n.start_line() });
                    proof {
                        assert(refs_view(out@) =~= r0 + spec_own_refs(*n));
                    }
                } else {
                    proof {
                        assert(refs_view(out@) =~= r0 + spec_own_refs(*n));
                    }
                }
            },
            None => {
                proof {
                    assert(refs_view(out@) =~= r0 + spec_own_refs(*n));
                }
            },
        }
    } else {
        proof {
            assert(refs_view(out@) =~= r0 + spec_own_refs(*n));
        }
    }
}

fn collect_calls_in(cs: &Vec<CstNode>, out: &mut Vec<ExtractedRef>)
    ensures
        refs_view(final(out)@) == refs_view(old(out)@) + spec_calls_in(cs@),
    decreases cs@,
{
    let n = cs.len();
    let mut i: usize = 0;
    proof {
        assert(refs_view(out@) =~= refs_view(old(out)@) + spec_calls_in(cs@.take(0)));
    }
    while i < n
        invariant
            n == cs@.len(),
            i <= n,
            refs_view(out@) == refs_view(old(out)@) + spec_calls_in(cs@.take(i as int)),
        decreases n - i,
    {
        proof {
            assert(cs@.take(i + 1).drop_last() =~= cs@.take(i as int));
            assert(cs@.take(i + 1).last() == cs@[i as int]);
        }
        push_own_refs(&cs[i], out);
        collect_calls_in(&cs[i].children, out);
        proof {
            assert(refs_view(out@) =~= refs_view(old(out)@) + spec_calls_in(cs@.take(i + 1)));
        }
        i = i + 1;
    }
    proof {
        assert(cs@.take(n as int) =~= cs@);
    }
}

/// Collects the call references of a body node, itself included.
pub fn collect_body_calls(body: &CstNode) -> (r: Vec<ExtractedRef>)
    ensures
        refs_view(r@) == spec_body_calls(*body),
{
    let mut out: Vec<ExtractedRef> = Vec::new();
    proof {
        assert(refs_view(out@) =~= Seq::<SpecRef>::empty());
    }
    push_own_refs(body, &mut out);
    collect_calls_in(&body.children, &mut out);
    out
}

// ── Item builders ──

/// The text of a field child, where present.
pub open spec fn opt_field_text(node: CstNode, name: Seq<char>) -> Option<Seq<char>> {
    match spec_child_by_field(node, name) {
        Some(c) => Some(c.text@),
        None => None,
    }
}

/// The references of a node's body, where it has one.
pub open spec fn spec_refs_of_body(node: CstNode) -> Seq<SpecRef> {
    match spec_child_by_field(node, "body"@) {
        Some(b) => spec_body_calls(b),
        None => Seq::<SpecRef>::empty(),
    }
}

/// A function or method symbol from child `i`, named or nothing.
pub open spec fn rust_fn_sym(cs: Seq<CstNode>, i: int, method: bool) -> Seq<SpecSymbol> {
    let node = cs[i];
    match spec_child_by_field(node, "name"@) {
        None => Seq::<SpecSymbol>::empty(),
        Some(nm) => seq![
            SpecSymbol {
                name: nm.text@,
                kind: if method {
                    SymbolKind::Method
                } else {
                    SymbolKind::Fn
                },
                signature: Some(spec_fn_signature(node)),
                doc_comment: spec_rust_doc(cs, i),
                start_line: node.spec_start_line(),
                end_line: node.spec_end_line(),
                children: Seq::<SpecSymbol>::empty(),
                references: spec_refs_of_body(node),
            },
        ],
    }
}

/// A plain named symbol with a kind, an optional type signature from the
/// given field, and a doc comment.
pub open spec fn rust_named_sym(
    cs: Seq<CstNode>,
    i: int,
    kind: SymbolKind,
    sig: Option<Seq<char>>,
    children: Seq<SpecSymbol>,
) -> Seq<SpecSymbol> {
    let node = cs[i];
    match spec_child_by_field(node, "name"@) {
        None => Seq::<SpecSymbol>::empty(),
        Some(nm) => seq![
            SpecSymbol {
                name: nm.text@,
                kind,
                signature: sig,
                doc_comment: spec_rust_doc(cs, i),
                start_line: node.spec_start_line(),
                end_line: node.spec_end_line(),
                children,
                references: Seq::<SpecRef>::empty(),
            },
        ],
    }
}

/// The field symbols of a struct body, in order.
pub open spec fn struct_fields_upto(cs: Seq<CstNode>, i: int) -> Seq<SpecSymbol>
    decreases i,
{
    if i <= 0 {
        Seq::<SpecSymbol>::empty()
    } else {
        struct_fields_upto(cs, i - 1) + (if 0 < i <= cs.len() && cs[i - 1].kind@
            == "field_declaration"@ {
            match spec_child_by_field(cs[i - 1], "name"@) {
                Some(nm) => seq![
                    SpecSymbol {
                        name: nm.text@,
                        kind: SymbolKind::Var,
                        signature: opt_field_text(cs[i - 1], "type"@),
                        doc_comment: None,
                        start_line: cs[i - 1].spec_start_line(),
                        end_line: cs[i - 1].spec_end_line(),
                        children: Seq::<SpecSymbol>::empty(),
                        references: Seq::<SpecRef>::empty(),
                    },
                ],
                None => Seq::<SpecSymbol>::empty(),
            }
        } else {
            Seq::<SpecSymbol>::empty()
        })
    }
}

/// The variant symbols of an enum body, in order.
pub open spec fn enum_variants_upto(cs: Seq<CstNode>, i: int) -> Seq<SpecSymbol>
    decreases i,
{
    if i <= 0 {
        Seq::<SpecSymbol>::empty()
    } else {
        enum_variants_upto(cs, i - 1) + (if 0 < i <= cs.len() && cs[i - 1].kind@ == "enum_variant"@ {
            match spec_child_by_field(cs[i - 1], "name"@) {
                Some(nm) => seq![
                    SpecSymbol {
                        name: nm.text@,
                        kind: SymbolKind::Const,
                        signature: None,
                        doc_comment: None,
                        start_line: cs[i - 1].spec_start_line(),
                        end_line: cs[i - 1].spec_end_line(),
                        children: Seq::<SpecSymbol>::empty(),
                        references: Seq::<SpecRef>::empty(),
                    },
                ],
                None => Seq::<SpecSymbol>::empty(),
            }
        } else {
            Seq::<SpecSymbol>::empty()
        })
    }
}

/// The required and provided methods of a trait body, in order.
pub open spec fn trait_members_upto(cs: Seq<CstNode>, i: int) -> Seq<SpecSymbol>
    decreases i,
{
    if i <= 0 {
        Seq::<SpecSymbol>::empty()
    } else {
        trait_members_upto(cs, i - 1) + (if 0 < i <= cs.len() && (cs[i - 1].kind@
            == "function_item"@ || cs[i - 1].kind@ == "function_signature_item"@) {
            rust_fn_sym(cs, i - 1, true)
        } else {
            Seq::<SpecSymbol>::empty()
        })
    }
}

/// The members of an impl body, in order: methods, consts and type aliases.
pub open spec fn impl_members_upto(cs: Seq<CstNode>, i: int) -> Seq<SpecSymbol>
    decreases i,
{
    if i <= 0 {
        Seq::<SpecSymbol>::empty()
    } else {
        impl_members_upto(cs, i - 1) + (if 0 < i <= cs.len() && cs[i - 1].kind@ == "function_item"@ {
            rust_fn_sym(cs, i - 1, true)
        } else if 0 < i <= cs.len() && cs[i - 1].kind@ == "const_item"@ {
            rust_named_sym(
                cs,
                i - 1,
                SymbolKind::Const,
                opt_field_text(cs[i - 1], "type"@),
                Seq::<SpecSymbol>::empty(),
            )
        } else if 0 < i <= cs.len() && cs[i - 1].kind@ == "type_item"@ {
            rust_named_sym(
                cs,
                i - 1,
                SymbolKind::Type,
                opt_field_text(cs[i - 1], "type"@),
                Seq::<SpecSymbol>::empty(),
            )
        } else {
            Seq::<SpecSymbol>::empty()
        })
    }
}

/// The name of an impl block: `Type` alone, or `Trait for Type`.
pub open spec fn spec_impl_name(node: CstNode) -> Seq<char> {
    let ty = field_text_or_empty(node, "type"@);
    match spec_child_by_field(node, "trait"@) {
        Some(t) => t.text@ + " for "@ + ty,
        None => ty,
    }
}

/// The members of a body field's children under a given member rule.
pub open spec fn body_children(node: CstNode) -> Seq<CstNode> {
    match spec_child_by_field(node, "body"@) {
        Some(b) => b.children@,
        None => Seq::<CstNode>::empty(),
    }
}

/// The symbols the first `i` children of a node yield at item level.
pub open spec fn rust_items_upto(node: CstNode, i: int) -> Seq<SpecSymbol>
    decreases node, i,
    via rust_items_decreases
{
    if i <= 0 || i > node.children@.len() {
        Seq::<SpecSymbol>::empty()
    } else {
        let cs = node.children@;
        let c = cs[i - 1];
        rust_items_upto(node, i - 1) + (if c.kind@ == "function_item"@ {
            rust_fn_sym(cs, i - 1, false)
        } else if c.kind@ == "struct_item"@ {
            rust_named_sym(
                cs,
                i - 1,
                SymbolKind::Struct,
                None,
                struct_fields_upto(body_children(c), body_children(c).len() as int),
            )
        } else if c.kind@ == "enum_item"@ {
            rust_named_sym(
                cs,
                i - 1,
                SymbolKind::Enum,
                None,
                enum_variants_upto(body_children(c), body_children(c).len() as int),
            )
        } else if c.kind@ == "trait_item"@ {
            rust_named_sym(
                cs,
                i - 1,
                SymbolKind::Trait,
                None,
                trait_members_upto(body_children(c), body_children(c).len() as int),
            )
        } else if c.kind@ == "impl_item"@ {
            spec_impl_sym(c)
        } else if c.kind@ == "mod_item"@ {
            match spec_child_by_field(c, "body"@) {
                Some(b) => rust_named_sym(
                    cs,
                    i - 1,
                    SymbolKind::Mod,
                    None,
                    rust_items_upto(b, b.children@.len() as int),
                ),
                None => rust_named_sym(
                    cs,
                    i - 1,
                    SymbolKind::Mod,
                    None,
                    Seq::<SpecSymbol>::empty(),
                ),
            }
        } else if c.kind@ == "type_item"@ {
            rust_named_sym(
                cs,
                i - 1,
                SymbolKind::Type,
                opt_field_text(cs[i - 1], "type"@),
                Seq::<SpecSymbol>::empty(),
            )
        } else if c.kind@ == "const_item"@ || c.kind@ == "static_item"@ {
            rust_named_sym(
                cs,
                i - 1,
                SymbolKind::Const,
                opt_field_text(cs[i - 1], "type"@),
                Seq::<SpecSymbol>::empty(),
            )
        } else {
            Seq::<SpecSymbol>::empty()
        })
    }
}

#[via_fn]
proof fn rust_items_decreases(node: CstNode, i: int) {
    if 0 < i <= node.children@.len() {
        let c = node.children@[i - 1];
        crate::cst::lemma_child_descends(node, i - 1);
        crate::cst::lemma_field_child_descends(c, "body"@);
    }
}

/// An impl block symbol over its members; unnamed impls (no type field text)
/// still carry their rendered name.
pub open spec fn spec_impl_sym(node: CstNode) -> Seq<SpecSymbol> {
    match spec_child_by_field(node, "type"@) {
        None => Seq::<SpecSymbol>::empty(),
        Some(_) => seq![
            SpecSymbol {
                name: spec_impl_name(node),
                kind: SymbolKind::Impl,
                signature: None,
                doc_comment: None,
                start_line: node.spec_start_line(),
                end_line: node.spec_end_line(),
                children: impl_members_upto(body_children(node), body_children(node).len() as int),
                references: Seq::<SpecRef>::empty(),
            },
        ],
    }
}

/// What the Rust extractor yields for a parsed tree.
pub open spec fn spec_rust_extract(root: CstNode) -> Seq<SpecSymbol> {
    rust_items_upto(root, root.children@.len() as int)
}

// ── Executable builders ──

fn build_fn_sym(cs: &Vec<CstNode>, i: usize, method: bool) -> (r: Option<ExtractedSymbol>)
    requires
        i < cs@.len(),
    ensures
        match r {
            Some(s) => seq![sym_view(s)] == rust_fn_sym(cs@, i as int, method),
            None => rust_fn_sym(cs@, i as int, method).len() == 0,
        },
{
    let node = &cs[i];
    let name = match node.field_text("name") {
        Some(t) => t,
        None => {
            return None;
        },
    };
    let sig = build_fn_signature(node);
    let doc = rust_doc(cs, i);
    let refs = match node.child_by_field("body") {
        Some(b) => collect_body_calls(b),
        None => Vec::new(),
    };
    let s = ExtractedSymbol {
        name,
        kind: if method {
            SymbolKind::Method
        } else {
            SymbolKind::Fn
        },
        signature: Some(sig),
        doc_comment: doc,
        start_line: node.start_line(),
        end_line: node.end_line(),
        children: Vec::new(),
        references: refs,
    };
    proof {
        assert(syms_view(s.children@) =~= Seq::<SpecSymbol>::empty());
        assert(refs_view(s.references@) =~= spec_refs_of_body(cs@[i as int]));
        assert(seq![sym_view(s)] =~= rust_fn_sym(cs@, i as int, method));
    }
    Some(s)
}

fn build_named_sym(
    cs: &Vec<CstNode>,
    i: usize,
    kind: SymbolKind,
    sig: Option<String>,
    children: Vec<ExtractedSymbol>,
) -> (r: Option<ExtractedSymbol>)
    requires
        i < cs@.len(),
    ensures
        match r {
            Some(s) => seq![sym_view(s)] == rust_named_sym(
                cs@,
                i as int,
                kind,
                crate::symbols::opt_view(sig),
                syms_view(children@),
            ),
            None => rust_named_sym(
                cs@,
                i as int,
                kind,
                crate::symbols::opt_view(sig),
                syms_view(children@),
            ).len() == 0,
        },
{
    let node = &cs[i];
    let name = match node.field_text("name") {
        Some(t) => t,
        None => {
            return None;
        },
    };
    let doc = rust_doc(cs, i);
    let s = ExtractedSymbol {
        name,
        kind,
        signature: sig,
        doc_comment: doc,
        start_line: node.start_line(),
        end_line: node.end_line(),
        children,
        references: Vec::new(),
    };
    proof {
        assert(refs_view(s.references@) =~= Seq::<SpecRef>::empty());
        assert(seq![sym_view(s)] =~= rust_named_sym(
            cs@,
            i as int,
            kind,
            crate::symbols::opt_view(s.signature),
            syms_view(s.children@),
        ));
    }
    Some(s)
}

/// Appends `extra` (zero or one symbols, view-equal to `part`) onto `v`.
pub fn push_part(v: &mut Vec<ExtractedSymbol>, extra: Option<ExtractedSymbol>, Ghost(part): Ghost<Seq<SpecSymbol>>)
    requires
        match extra {
            Some(s) => seq![sym_view(s)] == part,
            None => part.len() == 0,
        },
    ensures
        syms_view(final(v)@) == syms_view(old(v)@) + part,
{
    match extra {
        Some(s) => {
            let ghost sv = sym_view(s);
            let ghost before = v@;
            v.push(s);
            proof {
                lemma_syms_view_push(before, v@.last());
                assert(syms_view(v@) =~= syms_view(before) + part);
            }
        },
        None => {
            proof {
                assert(syms_view(v@) =~= syms_view(v@) + part);
            }
        },
    }
}

fn build_struct_fields(cs: &Vec<CstNode>, i: usize) -> (r: Vec<ExtractedSymbol>)
    requires
        i <= cs@.len(),
    ensures
        syms_view(r@) == struct_fields_upto(cs@, i as int),
    decreases i,
{
    if i == 0 {
        let r: Vec<ExtractedSymbol> = Vec::new();
        proof {
            assert(syms_view(r@) =~= struct_fields_upto(cs@, 0));
        }
        r
    } else {
        let mut v = build_struct_fields(cs, i - 1);
        let c = &cs[i - 1];
        if c.is_kind("field_declaration") {
            match c.field_text("name") {
                Some(nm) => {
                    let s = ExtractedSymbol {
                        name: nm,
                        kind: SymbolKind::Var,
                        signature: c.field_text("type"),
                        doc_comment: None,
                        start_line: c.start_line(),
                        end_line: c.end_line(),
                        children: Vec::new(),
                        references: Vec::new(),
                    };
                    proof {
                        assert(syms_view(s.children@) =~= Seq::<SpecSymbol>::empty());
                        assert(refs_view(s.references@) =~= Seq::<SpecRef>::empty());
                    }
                    let ghost before = v@;
                    v.push(s);
                    proof {
                        lemma_syms_view_push(before, v@.last());
                        assert(syms_view(v@) =~= struct_fields_upto(cs@, i as int));
                    }
                },
                None => {
                    proof {
                        assert(syms_view(v@) =~= struct_fields_upto(cs@, i as int));
                    }
                },
            }
        } else {
            proof {
                assert(syms_view(v@) =~= struct_fields_upto(cs@, i as int));
            }
        }
        v
    }
}

fn build_enum_variants(cs: &Vec<CstNode>, i: usize) -> (r: Vec<ExtractedSymbol>)
    requires
        i <= cs@.len(),
    ensures
        syms_view(r@) == enum_variants_upto(cs@, i as int),
    decreases i,
{
    if i == 0 {
        let r: Vec<ExtractedSymbol> = Vec::new();
        proof {
            assert(syms_view(r@) =~= enum_variants_upto(cs@, 0));
        }
        r
    } else {
        let mut v = build_enum_variants(cs, i - 1);
        let c = &cs[i - 1];
        if c.is_kind("enum_variant") {
            match c.field_text("name") {
                Some(nm) => {
                    let s = ExtractedSymbol {
                        name: nm,
                        kind: SymbolKind::Const,
                        signature: None,
                        doc_comment: None,
                        start_line: c.start_line(),
                        end_line: c.end_line(),
                        children: Vec::new(),
                        references: Vec::new(),
                    };
                    proof {
                        assert(syms_view(s.children@) =~= Seq::<SpecSymbol>::empty());
                        assert(refs_view(s.references@) =~= Seq::<SpecRef>::empty());
                    }
                    let ghost before = v@;
                    v.push(s);
                    proof {
                        lemma_syms_view_push(before, v@.last());
                        assert(syms_view(v@) =~= enum_variants_upto(cs@, i as int));
                    }
                },
                None => {
                    proof {
                        assert(syms_view(v@) =~= enum_variants_upto(cs@, i as int));
                    }
                },
            }
        } else {
            proof {
                assert(syms_view(v@) =~= enum_variants_upto(cs@, i as int));
            }
        }
        v
    }
}

fn build_trait_members(cs: &Vec<CstNode>, i: usize) -> (r: Vec<ExtractedSymbol>)
    requires
        i <= cs@.len(),
    ensures
        syms_view(r@) == trait_members_upto(cs@, i as int),
    decreases i,
{
    if i == 0 {
        let r: Vec<ExtractedSymbol> = Vec::new();
        proof {
            assert(syms_view(r@) =~= trait_members_upto(cs@, 0));
        }
        r
    } else {
        let mut v = build_trait_members(cs, i - 1);
        let c = &cs[i - 1];
        if c.is_kind("function_item") || c.is_kind("function_signature_item") {
            let part = build_fn_sym(cs, i - 1, true);
            push_part(&mut v, part, Ghost(rust_fn_sym(cs@, i as int - 1, true)));
        }
        proof {
            assert(syms_view(v@) =~= trait_members_upto(cs@, i as int));
        }
        v
    }
}

fn build_impl_members(cs: &Vec<CstNode>, i: usize) -> (r: Vec<ExtractedSymbol>)
    requires
        i <= cs@.len(),
    ensures
        syms_view(r@) == impl_members_upto(cs@, i as int),
    decreases i,
{
    if i == 0 {
        let r: Vec<ExtractedSymbol> = Vec::new();
        proof {
            assert(syms_view(r@) =~= impl_members_upto(cs@, 0));
        }
        r
    } else {
        let mut v = build_impl_members(cs, i - 1);
        let c = &cs[i - 1];
        if c.is_kind("function_item") {
            let part = build_fn_sym(cs, i - 1, true);
            push_part(&mut v, part, Ghost(rust_fn_sym(cs@, i as int - 1, true)));
        } else if c.is_kind("const_item") {
            let sig = c.field_text("type");
            let ghost sv = crate::symbols::opt_view(sig);
            let part = build_named_sym(cs, i - 1, SymbolKind::Const, sig, Vec::new());
            push_part(
                &mut v,
                part,
                Ghost(
                    rust_named_sym(cs@, i as int - 1, SymbolKind::Const, sv, Seq::<SpecSymbol>::empty()),
                ),
            );
        } else if c.is_kind("type_item") {
            let sig = c.field_text("type");
            let ghost sv = crate::symbols::opt_view(sig);
            let part = build_named_sym(cs, i - 1, SymbolKind::Type, sig, Vec::new());
            push_part(
                &mut v,
                part,
                Ghost(
                    rust_named_sym(cs@, i as int - 1, SymbolKind::Type, sv, Seq::<SpecSymbol>::empty()),
                ),
            );
        }
        proof {
            assert(syms_view(v@) =~= impl_members_upto(cs@, i as int));
        }
        v
    }
}

fn build_impl_sym(c: &CstNode) -> (r: Option<ExtractedSymbol>)
    ensures
        match r {
            Some(s) => seq![sym_view(s)] == spec_impl_sym(*c),
            None => spec_impl_sym(*c).len() == 0,
        },
{
    let ty = match c.field_text("type") {
        Some(t) => t,
        None => {
            return None;
        },
    };
    let name = match c.child_by_field("trait") {
        Some(t) => {
            let mut s = t.text.clone();
            s.append(" for ");
            s.append(ty.as_str());
            proof {
                assert(s@ =~= spec_impl_name(*c));
            }
            s
        },
        None => ty,
    };
    let children = match c.child_by_field("body") {
        Some(b) => {
            let n = b.children.len();
            let v = build_impl_members(&b.children, n);
            proof {
                assert(body_children(*c) == b.children@);
            }
            v
        },
        None => {
            let v: Vec<ExtractedSymbol> = Vec::new();
            proof {
                assert(body_children(*c) =~= Seq::<CstNode>::empty());
                assert(syms_view(v@) =~= impl_members_upto(body_children(*c), 0));
            }
            v
        },
    };
    let s = ExtractedSymbol {
        name,
        kind: SymbolKind::Impl,
        signature: None,
        doc_comment: None,
        start_line: c.start_line(),
        end_line: c.end_line(),
        children,
        references: Vec::new(),
    };
    proof {
        assert(refs_view(s.references@) =~= Seq::<SpecRef>::empty());
        assert(seq![sym_view(s)] =~= spec_impl_sym(*c));
    }
    Some(s)
}

fn build_items_upto(node: &CstNode, i: usize) -> (r: Vec<ExtractedSymbol>)
    requires
        i <= node.children@.len(),
    ensures
        syms_view(r@) == rust_items_upto(*node, i as int),
    decreases *node, i,
{
    if i == 0 {
        let r: Vec<ExtractedSymbol> = Vec::new();
        proof {
            assert(syms_view(r@) =~= rust_items_upto(*node, 0));
        }
        r
    } else {
        let mut v = build_items_upto(node, i - 1);
        let cs = &node.children;
        let c = &cs[i - 1];
        let ghost csv = node.children@;
        if c.is_kind("function_item") {
            let part = build_fn_sym(cs, i - 1, false);
            push_part(&mut v, part, Ghost(rust_fn_sym(csv, i as int - 1, false)));
        } else if c.is_kind("struct_item") {
            let children = match c.child_by_field("body") {
                Some(b) => {
                    let bn = b.children.len();
                    build_struct_fields(&b.children, bn)
                },
                None => {
                    let e: Vec<ExtractedSymbol> = Vec::new();
                    proof {
                        assert(body_children(csv[i as int - 1]) =~= Seq::<CstNode>::empty());
                        assert(syms_view(e@) =~= struct_fields_upto(
                            body_children(csv[i as int - 1]),
                            0,
                        ));
                    }
                    e
                },
            };
            let ghost cv = syms_view(children@);
            let part = build_named_sym(cs, i - 1, SymbolKind::Struct, None, children);
            push_part(
                &mut v,
                part,
                Ghost(rust_named_sym(csv, i as int - 1, SymbolKind::Struct, None, cv)),
            );
        } else if c.is_kind("enum_item") {
            let children = match c.child_by_field("body") {
                Some(b) => {
                    let bn = b.children.len();
                    build_enum_variants(&b.children, bn)
                },
                None => {
                    let e: Vec<ExtractedSymbol> = Vec::new();
                    proof {
                        assert(body_children(csv[i as int - 1]) =~= Seq::<CstNode>::empty());
                        assert(syms_view(e@) =~= enum_variants_upto(
                            body_children(csv[i as int - 1]),
                            0,
                        ));
                    }
                    e
                },
            };
            let ghost cv = syms_view(children@);
            let part = build_named_sym(cs, i - 1, SymbolKind::Enum, None, children);
            push_part(
                &mut v,
                part,
                Ghost(rust_named_sym(csv, i as int - 1, SymbolKind::Enum, None, cv)),
            );
        } else if c.is_kind("trait_item") {
            let children = match c.child_by_field("body") {
                Some(b) => {
                    let bn = b.children.len();
                    build_trait_members(&b.children, bn)
                },
                None => {
                    let e: Vec<ExtractedSymbol> = Vec::new();
                    proof {
                        assert(body_children(csv[i as int - 1]) =~= Seq::<CstNode>::empty());
                        assert(syms_view(e@) =~= trait_members_upto(
                            body_children(csv[i as int - 1]),
                            0,
                        ));
                    }
                    e
                },
            };
            let ghost cv = syms_view(children@);
            let part = build_named_sym(cs, i - 1, SymbolKind::Trait, None, children);
            push_part(
                &mut v,
                part,
                Ghost(rust_named_sym(csv, i as int - 1, SymbolKind::Trait, None, cv)),
            );
        } else if c.is_kind("impl_item") {
            let part = build_impl_sym(c);
            push_part(&mut v, part, Ghost(spec_impl_sym(csv[i as int - 1])));
        } else if c.is_kind("mod_item") {
            let children = match c.child_by_field("body") {
                Some(b) => {
                    proof {
                        crate::cst::lemma_child_descends(*node, i as int - 1);
                        crate::cst::lemma_field_child_descends(csv[i as int - 1], "body"@);
                        assert(decreases_to!(*node => *b));
                    }
                    let bn = b.children.len();
                    build_items_upto(b, bn)
                },
                None => Vec::new(),
            };
            let ghost cv = syms_view(children@);
            proof {
                if spec_child_by_field(csv[i as int - 1], "body"@) is None {
                    assert(cv =~= Seq::<SpecSymbol>::empty());
                }
            }
            let part = build_named_sym(cs, i - 1, SymbolKind::Mod, None, children);
            push_part(
                &mut v,
                part,
                Ghost(rust_named_sym(csv, i as int - 1, SymbolKind::Mod, None, cv)),
            );
        } else if c.is_kind("type_item") {
            let sig = c.field_text("type");
            let ghost sv = crate::symbols::opt_view(sig);
            let part = build_named_sym(cs, i - 1, SymbolKind::Type, sig, Vec::new());
            push_part(
                &mut v,
                part,
                Ghost(
                    rust_named_sym(csv, i as int - 1, SymbolKind::Type, sv, Seq::<SpecSymbol>::empty()),
                ),
            );
        } else if c.is_kind("const_item") || c.is_kind("static_item") {
            let sig = c.field_text("type");
            let ghost sv = crate::symbols::opt_view(sig);
            let part = build_named_sym(cs, i - 1, SymbolKind::Const, sig, Vec::new());
            push_part(
                &mut v,
                part,
                Ghost(
                    rust_named_sym(csv, i as int - 1, SymbolKind::Const, sv, Seq::<SpecSymbol>::empty()),
                ),
            );
        }
        proof {
            assert(syms_view(v@) =~= rust_items_upto(*node, i as int));
        }
        v
    }
}

/// Extracts symbols from a Rust syntax tree.
pub struct RustExtractor;

impl RustExtractor {
    /// The top-level items of the parsed file, with their members.
    pub fn extract(&self, root: &CstNode) -> (r: Vec<ExtractedSymbol>)
        ensures
            syms_view(r@) == spec_rust_extract(*root),
    {
        let n = root.children.len();
        build_items_upto(root, n)
    }
}

} // verus!
