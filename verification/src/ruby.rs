//! The Ruby extractor: methods and singleton methods, classes with
//! superclass and `include`/`extend` references, modules, constants, and
//! call references with `require` imports.

use vstd::prelude::*;

use crate::cst::{spec_child_by_field, CstNode};
use crate::strutil::{spec_join_char, spec_strip_leading, spec_trim};
use crate::strutil::{join_char, strip_leading, trim};
use crate::symbols::{
    refs_view, sym_view, syms_view, ExtractedRef, ExtractedSymbol, RefKind, SpecRef, SpecSymbol,
    SymbolKind,
};
use crate::rust_lang::push_part;

verus! {

broadcast use vstd::std_specs::vec::axiom_vec_decreases_to_view;

// ── Doc comments: a contiguous run of `#` comments right above the item ──

/// One comment line with `#` markers dropped and the rest trimmed.
pub open spec fn rb_doc_clean(t: Seq<char>) -> Seq<char> {
    spec_trim(spec_strip_leading(t, '#'))
}

/// The cleaned comment lines of the contiguous run ending just before child
/// `i`, in source order.
pub open spec fn rb_doc_run(cs: Seq<CstNode>, i: int) -> Seq<Seq<char>>
    decreases i,
{
    if 0 < i <= cs.len() && cs[i - 1].kind@ == "comment"@ {
        rb_doc_run(cs, i - 1).push(rb_doc_clean(cs[i - 1].text@))
    } else {
        Seq::<Seq<char>>::empty()
    }
}

/// The doc comment attached to child `i`, if a comment run precedes it.
pub open spec fn spec_rb_doc(cs: Seq<CstNode>, i: int) -> Option<Seq<char>> {
    let ls = rb_doc_run(cs, i);
    if ls.len() == 0 {
        None
    } else {
        Some(spec_join_char(ls, '\n'))
    }
}

fn rb_doc_lines(cs: &Vec<CstNode>, i: usize) -> (r: Vec<String>)
    requires
        i <= cs@.len(),
    ensures
        r.deep_view() == rb_doc_run(cs@, i as int),
    decreases i,
{
    if i > 0 && cs[i - 1].is_kind("comment") {
        let mut v = rb_doc_lines(cs, i - 1);
        let stripped = strip_leading(cs[i - 1].text.as_str(), '#');
        let ghost before = v.deep_view();
        v.push(trim(stripped.as_str()));
        proof {
            assert(v.deep_view() =~= before.push(rb_doc_clean(cs@[i as int - 1].text@)));
        }
        v
    } else {
        let v: Vec<String> = Vec::new();
        proof {
            assert(v.deep_view() =~= Seq::<Seq<char>>::empty());
        }
        v
    }
}

fn rb_doc(cs: &Vec<CstNode>, i: usize) -> (r: Option<String>)
    requires
        i <= cs@.len(),
    ensures
        crate::symbols::opt_view(r) == spec_rb_doc(cs@, i as int),
{
    let ls = rb_doc_lines(cs, i);
    if ls.len() == 0 {
        None
    } else {
        proof {
            assert(ls.deep_view().len() == ls@.len());
        }
        Some(join_char(&ls, '\n'))
    }
}

// ── Call references ──

/// The name a Ruby call renders as: `receiver.method` or the bare method.
pub open spec fn spec_rb_call_name(n: CstNode) -> Seq<char> {
    match (spec_child_by_field(n, "receiver"@), spec_child_by_field(n, "method"@)) {
        (Some(rcv), Some(m)) => rcv.text@ + seq!['.'] + m.text@,
        (None, Some(m)) => m.text@,
        _ => Seq::<char>::empty(),
    }
}

/// The reference a single Ruby node contributes: `require` and
/// `require_relative` count as imports, other calls as calls.
pub open spec fn spec_rb_own_refs(n: CstNode) -> Seq<SpecRef> {
    if n.kind@ == "call"@ && spec_child_by_field(n, "method"@) is Some {
        let nm = spec_rb_call_name(n);
        if nm.len() > 0 {
            let kind = if nm == "require"@ || nm == "require_relative"@ {
                RefKind::Import
            } else {
                RefKind::Call
            };
            seq![SpecRef { name: nm, kind, line: n.spec_start_line() }]
        } else {
            Seq::<SpecRef>::empty()
        }
    } else {
        Seq::<SpecRef>::empty()
    }
}

/// All references under a Ruby node forest, in pre-order.
pub open spec fn spec_rb_calls_in(cs: Seq<CstNode>) -> Seq<SpecRef>
    decreases cs,
{
    if cs.len() == 0 {
        Seq::<SpecRef>::empty()
    } else {
        spec_rb_calls_in(cs.drop_last()) + spec_rb_own_refs(cs.last()) + spec_rb_calls_in(
            cs.last().children@,
        )
    }
}

/// All references of a body node, itself included.
pub open spec fn spec_rb_body_calls(body: CstNode) -> Seq<SpecRef> {
    spec_rb_own_refs(body) + spec_rb_calls_in(body.children@)
}

fn rb_push_own_refs(n: &CstNode, out: &mut Vec<ExtractedRef>)
    ensures
        refs_view(final(out)@) == refs_view(old(out)@) + spec_rb_own_refs(*n),
{
    let ghost r0 = refs_view(out@);
    if n.is_kind("call") {
        match n.child_by_field("method") {
            Some(m) => {
                let nm = match n.child_by_field("receiver") {
                    Some(rcv) => {
                        let mut s = rcv.text.clone();
                        s.push('.');
                        s.append(m.text.as_str());
                        proof {
                            assert(s@ =~= spec_rb_call_name(*n));
                        }
                        s
                    },
                    None => m.text.clone(),
                };
                if nm.as_str().unicode_len() > 0 {
                    let kind = if crate::strutil::str_eq(nm.as_str(), "require")
                        || crate::strutil::str_eq(nm.as_str(), "require_relative") {
                        RefKind::Import
                    } else {
                        RefKind::Call
                    };
                    out.push(ExtractedRef { name: nm, kind, line: n.start_line() });
                }
            },
            None => {},
        }
    }
    proof {
        assert(refs_view(out@) =~= r0 + spec_rb_own_refs(*n));
    }
}

fn rb_collect_calls_in(cs: &Vec<CstNode>, out: &mut Vec<ExtractedRef>)
    ensures
        refs_view(final(out)@) == refs_view(old(out)@) + spec_rb_calls_in(cs@),
    decreases cs@,
{
    let n = cs.len();
    let mut i: usize = 0;
    proof {
        assert(refs_view(out@) =~= refs_view(old(out)@) + spec_rb_calls_in(cs@.take(0)));
    }
    while i < n
        invariant
            n == cs@.len(),
            i <= n,
            refs_view(out@) == refs_view(old(out)@) + spec_rb_calls_in(cs@.take(i as int)),
        decreases n - i,
    {
        proof {
            assert(cs@.take(i + 1).drop_last() =~= cs@.take(i as int));
            assert(cs@.take(i + 1).last() == cs@[i as int]);
        }
        rb_push_own_refs(&cs[i], out);
        rb_collect_calls_in(&cs[i].children, out);
        proof {
            assert(refs_view(out@) =~= refs_view(old(out)@) + spec_rb_calls_in(cs@.take(i + 1)));
        }
        i = i + 1;
    }
    proof {
        assert(cs@.take(n as int) =~= cs@);
    }
}

fn rb_body_calls(node: &CstNode) -> (r: Vec<ExtractedRef>)
    ensures
        refs_view(r@) == (match spec_child_by_field(*node, "body"@) {
            Some(b) => spec_rb_body_calls(b),
            None => Seq::<SpecRef>::empty(),
        }),
{
    let mut out: Vec<ExtractedRef> = Vec::new();
    proof {
        assert(refs_view(out@) =~= Seq::<SpecRef>::empty());
    }
    match node.child_by_field("body") {
        Some(b) => {
            rb_push_own_refs(b, &mut out);
            rb_collect_calls_in(&b.children, &mut out);
        },
        None => {},
    }
    out
}

// ── Methods and constants ──

/// A method symbol: top-level methods are functions, in-class ones methods.
pub open spec fn spec_rb_method(cs: Seq<CstNode>, i: int, in_class: bool) -> Seq<SpecSymbol> {
    let node = cs[i];
    match spec_child_by_field(node, "name"@) {
        None => Seq::<SpecSymbol>::empty(),
        Some(nm) => seq![
            SpecSymbol {
                name: nm.text@,
                kind: if in_class {
                    SymbolKind::Method
                } else {
                    SymbolKind::Fn
                },
                signature: crate::rust_lang::opt_field_text(node, "parameters"@),
                doc_comment: spec_rb_doc(cs, i),
                start_line: node.spec_start_line(),
                end_line: node.spec_end_line(),
                children: Seq::<SpecSymbol>::empty(),
                references: match spec_child_by_field(node, "body"@) {
                    Some(b) => spec_rb_body_calls(b),
                    None => Seq::<SpecRef>::empty(),
                },
            },
        ],
    }
}

/// A singleton method symbol, rendered `object.name`.
pub open spec fn spec_rb_singleton(cs: Seq<CstNode>, i: int) -> Seq<SpecSymbol> {
    let node = cs[i];
    match spec_child_by_field(node, "name"@) {
        None => Seq::<SpecSymbol>::empty(),
        Some(nm) => seq![
            SpecSymbol {
                name: match spec_child_by_field(node, "object"@) {
                    Some(o) => if o.text@.len() == 0 {
                        nm.text@
                    } else {
                        o.text@ + seq!['.'] + nm.text@
                    },
                    None => nm.text@,
                },
                kind: SymbolKind::Method,
                signature: crate::rust_lang::opt_field_text(node, "parameters"@),
                doc_comment: spec_rb_doc(cs, i),
                start_line: node.spec_start_line(),
                end_line: node.spec_end_line(),
                children: Seq::<SpecSymbol>::empty(),
                references: match spec_child_by_field(node, "body"@) {
                    Some(b) => spec_rb_body_calls(b),
                    None => Seq::<SpecRef>::empty(),
                },
            },
        ],
    }
}

/// A Ruby constant name: its first character is an upper-case ASCII letter.
pub open spec fn spec_is_rb_constant(s: Seq<char>) -> bool {
    s.len() > 0 && crate::strutil::is_ascii_upper(s[0])
}

/// True when the identifier names a Ruby constant.
pub fn is_ruby_constant(name: &str) -> (r: bool)
    ensures
        r == spec_is_rb_constant(name@),
{
    let n = name.unicode_len();
    if n == 0 {
        return false;
    }
    let c = name.get_char(0);
    'A' <= c && c <= 'Z'
}

/// The constant symbol an `assignment` yields when its left side is a
/// constant-cased name.
pub open spec fn spec_rb_constant(node: CstNode) -> Seq<SpecSymbol> {
    match spec_child_by_field(node, "left"@) {
        None => Seq::<SpecSymbol>::empty(),
        Some(l) => if (l.kind@ == "constant"@ || l.kind@ == "identifier"@ || l.kind@
            == "scope_resolution"@) && spec_is_rb_constant(l.text@) {
            seq![
                SpecSymbol {
                    name: l.text@,
                    kind: SymbolKind::Const,
                    signature: None,
                    doc_comment: None,
                    start_line: node.spec_start_line(),
                    end_line: node.spec_end_line(),
                    children: Seq::<SpecSymbol>::empty(),
                    references: Seq::<SpecRef>::empty(),
                },
            ]
        } else {
            Seq::<SpecSymbol>::empty()
        },
    }
}

fn build_rb_method(cs: &Vec<CstNode>, i: usize, in_class: bool) -> (r: Option<ExtractedSymbol>)
    requires
        i < cs@.len(),
    ensures
        match r {
            Some(s) => seq![sym_view(s)] == spec_rb_method(cs@, i as int, in_class),
            None => spec_rb_method(cs@, i as int, in_class).len() == 0,
        },
{
    let node = &cs[i];
    let name = match node.field_text("name") {
        Some(t) => t,
        None => {
            return None;
        },
    };
    let s = ExtractedSymbol {
        name,
        kind: if in_class {
            SymbolKind::Method
        } else {
            SymbolKind::Fn
        },
        signature: node.field_text("parameters"),
        doc_comment: rb_doc(cs, i),
        start_line: node.start_line(),
        end_line: node.end_line(),
        children: Vec::new(),
        references: rb_body_calls(node),
    };
    proof {
        assert(syms_view(s.children@) =~= Seq::<SpecSymbol>::empty());
        assert(seq![sym_view(s)] =~= spec_rb_method(cs@, i as int, in_class));
    }
    Some(s)
}

fn build_rb_singleton(cs: &Vec<CstNode>, i: usize) -> (r: Option<ExtractedSymbol>)
    requires
        i < cs@.len(),
    ensures
        match r {
            Some(s) => seq![sym_view(s)] == spec_rb_singleton(cs@, i as int),
            None => spec_rb_singleton(cs@, i as int).len() == 0,
        },
{
    let node = &cs[i];
    let name = match node.field_text("name") {
        Some(t) => t,
        None => {
            return None;
        },
    };
    let full_name = match node.field_text("object") {
        Some(o) => {
            if o.as_str().unicode_len() == 0 {
                name
            } else {
                let mut s = o;
                s.push('.');
                s.append(name.as_str());
                s
            }
        },
        None => name,
    };
    let s = ExtractedSymbol {
        name: full_name,
        kind: SymbolKind::Method,
        signature: node.field_text("parameters"),
        doc_comment: rb_doc(cs, i),
        start_line: node.start_line(),
        end_line: node.end_line(),
        children: Vec::new(),
        references: rb_body_calls(node),
    };
    proof {
        assert(syms_view(s.children@) =~= Seq::<SpecSymbol>::empty());
        assert(s.name@ =~= spec_rb_singleton(cs@, i as int)[0].name);
        assert(seq![sym_view(s)] =~= spec_rb_singleton(cs@, i as int));
    }
    Some(s)
}

fn build_rb_constant(node: &CstNode) -> (r: Option<ExtractedSymbol>)
    ensures
        match r {
            Some(s) => seq![sym_view(s)] == spec_rb_constant(*node),
            None => spec_rb_constant(*node).len() == 0,
        },
{
    let l = match node.child_by_field("left") {
        Some(l) => l,
        None => {
            return None;
        },
    };
    if !(l.is_kind("constant") || l.is_kind("identifier") || l.is_kind("scope_resolution")) {
        return None;
    }
    if !is_ruby_constant(l.text.as_str()) {
        return None;
    }
    let s = ExtractedSymbol {
        name: l.text.clone(),
        kind: SymbolKind::Const,
        signature: None,
        doc_comment: None,
        start_line: node.start_line(),
        end_line: node.end_line(),
        children: Vec::new(),
        references: Vec::new(),
    };
    proof {
        assert(syms_view(s.children@) =~= Seq::<SpecSymbol>::empty());
        assert(refs_view(s.references@) =~= Seq::<SpecRef>::empty());
        assert(seq![sym_view(s)] =~= spec_rb_constant(*node));
    }
    Some(s)
}

// ── Class bodies ──

/// The `extends` references an `include`/`extend` call contributes: its
/// constant arguments.
pub open spec fn spec_rb_mixin_args_upto(cs: Seq<CstNode>, i: int) -> Seq<SpecRef>
    decreases i,
{
    if i <= 0 || i > cs.len() {
        Seq::<SpecRef>::empty()
    } else {
        spec_rb_mixin_args_upto(cs, i - 1) + (if cs[i - 1].kind@ == "constant"@ || cs[i - 1].kind@
            == "scope_resolution"@ {
            seq![
                SpecRef {
                    name: cs[i - 1].text@,
                    kind: RefKind::Extends,
                    line: cs[i - 1].spec_start_line(),
                },
            ]
        } else {
            Seq::<SpecRef>::empty()
        })
    }
}

/// The `extends` references one class-body child contributes: the constant
/// arguments of an `include` or `extend` call.
pub open spec fn spec_rb_member_refs(c: CstNode) -> Seq<SpecRef> {
    if c.kind@ == "call"@ {
        match spec_child_by_field(c, "method"@) {
            Some(m) => if m.text@ == "include"@ || m.text@ == "extend"@ {
                match spec_child_by_field(c, "arguments"@) {
                    Some(args) => spec_rb_mixin_args_upto(args.children@, args.children@.len() as int),
                    None => Seq::<SpecRef>::empty(),
                }
            } else {
                Seq::<SpecRef>::empty()
            },
            None => Seq::<SpecRef>::empty(),
        }
    } else {
        Seq::<SpecRef>::empty()
    }
}

/// The member symbols of a class or module body, in order.
pub open spec fn spec_rb_members_upto(cs: Seq<CstNode>, i: int) -> Seq<SpecSymbol>
    decreases i,
{
    if i <= 0 || i > cs.len() {
        Seq::<SpecSymbol>::empty()
    } else {
        let c = cs[i - 1];
        spec_rb_members_upto(cs, i - 1) + (if c.kind@ == "method"@ {
            spec_rb_method(cs, i - 1, true)
        } else if c.kind@ == "singleton_method"@ {
            spec_rb_singleton(cs, i - 1)
        } else if c.kind@ == "assignment"@ {
            spec_rb_constant(c)
        } else {
            Seq::<SpecSymbol>::empty()
        })
    }
}

/// The mixin references of a class or module body, in order.
pub open spec fn spec_rb_body_refs_upto(cs: Seq<CstNode>, i: int) -> Seq<SpecRef>
    decreases i,
{
    if i <= 0 || i > cs.len() {
        Seq::<SpecRef>::empty()
    } else {
        spec_rb_body_refs_upto(cs, i - 1) + spec_rb_member_refs(cs[i - 1])
    }
}

fn build_rb_mixin_args(cs: &Vec<CstNode>, i: usize, out: &mut Vec<ExtractedRef>)
    requires
        i <= cs@.len(),
    ensures
        refs_view(final(out)@) == refs_view(old(out)@) + spec_rb_mixin_args_upto(cs@, i as int),
    decreases i,
{
    if i == 0 {
        proof {
            assert(refs_view(out@) =~= refs_view(out@) + spec_rb_mixin_args_upto(cs@, 0));
        }
        return;
    }
    build_rb_mixin_args(cs, i - 1, out);
    let c = &cs[i - 1];
    if c.is_kind("constant") || c.is_kind("scope_resolution") {
        let ghost before = out@;
        out.push(ExtractedRef { name: c.text.clone(), kind: RefKind::Extends, line: c.start_line() });
        proof {
            assert(refs_view(out@) =~= refs_view(before).push(crate::symbols::ref_view(out@.last())));
        }
    }
    proof {
        assert(refs_view(out@) =~= refs_view(old(out)@) + spec_rb_mixin_args_upto(cs@, i as int));
    }
}

fn push_rb_member_refs(c: &CstNode, out: &mut Vec<ExtractedRef>)
    ensures
        refs_view(final(out)@) == refs_view(old(out)@) + spec_rb_member_refs(*c),
{
    let ghost r0 = refs_view(out@);
    if c.is_kind("call") {
        match c.child_by_field("method") {
            Some(m) => {
                if crate::strutil::str_eq(m.text.as_str(), "include") || crate::strutil::str_eq(
                    m.text.as_str(),
                    "extend",
                ) {
                    match c.child_by_field("arguments") {
                        Some(args) => {
                            let n = args.children.len();
                            build_rb_mixin_args(&args.children, n, out);
                        },
                        None => {},
                    }
                }
            },
            None => {},
        }
    }
    proof {
        assert(refs_view(out@) =~= r0 + spec_rb_member_refs(*c));
    }
}

fn build_rb_body(cs: &Vec<CstNode>, i: usize, syms: &mut Vec<ExtractedSymbol>, refs: &mut Vec<
    ExtractedRef,
>)
    requires
        i <= cs@.len(),
    ensures
        syms_view(final(syms)@) == syms_view(old(syms)@) + spec_rb_members_upto(cs@, i as int),
        refs_view(final(refs)@) == refs_view(old(refs)@) + spec_rb_body_refs_upto(cs@, i as int),
    decreases i,
{
    if i == 0 {
        proof {
            assert(syms_view(syms@) =~= syms_view(syms@) + spec_rb_members_upto(cs@, 0));
            assert(refs_view(refs@) =~= refs_view(refs@) + spec_rb_body_refs_upto(cs@, 0));
        }
        return;
    }
    build_rb_body(cs, i - 1, syms, refs);
    let c = &cs[i - 1];
    if c.is_kind("method") {
        let part = build_rb_method(cs, i - 1, true);
        push_part(syms, part, Ghost(spec_rb_method(cs@, i as int - 1, true)));
    } else if c.is_kind("singleton_method") {
        let part = build_rb_singleton(cs, i - 1);
        push_part(syms, part, Ghost(spec_rb_singleton(cs@, i as int - 1)));
    } else if c.is_kind("assignment") {
        let part = build_rb_constant(c);
        push_part(syms, part, Ghost(spec_rb_constant(cs@[i as int - 1])));
    }
    push_rb_member_refs(c, refs);
    proof {
        assert(syms_view(syms@) =~= syms_view(old(syms)@) + spec_rb_members_upto(cs@, i as int));
        assert(refs_view(refs@) =~= refs_view(old(refs)@) + spec_rb_body_refs_upto(cs@, i as int));
    }
}

// ── Classes and modules ──

/// The superclass reference of a class node: the first constant under its
/// `superclass` field.
pub open spec fn spec_rb_superclass(node: CstNode) -> Seq<SpecRef> {
    match spec_child_by_field(node, "superclass"@) {
        None => Seq::<SpecRef>::empty(),
        Some(sc) => match first_constant_from(sc.children@, 0) {
            Some(j) => seq![
                SpecRef {
                    name: sc.children@[j].text@,
                    kind: RefKind::Extends,
                    line: sc.children@[j].spec_start_line(),
                },
            ],
            None => Seq::<SpecRef>::empty(),
        },
    }
}

/// The first constant or scope resolution at or after `i`.
pub open spec fn first_constant_from(cs: Seq<CstNode>, i: int) -> Option<int>
    decreases cs.len() - i,
{
    if !(0 <= i < cs.len()) {
        None
    } else if cs[i].kind@ == "constant"@ || cs[i].kind@ == "scope_resolution"@ {
        Some(i)
    } else {
        first_constant_from(cs, i + 1)
    }
}

fn build_rb_superclass(node: &CstNode, out: &mut Vec<ExtractedRef>)
    ensures
        refs_view(final(out)@) == refs_view(old(out)@) + spec_rb_superclass(*node),
{
    let ghost r0 = refs_view(out@);
    match node.child_by_field("superclass") {
        Some(sc) => {
            let n = sc.children.len();
            let mut i: usize = 0;
            while i < n
                invariant
                    n == sc.children@.len(),
                    i <= n,
                    refs_view(out@) == r0,
                    r0 == refs_view(old(out)@),
                    *sc == spec_child_by_field(*node, "superclass"@)->Some_0,
                    spec_child_by_field(*node, "superclass"@) is Some,
                    first_constant_from(sc.children@, 0) == first_constant_from(
                        sc.children@,
                        i as int,
                    ),
                decreases n - i,
            {
                let c = &sc.children[i];
                if c.is_kind("constant") || c.is_kind("scope_resolution") {
                    proof {
                        assert(first_constant_from(sc.children@, i as int) == Some(i as int));
                    }
                    let ghost before = out@;
                    out.push(
                        ExtractedRef {
                            name: c.text.clone(),
                            kind: RefKind::Extends,
                            line: c.start_line(),
                        },
                    );
                    proof {
                        assert(refs_view(out@) =~= refs_view(before).push(
                            crate::symbols::ref_view(out@.last()),
                        ));
                        assert(refs_view(out@) =~= r0 + spec_rb_superclass(*node));
                    }
                    return;
                }
                i = i + 1;
            }
            proof {
                assert(refs_view(out@) =~= r0 + spec_rb_superclass(*node));
            }
        },
        None => {
            proof {
                assert(refs_view(out@) =~= r0 + spec_rb_superclass(*node));
            }
        },
    }
}

/// A class or module symbol: superclass and mixin references, members as
/// children.
pub open spec fn spec_rb_container(cs: Seq<CstNode>, i: int, kind: SymbolKind) -> Seq<SpecSymbol> {
    let node = cs[i];
    match spec_child_by_field(node, "name"@) {
        None => Seq::<SpecSymbol>::empty(),
        Some(nm) => seq![
            SpecSymbol {
                name: nm.text@,
                kind,
                signature: None,
                doc_comment: spec_rb_doc(cs, i),
                start_line: node.spec_start_line(),
                end_line: node.spec_end_line(),
                children: match spec_child_by_field(node, "body"@) {
                    Some(b) => spec_rb_members_upto(b.children@, b.children@.len() as int),
                    None => Seq::<SpecSymbol>::empty(),
                },
                references: (if kind is Class {
                    spec_rb_superclass(node)
                } else {
                    Seq::<SpecRef>::empty()
                }) + (match spec_child_by_field(node, "body"@) {
                    Some(b) => spec_rb_body_refs_upto(b.children@, b.children@.len() as int),
                    None => Seq::<SpecRef>::empty(),
                }),
            },
        ],
    }
}

fn build_rb_container(cs: &Vec<CstNode>, i: usize, kind: SymbolKind) -> (r: Option<
    ExtractedSymbol,
>)
    requires
        i < cs@.len(),
        kind == SymbolKind::Class || kind == SymbolKind::Mod,
    ensures
        match r {
            Some(s) => seq![sym_view(s)] == spec_rb_container(cs@, i as int, kind),
            None => spec_rb_container(cs@, i as int, kind).len() == 0,
        },
{
    let node = &cs[i];
    let name = match node.field_text("name") {
        Some(t) => t,
        None => {
            return None;
        },
    };
    let mut refs: Vec<ExtractedRef> = Vec::new();
    proof {
        assert(refs_view(refs@) =~= Seq::<SpecRef>::empty());
    }
    if matches!(kind, SymbolKind::Class) {
        build_rb_superclass(node, &mut refs);
    }
    let mut children: Vec<ExtractedSymbol> = Vec::new();
    proof {
        assert(syms_view(children@) =~= Seq::<SpecSymbol>::empty());
    }
    match node.child_by_field("body") {
        Some(b) => {
            let n = b.children.len();
            build_rb_body(&b.children, n, &mut children, &mut refs);
        },
        None => {},
    }
    let s = ExtractedSymbol {
        name,
        kind,
        signature: None,
        doc_comment: rb_doc(cs, i),
        start_line: node.start_line(),
        end_line: node.end_line(),
        children,
        references: refs,
    };
    proof {
        assert(refs_view(s.references@) =~= spec_rb_container(cs@, i as int, kind)[0].references);
        assert(seq![sym_view(s)] =~= spec_rb_container(cs@, i as int, kind));
    }
    Some(s)
}

/// The top-level symbols of a Ruby file.
pub open spec fn spec_rb_top_upto(cs: Seq<CstNode>, i: int) -> Seq<SpecSymbol>
    decreases i,
{
    if i <= 0 || i > cs.len() {
        Seq::<SpecSymbol>::empty()
    } else {
        let c = cs[i - 1];
        spec_rb_top_upto(cs, i - 1) + (if c.kind@ == "method"@ {
            spec_rb_method(cs, i - 1, false)
        } else if c.kind@ == "singleton_method"@ {
            spec_rb_singleton(cs, i - 1)
        } else if c.kind@ == "class"@ {
            spec_rb_container(cs, i - 1, SymbolKind::Class)
        } else if c.kind@ == "module"@ {
            spec_rb_container(cs, i - 1, SymbolKind::Mod)
        } else if c.kind@ == "assignment"@ {
            spec_rb_constant(c)
        } else {
            Seq::<SpecSymbol>::empty()
        })
    }
}

/// What the Ruby extractor yields for a parsed tree.
pub open spec fn spec_rb_extract(root: CstNode) -> Seq<SpecSymbol> {
    spec_rb_top_upto(root.children@, root.children@.len() as int)
}

fn build_rb_top(cs: &Vec<CstNode>, i: usize) -> (r: Vec<ExtractedSymbol>)
    requires
        i <= cs@.len(),
    ensures
        syms_view(r@) == spec_rb_top_upto(cs@, i as int),
    decreases i,
{
    if i == 0 {
        let r: Vec<ExtractedSymbol> = Vec::new();
        proof {
            assert(syms_view(r@) =~= spec_rb_top_upto(cs@, 0));
        }
        r
    } else {
        let mut v = build_rb_top(cs, i - 1);
        let c = &cs[i - 1];
        if c.is_kind("method") {
            let part = build_rb_method(cs, i - 1, false);
            push_part(&mut v, part, Ghost(spec_rb_method(cs@, i as int - 1, false)));
        } else if c.is_kind("singleton_method") {
            let part = build_rb_singleton(cs, i - 1);
            push_part(&mut v, part, Ghost(spec_rb_singleton(cs@, i as int - 1)));
        } else if c.is_kind("class") {
            let part = build_rb_container(cs, i - 1, SymbolKind::Class);
            push_part(&mut v, part, Ghost(spec_rb_container(cs@, i as int - 1, SymbolKind::Class)));
        } else if c.is_kind("module") {
            let part = build_rb_container(cs, i - 1, SymbolKind::Mod);
            push_part(&mut v, part, Ghost(spec_rb_container(cs@, i as int - 1, SymbolKind::Mod)));
        } else if c.is_kind("assignment") {
            let part = build_rb_constant(c);
            push_part(&mut v, part, Ghost(spec_rb_constant(cs@[i as int - 1])));
        }
        proof {
            assert(syms_view(v@) =~= spec_rb_top_upto(cs@, i as int));
        }
        v
    }
}

/// Extracts symbols from a Ruby syntax tree.
pub struct RubyExtractor;

impl RubyExtractor {
    /// The top-level definitions of the parsed file, with nested members.
    pub fn extract(&self, root: &CstNode) -> (r: Vec<ExtractedSymbol>)
        ensures
            syms_view(r@) == spec_rb_extract(*root),
    {
        let n = root.children.len();
        build_rb_top(&root.children, n)
    }
}

} // verus!
