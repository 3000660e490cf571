//! The extracted-symbol data model shared by all language extractors.

use vstd::prelude::*;

verus! {

broadcast use vstd::std_specs::vec::axiom_vec_decreases_to_view;

/// The kind of a named program entity.
#[derive(Debug, Clone, Copy, PartialEq, Eq, Structural)]
pub enum SymbolKind {
    Fn,
    Method,
    Class,
    Interface,
    Type,
    Struct,
    Enum,
    Trait,
    Mod,
    Const,
    Var,
    Impl,
    Section,
}

/// The short tag a symbol kind is stored and reported under.
pub open spec fn spec_kind_str(k: SymbolKind) -> Seq<char> {
    match k {
        SymbolKind::Fn => "fn"@,
        SymbolKind::Method => "method"@,
        SymbolKind::Class => "class"@,
        SymbolKind::Interface => "interface"@,
        SymbolKind::Type => "type"@,
        SymbolKind::Struct => "struct"@,
        SymbolKind::Enum => "enum"@,
        SymbolKind::Trait => "trait"@,
        SymbolKind::Mod => "mod"@,
        SymbolKind::Const => "const"@,
        SymbolKind::Var => "var"@,
        SymbolKind::Impl => "impl"@,
        SymbolKind::Section => "section"@,
    }
}

impl SymbolKind {
    pub fn as_str(&self) -> (r: &'static str)
        ensures
            r@ == spec_kind_str(*self),
    {
        match self {
            SymbolKind::Fn => "fn",
            SymbolKind::Method => "method",
            SymbolKind::Class => "class",
            SymbolKind::Interface => "interface",
            SymbolKind::Type => "type",
            SymbolKind::Struct => "struct",
            SymbolKind::Enum => "enum",
            SymbolKind::Trait => "trait",
            SymbolKind::Mod => "mod",
            SymbolKind::Const => "const",
            SymbolKind::Var => "var",
            SymbolKind::Impl => "impl",
            SymbolKind::Section => "section",
        }
    }
}

/// The kind of a reference edge between symbols.
#[derive(Debug, Clone, Copy, PartialEq, Eq, Structural)]
pub enum RefKind {
    Call,
    Import,
    TypeRef,
    Extends,
    Implements,
}

/// The short tag a reference kind is stored and reported under.
pub open spec fn spec_ref_kind_str(k: RefKind) -> Seq<char> {
    match k {
        RefKind::Call => "call"@,
        RefKind::Import => "import"@,
        RefKind::TypeRef => "type_ref"@,
        RefKind::Extends => "extends"@,
        RefKind::Implements => "implements"@,
    }
}

impl RefKind {
    pub fn as_str(&self) -> (r: &'static str)
        ensures
            r@ == spec_ref_kind_str(*self),
    {
        match self {
            RefKind::Call => "call",
            RefKind::Import => "import",
            RefKind::TypeRef => "type_ref",
            RefKind::Extends => "extends",
            RefKind::Implements => "implements",
        }
    }
}

/// An outgoing reference found in a symbol's body: the referenced name, the
/// edge kind, and the 1-based line it stands on.
#[derive(Debug, Clone)]
pub struct ExtractedRef {
    pub name: String,
    pub kind: RefKind,
    pub line: usize,
}

/// A symbol extracted from a source file, with its nested child symbols and
/// its outgoing references. Lines are 1-based.
#[derive(Debug)]
pub struct ExtractedSymbol {
    pub name: String,
    pub kind: SymbolKind,
    pub signature: Option<String>,
    pub doc_comment: Option<String>,
    pub start_line: usize,
    pub end_line: usize,
    pub children: Vec<ExtractedSymbol>,
    pub references: Vec<ExtractedRef>,
}

/// The view of an optional string.
pub open spec fn opt_view(o: Option<String>) -> Option<Seq<char>> {
    match o {
        Some(s) => Some(s@),
        None => None,
    }
}

/// The mathematical mirror of an extracted reference.
pub ghost struct SpecRef {
    pub name: Seq<char>,
    pub kind: RefKind,
    pub line: int,
}

/// The mathematical mirror of an extracted symbol tree.
pub ghost struct SpecSymbol {
    pub name: Seq<char>,
    pub kind: SymbolKind,
    pub signature: Option<Seq<char>>,
    pub doc_comment: Option<Seq<char>>,
    pub start_line: int,
    pub end_line: int,
    pub children: Seq<SpecSymbol>,
    pub references: Seq<SpecRef>,
}

/// The view of one extracted reference.
pub open spec fn ref_view(r: ExtractedRef) -> SpecRef {
    SpecRef { name: r.name@, kind: r.kind, line: r.line as int }
}

/// The views of a reference list.
pub open spec fn refs_view(rs: Seq<ExtractedRef>) -> Seq<SpecRef> {
    rs.map_values(|r: ExtractedRef| ref_view(r))
}

/// The reference view keeps the length.
pub proof fn lemma_refs_view_len(rs: Seq<ExtractedRef>)
    ensures
        refs_view(rs).len() == rs.len(),
{
}

/// The reference view distributes over concatenation.
pub proof fn lemma_refs_view_concat(a: Seq<ExtractedRef>, b: Seq<ExtractedRef>)
    ensures
        refs_view(a + b) == refs_view(a) + refs_view(b),
{
    assert(refs_view(a + b) =~= refs_view(a) + refs_view(b));
}

impl ExtractedRef {
    /// A field-for-field copy.
    pub fn duplicate(&self) -> (r: ExtractedRef)
        ensures
            r == *self,
    {
        ExtractedRef { name: self.name.clone(), kind: self.kind, line: self.line }
    }
}

/// The views of a whole forest of extracted symbols.
pub open spec fn syms_view(ss: Seq<ExtractedSymbol>) -> Seq<SpecSymbol>
    decreases ss,
{
    if ss.len() == 0 {
        Seq::<SpecSymbol>::empty()
    } else {
        syms_view(ss.drop_last()).push(
            SpecSymbol {
                name: ss.last().name@,
                kind: ss.last().kind,
                signature: opt_view(ss.last().signature),
                doc_comment: opt_view(ss.last().doc_comment),
                start_line: ss.last().start_line as int,
                end_line: ss.last().end_line as int,
                children: syms_view(ss.last().children@),
                references: refs_view(ss.last().references@),
            },
        )
    }
}

/// The view of one extracted symbol tree.
pub open spec fn sym_view(s: ExtractedSymbol) -> SpecSymbol {
    SpecSymbol {
        name: s.name@,
        kind: s.kind,
        signature: opt_view(s.signature),
        doc_comment: opt_view(s.doc_comment),
        start_line: s.start_line as int,
        end_line: s.end_line as int,
        children: syms_view(s.children@),
        references: refs_view(s.references@),
    }
}

/// The forest view is the element-wise view.
pub proof fn lemma_syms_view_index(ss: Seq<ExtractedSymbol>, i: int)
    requires
        0 <= i < ss.len(),
    ensures
        syms_view(ss).len() == ss.len(),
        syms_view(ss)[i] == sym_view(ss[i]),
    decreases ss,
{
    lemma_syms_view_len(ss);
    if i < ss.len() - 1 {
        lemma_syms_view_index(ss.drop_last(), i);
    }
}

pub proof fn lemma_syms_view_len(ss: Seq<ExtractedSymbol>)
    ensures
        syms_view(ss).len() == ss.len(),
    decreases ss,
{
    if ss.len() > 0 {
        lemma_syms_view_len(ss.drop_last());
    }
}

pub proof fn lemma_syms_view_push(ss: Seq<ExtractedSymbol>, s: ExtractedSymbol)
    ensures
        syms_view(ss.push(s)) == syms_view(ss).push(sym_view(s)),
{
    assert(ss.push(s).drop_last() =~= ss);
    assert(ss.push(s).last() == s);
    assert(syms_view(ss.push(s)) =~= syms_view(ss).push(sym_view(s)));
}

pub proof fn lemma_syms_view_concat(a: Seq<ExtractedSymbol>, b: Seq<ExtractedSymbol>)
    ensures
        syms_view(a + b) == syms_view(a) + syms_view(b),
    decreases b.len(),
{
    if b.len() == 0 {
        assert(a + b =~= a);
        assert(syms_view(a) + syms_view(b) =~= syms_view(a));
    } else {
        lemma_syms_view_concat(a, b.drop_last());
        assert((a + b).drop_last() =~= a + b.drop_last());
        assert((a + b).last() == b.last());
        lemma_syms_view_push(a + b.drop_last(), b.last());
        assert(b.drop_last().push(b.last()) =~= b);
        lemma_syms_view_push(b.drop_last(), b.last());
        assert(syms_view(a + b) =~= syms_view(a) + syms_view(b));
    }
}

/// How many symbols a forest holds, every root included.
pub open spec fn spec_count_symbols_seq(syms: Seq<ExtractedSymbol>) -> nat
    decreases syms,
{
    if syms.len() == 0 {
        0
    } else {
        spec_count_symbols_seq(syms.drop_last()) + 1 + spec_count_symbols_seq(
            syms.last().children@,
        )
    }
}

/// How many symbols a tree holds, the root included.
pub open spec fn spec_count_symbols(sym: ExtractedSymbol) -> nat {
    1 + spec_count_symbols_seq(sym.children@)
}

/// How many references a forest holds over all its symbols.
pub open spec fn spec_count_refs_seq(syms: Seq<ExtractedSymbol>) -> nat
    decreases syms,
{
    if syms.len() == 0 {
        0
    } else {
        spec_count_refs_seq(syms.drop_last()) + syms.last().references@.len()
            + spec_count_refs_seq(syms.last().children@)
    }
}

/// How many references a tree holds over all its symbols.
pub open spec fn spec_count_refs(sym: ExtractedSymbol) -> nat {
    sym.references@.len() + spec_count_refs_seq(sym.children@)
}

/// Counts the symbols in a tree, the root included; saturates at the machine
/// limit.
pub fn count_symbols(sym: &ExtractedSymbol) -> (r: usize)
    ensures
        r as nat == if spec_count_symbols(*sym) <= usize::MAX as nat {
            spec_count_symbols(*sym)
        } else {
            usize::MAX as nat
        },
    decreases *sym,
{
    let mut total: usize = 1;
    let mut i: usize = 0;
    while i < sym.children.len()
        invariant
            i <= sym.children@.len(),
            total as nat == if 1 + spec_count_symbols_seq(sym.children@.take(i as int))
                <= usize::MAX as nat {
                1 + spec_count_symbols_seq(sym.children@.take(i as int))
            } else {
                usize::MAX as nat
            },
        decreases sym.children@.len() - i,
    {
        proof {
            assert(sym.children@.take(i + 1).drop_last() =~= sym.children@.take(i as int));
        }
        let c = count_symbols(&sym.children[i]);
        total = total.saturating_add(c);
        i = i + 1;
    }
    proof {
        assert(sym.children@.take(sym.children@.len() as int) =~= sym.children@);
    }
    total
}

/// Counts the references over all symbols of a tree; saturates at the machine
/// limit.
pub fn count_refs(sym: &ExtractedSymbol) -> (r: usize)
    ensures
        r as nat == if spec_count_refs(*sym) <= usize::MAX as nat {
            spec_count_refs(*sym)
        } else {
            usize::MAX as nat
        },
    decreases *sym,
{
    let mut total: usize = sym.references.len();
    let mut i: usize = 0;
    while i < sym.children.len()
        invariant
            i <= sym.children@.len(),
            total as nat == if sym.references@.len() + spec_count_refs_seq(
                sym.children@.take(i as int),
            ) <= usize::MAX as nat {
                sym.references@.len() + spec_count_refs_seq(sym.children@.take(i as int))
            } else {
                usize::MAX as nat
            },
        decreases sym.children@.len() - i,
    {
        proof {
            assert(sym.children@.take(i + 1).drop_last() =~= sym.children@.take(i as int));
        }
        let c = count_refs(&sym.children[i]);
        total = total.saturating_add(c);
        i = i + 1;
    }
    proof {
        assert(sym.children@.take(sym.children@.len() as int) =~= sym.children@);
    }
    total
}

} // verus!
