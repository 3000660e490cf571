//! The concrete-syntax-tree model the extractors walk, and the trusted
//! bridge that parses source bytes into it with tree-sitter.

use vstd::prelude::*;

use crate::filters::LanguageId;
use crate::strutil::str_eq;

verus! {

broadcast use vstd::std_specs::vec::axiom_vec_decreases_to_view;

/// One node of a parsed syntax tree: the grammar's node kind, the field name
/// it stands under in its parent (when the grammar names one), the source
/// text it spans, its 0-based start and end rows, whether the grammar calls
/// it a named node, and its children in order.
#[derive(Debug)]
pub struct CstNode {
    pub kind: String,
    pub field: Option<String>,
    pub text: String,
    pub start_row: usize,
    pub end_row: usize,
    pub named: bool,
    pub children: Vec<CstNode>,
}

/// The node stands under the given field name in its parent.
pub open spec fn has_field(c: CstNode, name: Seq<char>) -> bool {
    c.field matches Some(f) && f@ == name
}

/// The index of the first child at or after `i` under the given field name.
pub open spec fn spec_find_field(cs: Seq<CstNode>, name: Seq<char>, i: int) -> Option<int>
    decreases cs.len() - i,
{
    if !(0 <= i < cs.len()) {
        None
    } else if has_field(cs[i], name) {
        Some(i)
    } else {
        spec_find_field(cs, name, i + 1)
    }
}

/// The first child of a node under the given field name.
pub open spec fn spec_child_by_field(node: CstNode, name: Seq<char>) -> Option<CstNode> {
    match spec_find_field(node.children@, name, 0) {
        Some(i) => Some(node.children@[i]),
        None => None,
    }
}

/// The index of the first named child at or after `i`.
pub open spec fn spec_find_named(cs: Seq<CstNode>, i: int) -> Option<int>
    decreases cs.len() - i,
{
    if !(0 <= i < cs.len()) {
        None
    } else if cs[i].named {
        Some(i)
    } else {
        spec_find_named(cs, i + 1)
    }
}

impl CstNode {
    /// The 1-based line the node starts on.
    pub open spec fn spec_start_line(&self) -> int {
        if self.start_row == usize::MAX {
            usize::MAX as int
        } else {
            self.start_row + 1
        }
    }

    /// The 1-based line the node ends on.
    pub open spec fn spec_end_line(&self) -> int {
        if self.end_row == usize::MAX {
            usize::MAX as int
        } else {
            self.end_row + 1
        }
    }

    /// The 1-based line the node starts on.
    pub fn start_line(&self) -> (r: usize)
        ensures
            r == self.spec_start_line(),
    {
        self.start_row.saturating_add(1)
    }

    /// The 1-based line the node ends on.
    pub fn end_line(&self) -> (r: usize)
        ensures
            r == self.spec_end_line(),
    {
        self.end_row.saturating_add(1)
    }

    /// True when the node's kind is the given one.
    pub fn is_kind(&self, kind: &str) -> (r: bool)
        ensures
            r == (self.kind@ == kind@),
    {
        str_eq(self.kind.as_str(), kind)
    }

    /// The first child under the given field name.
    pub fn child_by_field<'a>(&'a self, name: &str) -> (r: Option<&'a CstNode>)
        ensures
            match spec_find_field(self.children@, name@, 0) {
                Some(j) => r matches Some(c) && *c == self.children@[j],
                None => r is None,
            },
    {
        let n = self.children.len();
        let mut i: usize = 0;
        while i < n
            invariant
                n == self.children@.len(),
                i <= n,
                spec_find_field(self.children@, name@, 0) == spec_find_field(
                    self.children@,
                    name@,
                    i as int,
                ),
            decreases n - i,
        {
            let matched = match &self.children[i].field {
                Some(f) => str_eq(f.as_str(), name),
                None => false,
            };
            if matched {
                return Some(&self.children[i]);
            }
            i = i + 1;
        }
        None
    }

    /// The first named child.
    pub fn first_named_child<'a>(&'a self) -> (r: Option<&'a CstNode>)
        ensures
            match spec_find_named(self.children@, 0) {
                Some(j) => r matches Some(c) && *c == self.children@[j],
                None => r is None,
            },
    {
        let n = self.children.len();
        let mut i: usize = 0;
        while i < n
            invariant
                n == self.children@.len(),
                i <= n,
                spec_find_named(self.children@, 0) == spec_find_named(self.children@, i as int),
            decreases n - i,
        {
            if self.children[i].named {
                return Some(&self.children[i]);
            }
            i = i + 1;
        }
        None
    }

    /// The text of the first child under the field name, if any.
    pub fn field_text(&self, name: &str) -> (r: Option<String>)
        ensures
            match spec_child_by_field(*self, name@) {
                Some(c) => r matches Some(t) && t@ == c.text@,
                None => r is None,
            },
    {
        match self.child_by_field(name) {
            Some(c) => Some(c.text.clone()),
            None => None,
        }
    }
}

/// A found field index lies inside the child list.
pub proof fn lemma_find_field_range(cs: Seq<CstNode>, name: Seq<char>, i: int)
    ensures
        spec_find_field(cs, name, i) matches Some(j) ==> 0 <= j < cs.len() && cs[j]
            == spec_find_field_node(cs, name, i),
    decreases cs.len() - i,
{
    if 0 <= i < cs.len() && !has_field(cs[i], name) {
        lemma_find_field_range(cs, name, i + 1);
    }
}

/// The node a found field index denotes.
pub open spec fn spec_find_field_node(cs: Seq<CstNode>, name: Seq<char>, i: int) -> CstNode {
    match spec_find_field(cs, name, i) {
        Some(j) => cs[j],
        None => cs[0],
    }
}

/// Every child is structurally below its node.
pub proof fn lemma_child_descends(node: CstNode, i: int)
    requires
        0 <= i < node.children@.len(),
    ensures
        decreases_to!(node => node.children@[i]),
{
    assert(decreases_to!(node => node.children));
    assert(decreases_to!(node.children => node.children@));
    assert(decreases_to!(node.children@ => node.children@[i]));
}

/// A field child is structurally below its node.
pub proof fn lemma_field_child_descends(node: CstNode, name: Seq<char>)
    ensures
        spec_child_by_field(node, name) matches Some(b) ==> decreases_to!(node => b),
{
    match spec_find_field(node.children@, name, 0) {
        Some(j) => {
            lemma_find_field_range(node.children@, name, 0);
            lemma_child_descends(node, j);
        },
        None => {},
    }
}

/// A sequence element's child list is structurally below the sequence.
pub proof fn lemma_seq_elem_children_descend(cs: Seq<CstNode>, i: int)
    requires
        0 <= i < cs.len(),
    ensures
        decreases_to!(cs => cs[i].children@),
{
    assert(decreases_to!(cs => cs[i]));
    assert(decreases_to!(cs[i] => cs[i].children));
    assert(decreases_to!(cs[i].children => cs[i].children@));
}

/// A field child's child list is structurally below the node.
pub proof fn lemma_field_child_children_descend(node: CstNode, name: Seq<char>)
    ensures
        spec_child_by_field(node, name) matches Some(b) ==> decreases_to!(node => b.children@),
{
    match spec_find_field(node.children@, name, 0) {
        Some(j) => {
            lemma_find_field_range(node.children@, name, 0);
            lemma_child_descends(node, j);
            let b = node.children@[j];
            assert(decreases_to!(b => b.children));
            assert(decreases_to!(b.children => b.children@));
        },
        None => {},
    }
}

/// The tree that tree-sitter's grammar for the language produces for the
/// source bytes, rendered as this crate's node model; a function of grammar
/// and bytes alone. Nothing when the parser fails.
pub uninterp spec fn parsed_cst(lang: LanguageId, source: Seq<u8>) -> Option<CstNode>;

#[verifier::external_type_specification]
#[verifier::external_body]
pub struct ExTsNode<'a>(tree_sitter::Node<'a>);

/// Relies on tree-sitter's `Node` and `TreeCursor` accessors (`kind`,
/// `utf8_text`, `start_position`, `end_position`, `is_named`, `field_name`,
/// child iteration): renders one node and its subtree, one node for one node.
#[verifier::external_body]
fn node_to_cst(node: tree_sitter::Node<'_>, source: &[u8]) -> CstNode {
    let mut children = Vec::new();
    let mut cursor = node.walk();
    if cursor.goto_first_child() {
        loop {
            let mut child = node_to_cst(cursor.node(), source);
            child.field = cursor.field_name().map(|f| f.to_string());
            children.push(child);
            if !cursor.goto_next_sibling() { break; }
        }
    }
    CstNode { kind: node.kind().to_string(), field: None, text: node.utf8_text(source).unwrap_or("").to_string(),
        start_row: node.start_position().row, end_row: node.end_position().row, named: node.is_named(), children }
}

/// Relies on tree-sitter's `Parser` (`new`, `set_language`, `parse`) with the
/// grammar constants of tree-sitter-typescript, -python, -rust, -ruby and
/// -md: parsing is a function of grammar and source bytes alone.
#[verifier::external_body]
pub fn parse_source(lang: LanguageId, source: &[u8]) -> (r: Option<CstNode>)
    ensures
        r == parsed_cst(lang, source@),
{
    let grammar: tree_sitter::Language = match lang {
        LanguageId::Typescript => tree_sitter_typescript::LANGUAGE_TYPESCRIPT.into(),
        LanguageId::Python => tree_sitter_python::LANGUAGE.into(),
        LanguageId::Rust => tree_sitter_rust::LANGUAGE.into(),
        LanguageId::Ruby => tree_sitter_ruby::LANGUAGE.into(),
        LanguageId::Markdown => tree_sitter_md::LANGUAGE.into(),
    };
    let mut parser = tree_sitter::Parser::new();
    if parser.set_language(&grammar).is_err() {
        return None;
    }
    let tree = parser.parse(source, None)?;
    Some(node_to_cst(tree.root_node(), source))
}

} // verus!
