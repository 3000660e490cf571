//! The Markdown extractor: ATX headings become `section` symbols, nested by
//! heading level — a heading's parent is the nearest preceding heading of
//! strictly smaller level.

use vstd::prelude::*;

use crate::cst::CstNode;
use crate::strutil::{spec_strip_leading, spec_trim, strip_leading, trim};
use crate::symbols::{
    lemma_syms_view_concat, lemma_syms_view_push, sym_view, syms_view, ExtractedSymbol,
    SpecSymbol, SymbolKind,
};

verus! {

broadcast use vstd::std_specs::vec::axiom_vec_decreases_to_view;

/// A heading before nesting: its text, level, and 1-based line span.
#[derive(Debug, Clone)]
pub struct FlatHeading {
    pub name: String,
    pub level: usize,
    pub start_line: usize,
    pub end_line: usize,
}

/// The mathematical mirror of a flat heading.
pub ghost struct SpecHeading {
    pub name: Seq<char>,
    pub level: int,
    pub start_line: int,
    pub end_line: int,
}

/// The view of one flat heading.
pub open spec fn heading_view(h: FlatHeading) -> SpecHeading {
    SpecHeading {
        name: h.name@,
        level: h.level as int,
        start_line: h.start_line as int,
        end_line: h.end_line as int,
    }
}

/// The views of a heading list.
pub open spec fn headings_view(hs: Seq<FlatHeading>) -> Seq<SpecHeading> {
    hs.map_values(|h: FlatHeading| heading_view(h))
}

/// The marker-scan state (level and name so far) after a heading node's
/// first `i` children.
pub open spec fn heading_scan(cs: Seq<CstNode>, i: int) -> (int, Seq<char>)
    decreases i,
{
    if i <= 0 {
        (0int, Seq::<char>::empty())
    } else {
        let st = heading_scan(cs, i - 1);
        let c = cs[i - 1];
        if c.kind@ == "atx_h1_marker"@ {
            (1int, st.1)
        } else if c.kind@ == "atx_h2_marker"@ {
            (2int, st.1)
        } else if c.kind@ == "atx_h3_marker"@ {
            (3int, st.1)
        } else if c.kind@ == "atx_h4_marker"@ {
            (4int, st.1)
        } else if c.kind@ == "atx_h5_marker"@ {
            (5int, st.1)
        } else if c.kind@ == "atx_h6_marker"@ {
            (6int, st.1)
        } else if c.kind@ == "heading_content"@ || c.kind@ == "inline"@ {
            (st.0, spec_trim(c.text@))
        } else {
            st
        }
    }
}

/// The level and name a heading node yields, with a raw-text fallback when
/// no marker child was recognised.
pub open spec fn spec_heading_parts(node: CstNode) -> (int, Seq<char>) {
    let st = heading_scan(node.children@, node.children@.len() as int);
    if st.0 == 0 {
        let raw = spec_trim(node.text@);
        let stripped = spec_strip_leading(raw, '#');
        let trimmed = spec_trim(stripped);
        if trimmed.len() > 0 {
            (raw.len() - stripped.len(), trimmed)
        } else {
            st
        }
    } else {
        st
    }
}

/// What `parse_heading` yields for a heading node; nothing when no level or
/// no name could be found.
pub open spec fn spec_parse_heading(node: CstNode) -> Option<SpecHeading> {
    let parts = spec_heading_parts(node);
    if parts.0 == 0 || parts.1.len() == 0 {
        None
    } else {
        Some(
            SpecHeading {
                name: parts.1,
                level: parts.0,
                start_line: node.spec_start_line(),
                end_line: node.spec_end_line(),
            },
        )
    }
}

/// Reads one ATX heading node: its level from the marker child, its text
/// from the content child, with a raw-text fallback.
pub fn parse_heading(node: &CstNode) -> (r: Option<FlatHeading>)
    ensures
        match r {
            Some(h) => Some(heading_view(h)) == spec_parse_heading(*node),
            None => spec_parse_heading(*node) is None,
        },
{
    let mut level: usize = 0;
    let mut name = String::new();
    let n = node.children.len();
    let mut i: usize = 0;
    while i < n
        invariant
            n == node.children@.len(),
            i <= n,
            level as int == heading_scan(node.children@, i as int).0,
            name@ == heading_scan(node.children@, i as int).1,
            level <= 6,
        decreases n - i,
    {
        let c = &node.children[i];
        if c.is_kind("atx_h1_marker") {
            level = 1;
        } else if c.is_kind("atx_h2_marker") {
            level = 2;
        } else if c.is_kind("atx_h3_marker") {
            level = 3;
        } else if c.is_kind("atx_h4_marker") {
            level = 4;
        } else if c.is_kind("atx_h5_marker") {
            level = 5;
        } else if c.is_kind("atx_h6_marker") {
            level = 6;
        } else if c.is_kind("heading_content") || c.is_kind("inline") {
            name = trim(c.text.as_str());
        }
        i = i + 1;
    }

    if level == 0 {
        let raw = trim(node.text.as_str());
        let stripped = strip_leading(raw.as_str(), '#');
        let trimmed = trim(stripped.as_str());
        if trimmed.as_str().unicode_len() > 0 {
            proof {
                crate::strutil::lemma_strip_leading_len(raw@, '#');
            }
            level = raw.as_str().unicode_len() - stripped.as_str().unicode_len();
            name = trimmed;
        }
    }

    if level == 0 || name.as_str().unicode_len() == 0 {
        return None;
    }
    Some(
        FlatHeading {
            name,
            level,
            start_line: node.start_line(),
            end_line: node.end_line(),
        },
    )
}

/// The headings a node forest yields, in document order: `atx_heading` nodes
/// parsed, `section` nodes walked into.
pub open spec fn spec_collect(cs: Seq<CstNode>) -> Seq<SpecHeading>
    decreases cs,
{
    if cs.len() == 0 {
        Seq::<SpecHeading>::empty()
    } else {
        spec_collect(cs.drop_last()) + (if cs.last().kind@ == "atx_heading"@ {
            match spec_parse_heading(cs.last()) {
                Some(h) => seq![h],
                None => Seq::<SpecHeading>::empty(),
            }
        } else if cs.last().kind@ == "section"@ {
            spec_collect(cs.last().children@)
        } else {
            Seq::<SpecHeading>::empty()
        })
    }
}

/// Walks a node's children, collecting the headings in document order.
pub fn collect_headings(node: &CstNode, out: &mut Vec<FlatHeading>)
    ensures
        headings_view(final(out)@) == headings_view(old(out)@) + spec_collect(node.children@),
    decreases *node,
{
    let n = node.children.len();
    let mut i: usize = 0;
    while i < n
        invariant
            n == node.children@.len(),
            i <= n,
            headings_view(out@) == headings_view(old(out)@) + spec_collect(
                node.children@.take(i as int),
            ),
        decreases n - i,
    {
        proof {
            assert(node.children@.take(i + 1).drop_last() =~= node.children@.take(i as int));
            assert(node.children@.take(i + 1).last() == node.children@[i as int]);
        }
        let c = &node.children[i];
        if c.is_kind("atx_heading") {
            match parse_heading(c) {
                Some(h) => {
                    let ghost hv_h = heading_view(h);
                    let ghost before = out@;
                    out.push(h);
                    proof {
                        assert(headings_view(out@) =~= headings_view(before).push(hv_h));
                        assert(headings_view(out@) =~= headings_view(old(out)@) + spec_collect(
                            node.children@.take(i + 1),
                        ));
                    }
                },
                None => {
                    proof {
                        assert(spec_collect(node.children@.take(i + 1)) =~= spec_collect(
                            node.children@.take(i as int),
                        ));
                    }
                },
            }
        } else if c.is_kind("section") {
            collect_headings(c, out);
            proof {
                assert(headings_view(out@) =~= headings_view(old(out)@) + spec_collect(
                    node.children@.take(i + 1),
                ));
            }
        } else {
            proof {
                assert(spec_collect(node.children@.take(i + 1)) =~= spec_collect(
                    node.children@.take(i as int),
                ));
            }
        }
        i = i + 1;
    }
    proof {
        assert(node.children@.take(n as int) =~= node.children@);
    }
}

/// The first heading index in `[j, hi)` whose level does not exceed `lvl`,
/// or `hi` when there is none: the end of the sub-headings of the heading
/// before `j`.
pub open spec fn spec_boundary(hs: Seq<SpecHeading>, lvl: int, j: int, hi: int) -> int
    decreases hi - j,
{
    if !(0 <= j < hi && hi <= hs.len()) {
        hi
    } else if hs[j].level <= lvl {
        j
    } else {
        spec_boundary(hs, lvl, j + 1, hi)
    }
}

proof fn lemma_boundary_bounds(hs: Seq<SpecHeading>, lvl: int, j: int, hi: int)
    requires
        0 <= j <= hi <= hs.len(),
    ensures
        j <= spec_boundary(hs, lvl, j, hi) <= hi,
    decreases hi - j,
{
    if j < hi && hs[j].level > lvl {
        lemma_boundary_bounds(hs, lvl, j + 1, hi);
    }
}

/// The heading `hs[lo]` as a section symbol over its nested children.
pub open spec fn heading_sym(h: SpecHeading, children: Seq<SpecSymbol>) -> SpecSymbol {
    SpecSymbol {
        name: h.name,
        kind: SymbolKind::Section,
        signature: None,
        doc_comment: None,
        start_line: h.start_line,
        end_line: h.end_line,
        children,
        references: Seq::empty(),
    }
}

/// The nesting of the headings in `[lo, hi)`: the first heading owns every
/// following heading of strictly greater level, up to the next heading of
/// its own level or smaller; the rest follow as its siblings.
pub open spec fn spec_hier(hs: Seq<SpecHeading>, lo: int, hi: int) -> Seq<SpecSymbol>
    decreases hi - lo,
    via spec_hier_decreases
{
    if !(0 <= lo < hi && hi <= hs.len()) {
        Seq::<SpecSymbol>::empty()
    } else {
        let end = spec_boundary(hs, hs[lo].level, lo + 1, hi);
        seq![heading_sym(hs[lo], spec_hier(hs, lo + 1, end))] + spec_hier(hs, end, hi)
    }
}

#[via_fn]
proof fn spec_hier_decreases(hs: Seq<SpecHeading>, lo: int, hi: int) {
    if 0 <= lo < hi && hi <= hs.len() {
        lemma_boundary_bounds(hs, hs[lo].level, lo + 1, hi);
    }
}

/// The whole heading list, nested.
pub open spec fn spec_hierarchy(hs: Seq<SpecHeading>) -> Seq<SpecSymbol> {
    spec_hier(hs, 0, hs.len() as int)
}

fn find_boundary(hs: &Vec<FlatHeading>, lvl: usize, lo: usize, hi: usize) -> (r: usize)
    requires
        lo <= hi <= hs@.len(),
    ensures
        r == spec_boundary(headings_view(hs@), lvl as int, lo as int, hi as int),
        lo <= r <= hi,
{
    let ghost hv = headings_view(hs@);
    let mut j = lo;
    while j < hi
        invariant
            lo <= j <= hi <= hs@.len(),
            hv == headings_view(hs@),
            spec_boundary(hv, lvl as int, lo as int, hi as int) == spec_boundary(
                hv,
                lvl as int,
                j as int,
                hi as int,
            ),
        decreases hi - j,
    {
        if hs[j].level <= lvl {
            return j;
        }
        j = j + 1;
    }
    j
}

fn build_range(hs: &Vec<FlatHeading>, lo: usize, hi: usize) -> (r: Vec<ExtractedSymbol>)
    requires
        lo <= hi <= hs@.len(),
    ensures
        syms_view(r@) == spec_hier(headings_view(hs@), lo as int, hi as int),
    decreases hi - lo,
{
    let ghost hv = headings_view(hs@);
    if lo >= hi {
        let r = Vec::new();
        proof {
            assert(syms_view(r@) =~= spec_hier(hv, lo as int, hi as int));
        }
        return r;
    }
    let end = find_boundary(hs, hs[lo].level, lo + 1, hi);
    let children = build_range(hs, lo + 1, end);
    let h = &hs[lo];
    let head = ExtractedSymbol {
        name: h.name.clone(),
        kind: SymbolKind::Section,
        signature: None,
        doc_comment: None,
        start_line: h.start_line,
        end_line: h.end_line,
        children,
        references: Vec::new(),
    };
    let ghost head_snap = head;
    let mut out: Vec<ExtractedSymbol> = Vec::new();
    out.push(head);
    let ghost one = out@;
    let mut rest = build_range(hs, end, hi);
    let ghost rest_snap = rest@;
    out.append(&mut rest);
    proof {
        assert(out@ =~= one + rest_snap);
        lemma_syms_view_concat(one, rest_snap);
        assert(one.drop_last() =~= Seq::<ExtractedSymbol>::empty());
        assert(syms_view(Seq::<ExtractedSymbol>::empty()) =~= Seq::<SpecSymbol>::empty());
        assert(syms_view(one) =~= seq![sym_view(head_snap)]);
        assert(sym_view(head_snap).references =~= Seq::<crate::symbols::SpecRef>::empty());
        assert(sym_view(head_snap) =~= heading_sym(hv[lo as int], spec_hier(hv, lo + 1, end as int)));
        assert(syms_view(out@) =~= spec_hier(hv, lo as int, hi as int));
    }
    out
}

/// Nests flat headings: each heading's parent is the nearest preceding
/// heading of strictly smaller level.
pub fn build_hierarchy(headings: Vec<FlatHeading>) -> (r: Vec<ExtractedSymbol>)
    ensures
        syms_view(r@) == spec_hierarchy(headings_view(headings@)),
{
    let n = headings.len();
    build_range(&headings, 0, n)
}

/// What the Markdown extractor yields for a parsed tree: the nested heading
/// sections.
pub open spec fn spec_markdown_extract(root: CstNode) -> Seq<SpecSymbol> {
    spec_hierarchy(spec_collect(root.children@))
}

/// Extracts `section` symbols from a Markdown syntax tree.
pub struct MarkdownExtractor;

impl MarkdownExtractor {
    /// The nested heading sections of the parsed file.
    pub fn extract(&self, root: &CstNode) -> (r: Vec<ExtractedSymbol>)
        ensures
            syms_view(r@) == spec_markdown_extract(*root),
    {
        let mut flat: Vec<FlatHeading> = Vec::new();
        collect_headings(root, &mut flat);
        proof {
            assert(headings_view(flat@) =~= spec_collect(root.children@));
        }
        build_hierarchy(flat)
    }
}

} // verus!
