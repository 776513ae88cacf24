//! Well-formedness of parse trees: what the grammar engine promises about
//! the tree it returns for a given input.
//!
//! Each predicate ties one node shape to the matching rule of the `model`
//! module at a given position: the node carries that rule's tag, exactly the
//! span the rule consumes there, the covered text, and well-formed children
//! at the positions the rule dictates.

use vstd::prelude::*;

use crate::model::array_parse;
use crate::model::class_accepts;
use crate::model::comment_end;
use crate::model::file_parse_at;
use crate::model::is_nl;
use crate::model::key_end;
use crate::model::line_parse;
use crate::model::name_end;
use crate::model::pair_parse;
use crate::model::scan_end;
use crate::model::section_parse;
use crate::model::value_end;
use crate::model::CharClass;
use crate::model::LinePayload;
use crate::tree::Node;
use crate::tree::Rule;

verus! {

/// A childless node of rule `rule` covering `[start, end)` of `s`.
pub open spec fn wf_leaf(n: Node, s: Seq<char>, rule: Rule, start: int, end: int) -> bool {
    &&& n.rule == rule
    &&& n.span.start == start
    &&& n.span.end == end
    &&& n.text@ == s.subrange(start, end)
    &&& n.children@.len() == 0
}

/// The end-of-input marker: a zero-width node exactly at the end.
pub open spec fn wf_eoi(n: Node, s: Seq<char>, pos: int) -> bool {
    &&& pos == s.len()
    &&& wf_leaf(n, s, Rule::EOI, pos, pos)
}

/// A comment node at `pos`.
pub open spec fn wf_comment(n: Node, s: Seq<char>, pos: int) -> bool {
    match comment_end(s, pos) {
        Some(e) => wf_leaf(n, s, Rule::comment, pos, e),
        None => false,
    }
}

/// A key node at `pos`.
pub open spec fn wf_key(n: Node, s: Seq<char>, pos: int) -> bool {
    match key_end(s, pos) {
        Some(e) => wf_leaf(n, s, Rule::key, pos, e),
        None => false,
    }
}

/// A section name node at `pos`.
pub open spec fn wf_name(n: Node, s: Seq<char>, pos: int) -> bool {
    match name_end(s, pos) {
        Some(e) => wf_leaf(n, s, Rule::name, pos, e),
        None => false,
    }
}

/// A scalar value node at `pos`.
pub open spec fn wf_value(n: Node, s: Seq<char>, pos: int) -> bool {
    match value_end(s, pos) {
        Some(e) => wf_leaf(n, s, Rule::value, pos, e),
        None => false,
    }
}

/// One item of an array: a value node somewhere inside the brackets whose
/// text is the item `t` the model extracted.
pub open spec fn wf_array_item(c: Node, s: Seq<char>, t: Seq<char>) -> bool {
    &&& wf_value(c, s, c.span.start as int)
    &&& c.text@ == t
}

/// An array value node at `pos`: its children are value nodes carrying, in
/// order, exactly the item texts of the model.
pub open spec fn wf_array(n: Node, s: Seq<char>, pos: int) -> bool {
    match array_parse(s, pos) {
        Some(r) => {
            &&& n.rule == Rule::array_value
            &&& n.span.start == pos
            &&& n.span.end == r.0
            &&& n.text@ == s.subrange(pos, r.0)
            &&& n.children@.len() == r.1.len()
            &&& forall|i: int|
                0 <= i < r.1.len() ==> wf_array_item(#[trigger] n.children@[i], s, r.1[i])
        },
        None => false,
    }
}

/// A pair node at `pos`: a key child at `pos`, and a value or array child
/// at the position following `=` and any whitespace.
pub open spec fn wf_pair(n: Node, s: Seq<char>, pos: int) -> bool {
    match pair_parse(s, pos) {
        Some(r) => {
            &&& n.rule == Rule::pair
            &&& n.span.start == pos
            &&& n.span.end == r.0
            &&& n.text@ == s.subrange(pos, r.0)
            &&& n.children@.len() == 2
            &&& wf_key(n.children@[0], s, pos)
            &&& {
                let k = scan_end(s, pos, CharClass::Alpha);
                let p = scan_end(s, k, CharClass::Space);
                let q = scan_end(s, p + 1, CharClass::Space);
                if q < s.len() && s[q] == '[' {
                    wf_array(n.children@[1], s, q)
                } else {
                    wf_value(n.children@[1], s, q)
                }
            }
        },
        None => false,
    }
}

/// The nodes contributed by the run of lines starting at `pos`: one
/// comment or pair node per non-blank line, in order, and nothing else.
pub open spec fn wf_lines(ch: Seq<Node>, s: Seq<char>, pos: int) -> bool
    decreases s.len() - pos,
    when 0 <= pos <= s.len()
    via wf_lines_decreases
{
    match line_parse(s, pos) {
        Some(r) => match r.1 {
            LinePayload::Blank => wf_lines(ch, s, r.0),
            LinePayload::Comment => {
                &&& ch.len() >= 1
                &&& wf_comment(ch[0], s, scan_end(s, pos, CharClass::Space))
                &&& wf_lines(ch.drop_first(), s, r.0)
            },
            LinePayload::Entry(k, v) => {
                &&& ch.len() >= 1
                &&& wf_pair(ch[0], s, scan_end(s, pos, CharClass::Space))
                &&& wf_lines(ch.drop_first(), s, r.0)
            },
        },
        None => ch.len() == 0,
    }
}

#[via_fn]
proof fn wf_lines_decreases(ch: Seq<Node>, s: Seq<char>, pos: int) {
    crate::model::lemma_line_parse_bounds(s, pos);
}

/// A section node at `pos`: a name child inside the header brackets,
/// followed by the nodes of the section's lines.
pub open spec fn wf_section(n: Node, s: Seq<char>, pos: int) -> bool {
    match section_parse(s, pos) {
        Some(r) => {
            &&& n.rule == Rule::section
            &&& n.span.start == pos
            &&& n.span.end == r.0
            &&& n.text@ == s.subrange(pos, r.0)
            &&& n.children@.len() >= 1
            &&& {
                let p = scan_end(s, pos + 1, CharClass::Space);
                let ne = scan_end(s, p, CharClass::Upper);
                let p2 = scan_end(s, ne, CharClass::Space);
                let p3 = scan_end(s, p2 + 1, CharClass::Space);
                &&& wf_name(n.children@[0], s, p)
                &&& wf_lines(n.children@.drop_first(), s, p3 + 1)
            }
        },
        None => false,
    }
}

/// The top-level nodes from `pos` on: one node per comment or section, in
/// order, closed by the end-of-input marker.
pub open spec fn wf_file_items(ch: Seq<Node>, s: Seq<char>, pos: int) -> bool
    decreases s.len() - pos,
    when 0 <= pos <= s.len()
    via wf_file_items_decreases
{
    let p = scan_end(s, pos, CharClass::Layout);
    if p == s.len() {
        ch.len() == 1 && wf_eoi(ch[0], s, p)
    } else if s[p] == ';' {
        match comment_end(s, p) {
            Some(e) => {
                &&& ch.len() >= 1
                &&& wf_comment(ch[0], s, p)
                &&& wf_file_items(ch.drop_first(), s, e)
            },
            None => false,
        }
    } else if s[p] == '[' {
        match section_parse(s, p) {
            Some(r) => {
                &&& ch.len() >= 1
                &&& wf_section(ch[0], s, p)
                &&& wf_file_items(ch.drop_first(), s, r.0)
            },
            None => false,
        }
    } else {
        false
    }
}

#[via_fn]
proof fn wf_file_items_decreases(ch: Seq<Node>, s: Seq<char>, pos: int) {
    crate::model::lemma_scan_end(s, pos, CharClass::Layout);
    let p = scan_end(s, pos, CharClass::Layout);
    if p < s.len() {
        crate::model::lemma_leaf_bounds(s, p);
        crate::model::lemma_section_parse_bounds(s, p);
    }
}

/// A file node at `pos`: the whole rest of the input conforms to the file
/// rule, and the children are the top-level nodes in order.
pub open spec fn wf_file(n: Node, s: Seq<char>, pos: int) -> bool {
    &&& file_parse_at(s, pos) is Some
    &&& n.rule == Rule::file
    &&& n.span.start == pos
    &&& n.span.end == s.len()
    &&& n.text@ == s.subrange(pos, s.len() as int)
    &&& wf_file_items(n.children@, s, pos)
}

/// What the grammar engine promises of the node it returns for each rule
/// matched at the start of the input: the node, children included, is the
/// well-formed tree of that rule there.
pub open spec fn wf_by_rule(rule: Rule, n: Node, s: Seq<char>) -> bool {
    match rule {
        Rule::WHITESPACE => 0 < s.len() && class_accepts(CharClass::Space, s[0]) && wf_leaf(
            n,
            s,
            Rule::WHITESPACE,
            0,
            1,
        ),
        Rule::comment => wf_comment(n, s, 0),
        Rule::key => wf_key(n, s, 0),
        Rule::name => wf_name(n, s, 0),
        Rule::value => wf_value(n, s, 0),
        Rule::array_value => wf_array(n, s, 0),
        Rule::pair => wf_pair(n, s, 0),
        Rule::section => wf_section(n, s, 0),
        Rule::file => wf_file(n, s, 0),
        Rule::EOI => wf_eoi(n, s, 0),
    }
}

} // verus!
