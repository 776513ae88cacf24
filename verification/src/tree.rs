//! The parse tree: labeled nodes with spans, and the error type shared by
//! the grammar engine and the reducer.

use vstd::prelude::*;

verus! {

/// The rules of the grammar. Each parse tree node is tagged with the rule
/// that produced it.
#[allow(non_camel_case_types)]
#[derive(Clone, Copy, PartialEq, Eq, Structural, Debug)]
pub enum Rule {
    /// A single space or tab.
    WHITESPACE,
    /// `;` followed by the rest of the line.
    comment,
    /// One or more letters.
    key,
    /// One or more uppercase letters.
    name,
    /// A run of characters free of delimiters, whitespace and line breaks.
    value,
    /// A bracketed, comma-separated list of values.
    array_value,
    /// `key` `=` (`array_value` | `value`).
    pair,
    /// `[` `name` `]`, a line break, then blank, comment or pair lines.
    section,
    /// Comments and sections down to the end of the input.
    file,
    /// The zero-width marker at the very end of the input.
    EOI,
}

/// A half-open range of character positions into the parsed input.
#[derive(Clone, Copy, PartialEq, Eq, Structural, Debug)]
pub struct Span {
    pub start: usize,
    pub end: usize,
}

impl Span {
    /// The position of the first character the node covers.
    pub fn start(&self) -> (r: usize)
        ensures
            r == self.start,
    {
        self.start
    }

    /// The position just past the last character the node covers.
    pub fn end(&self) -> (r: usize)
        ensures
            r == self.end,
    {
        self.end
    }
}

/// One node of the parse tree: the rule that matched, the span of input it
/// covers, the covered text, and the child nodes of composite rules, in
/// order. The tree is transient: it exists only between parsing and
/// reduction.
#[derive(Debug, PartialEq, Eq)]
pub struct Node {
    pub rule: Rule,
    pub span: Span,
    pub text: String,
    pub children: Vec<Node>,
}

impl Node {
    /// The text this node matched.
    pub fn as_str(&self) -> (r: &str)
        ensures
            r@ == self.text@,
    {
        self.text.as_str()
    }

    /// The span this node matched.
    pub fn as_span(&self) -> (r: Span)
        ensures
            r == self.span,
    {
        self.span
    }
}

/// Everything that can go wrong between an input string and a `Config`.
#[derive(Clone, Copy, PartialEq, Eq, Structural, Debug)]
pub enum ParseError {
    /// The input does not match the grammar: the position where matching
    /// failed and the rule that was expected there.
    Syntax { pos: usize, rule: Rule },
    /// The reducer was handed a tree with no file production at its root.
    NoContent,
    /// The reducer met a child shape the grammar can never produce: a sign
    /// of drift between the grammar and the reducer, surfaced loudly
    /// rather than ignored.
    InvariantViolation,
}

} // verus!
