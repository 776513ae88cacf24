//! The mathematical definition of the INI dialect.
//!
//! Every rule of the grammar is defined here as a spec function over a
//! `Seq<char>` and a character position. Matching is greedy and
//! deterministic: each function either returns the position just past the
//! text the rule consumes (together with the rule's semantic payload), or
//! `None` when the rule does not match at that position. The executable
//! grammar engine and reducer are verified against these functions.

use vstd::prelude::*;

verus! {

/// The character classes the dialect's lexical rules scan over.
#[derive(Clone, Copy, PartialEq, Eq, Structural, Debug)]
pub enum CharClass {
    /// A space or a tab: the separator the grammar skips between tokens.
    Space,
    /// A space, a tab, or a line break: what the file rule skips between
    /// top-level items.
    Layout,
    /// An ASCII letter of either case: the alphabet of keys.
    Alpha,
    /// An uppercase ASCII letter: the alphabet of section names.
    Upper,
    /// Any character a scalar value may contain: everything except the
    /// structural delimiters `[`, `]`, `,` and whitespace or line breaks.
    ValueChar,
    /// Any character a comment may contain: everything up to a line break.
    CommentChar,
}

/// A line break character.
pub open spec fn is_nl(c: char) -> bool {
    c == '\n' || c == '\r'
}

/// Whether character `c` belongs to class `k`.
pub open spec fn class_accepts(k: CharClass, c: char) -> bool {
    match k {
        CharClass::Space => c == ' ' || c == '\t',
        CharClass::Layout => c == ' ' || c == '\t' || is_nl(c),
        CharClass::Alpha => ('a' <= c && c <= 'z') || ('A' <= c && c <= 'Z'),
        CharClass::Upper => 'A' <= c && c <= 'Z',
        CharClass::ValueChar => !(c == '[' || c == ']' || c == ',' || c == ' ' || c == '\t'
            || is_nl(c)),
        CharClass::CommentChar => !is_nl(c),
    }
}

/// The position of the first character at or after `pos` that is not in
/// class `k` (the end of a maximal, possibly empty, run of `k`-characters).
pub open spec fn scan_end(s: Seq<char>, pos: int, k: CharClass) -> int
    decreases s.len() - pos,
    when 0 <= pos <= s.len()
{
    if pos < s.len() && class_accepts(k, s[pos]) {
        scan_end(s, pos + 1, k)
    } else {
        pos
    }
}

/// `scan_end` stays within the input, consumes only `k`-characters, and
/// stops at the first character outside the class.
pub proof fn lemma_scan_end(s: Seq<char>, pos: int, k: CharClass)
    requires
        0 <= pos <= s.len(),
    ensures
        pos <= scan_end(s, pos, k) <= s.len(),
        forall|i: int| pos <= i < scan_end(s, pos, k) ==> class_accepts(k, s[i]),
        scan_end(s, pos, k) < s.len() ==> !class_accepts(k, s[scan_end(s, pos, k)]),
        pos < s.len() && class_accepts(k, s[pos]) ==> scan_end(s, pos, k) >= pos + 1,
    decreases s.len() - pos,
{
    if pos < s.len() && class_accepts(k, s[pos]) {
        lemma_scan_end(s, pos + 1, k);
    }
}

/// The semantic payload of a pair's right-hand side: a scalar string, or an
/// ordered list of array items.
pub enum ValueModel {
    Scalar(Seq<char>),
    Array(Seq<Seq<char>>),
}

/// What one line inside a section contributes.
pub enum LinePayload {
    /// A line holding only whitespace.
    Blank,
    /// A comment line: no semantic contribution.
    Comment,
    /// A `key=value` line.
    Entry(Seq<char>, ValueModel),
}

/// The comment rule: `;` immediately followed by one or more characters,
/// consuming greedily up to the end of the line (or of the input).
pub open spec fn comment_end(s: Seq<char>, pos: int) -> Option<int>
    recommends
        0 <= pos <= s.len(),
{
    if pos < s.len() && s[pos] == ';' && pos + 1 < s.len() && class_accepts(
        CharClass::CommentChar,
        s[pos + 1],
    ) {
        Some(scan_end(s, pos + 1, CharClass::CommentChar))
    } else {
        None
    }
}

/// The key rule: one or more letters, stopping at the first non-letter.
pub open spec fn key_end(s: Seq<char>, pos: int) -> Option<int>
    recommends
        0 <= pos <= s.len(),
{
    if pos < s.len() && class_accepts(CharClass::Alpha, s[pos]) {
        Some(scan_end(s, pos, CharClass::Alpha))
    } else {
        None
    }
}

/// The section name rule: one or more uppercase letters, stopping at the
/// first character that is not one.
pub open spec fn name_end(s: Seq<char>, pos: int) -> Option<int>
    recommends
        0 <= pos <= s.len(),
{
    if pos < s.len() && class_accepts(CharClass::Upper, s[pos]) {
        Some(scan_end(s, pos, CharClass::Upper))
    } else {
        None
    }
}

/// The scalar value rule: one or more value characters, stopping at the
/// first delimiter, whitespace, or line break.
pub open spec fn value_end(s: Seq<char>, pos: int) -> Option<int>
    recommends
        0 <= pos <= s.len(),
{
    if pos < s.len() && class_accepts(CharClass::ValueChar, s[pos]) {
        Some(scan_end(s, pos, CharClass::ValueChar))
    } else {
        None
    }
}

/// Bounds for the four leaf rules: a successful match ends past its start
/// and within the input.
pub proof fn lemma_leaf_bounds(s: Seq<char>, pos: int)
    requires
        0 <= pos <= s.len(),
    ensures
        comment_end(s, pos) matches Some(e) ==> pos + 2 <= e <= s.len(),
        key_end(s, pos) matches Some(e) ==> pos + 1 <= e <= s.len(),
        name_end(s, pos) matches Some(e) ==> pos + 1 <= e <= s.len(),
        value_end(s, pos) matches Some(e) ==> pos + 1 <= e <= s.len(),
{
    lemma_scan_end(s, pos, CharClass::Alpha);
    lemma_scan_end(s, pos, CharClass::Upper);
    lemma_scan_end(s, pos, CharClass::ValueChar);
    if pos + 1 <= s.len() {
        lemma_scan_end(s, pos + 1, CharClass::CommentChar);
    }
}

/// After an opening bracket and a first item, the rest of an array: zero or
/// more further comma-separated items, then the closing bracket. `items`
/// accumulates the item texts in order.
pub open spec fn array_rest(s: Seq<char>, pos: int, items: Seq<Seq<char>>) -> Option<
    (int, Seq<Seq<char>>),
>
    decreases s.len() - pos,
    when 0 <= pos <= s.len()
    via array_rest_decreases
{
    let p = scan_end(s, pos, CharClass::Space);
    if p < s.len() && s[p] == ']' {
        Some((p + 1, items))
    } else if p < s.len() && s[p] == ',' {
        let q = scan_end(s, p + 1, CharClass::Space);
        match value_end(s, q) {
            Some(e) => array_rest(s, e, items.push(s.subrange(q, e))),
            None => None,
        }
    } else {
        None
    }
}

#[via_fn]
proof fn array_rest_decreases(s: Seq<char>, pos: int, items: Seq<Seq<char>>) {
    lemma_scan_end(s, pos, CharClass::Space);
    let p = scan_end(s, pos, CharClass::Space);
    if p < s.len() && s[p] == ',' {
        lemma_scan_end(s, p + 1, CharClass::Space);
        let q = scan_end(s, p + 1, CharClass::Space);
        lemma_leaf_bounds(s, q);
    }
}

/// The array value rule: `[`, one or more comma-separated items (each an
/// application of the value rule, with surrounding whitespace skipped),
/// then `]`. Returns the end position and the item texts in order.
pub open spec fn array_parse(s: Seq<char>, pos: int) -> Option<(int, Seq<Seq<char>>)>
    recommends
        0 <= pos <= s.len(),
{
    if pos < s.len() && s[pos] == '[' {
        let p = scan_end(s, pos + 1, CharClass::Space);
        match value_end(s, p) {
            Some(e) => array_rest(s, e, seq![s.subrange(p, e)]),
            None => None,
        }
    } else {
        None
    }
}

/// Bounds for `array_rest`.
pub proof fn lemma_array_rest_bounds(s: Seq<char>, pos: int, items: Seq<Seq<char>>)
    requires
        0 <= pos <= s.len(),
    ensures
        array_rest(s, pos, items) matches Some(r) ==> pos + 1 <= r.0 <= s.len(),
    decreases s.len() - pos,
{
    lemma_scan_end(s, pos, CharClass::Space);
    let p = scan_end(s, pos, CharClass::Space);
    if p < s.len() && s[p] == ',' {
        lemma_scan_end(s, p + 1, CharClass::Space);
        let q = scan_end(s, p + 1, CharClass::Space);
        lemma_leaf_bounds(s, q);
        if let Some(e) = value_end(s, q) {
            lemma_array_rest_bounds(s, e, items.push(s.subrange(q, e)));
        }
    }
}

/// Bounds for `array_parse`.
pub proof fn lemma_array_parse_bounds(s: Seq<char>, pos: int)
    requires
        0 <= pos <= s.len(),
    ensures
        array_parse(s, pos) matches Some(r) ==> pos + 1 <= r.0 <= s.len(),
{
    if pos < s.len() && s[pos] == '[' {
        lemma_scan_end(s, pos + 1, CharClass::Space);
        let p = scan_end(s, pos + 1, CharClass::Space);
        lemma_leaf_bounds(s, p);
        if let Some(e) = value_end(s, p) {
            lemma_array_rest_bounds(s, e, seq![s.subrange(p, e)]);
        }
    }
}

/// The pair rule: a key, `=`, then an array value or a scalar value, with
/// whitespace permitted around `=`. Returns the end position, the key text,
/// and the value payload.
pub open spec fn pair_parse(s: Seq<char>, pos: int) -> Option<(int, Seq<char>, ValueModel)>
    recommends
        0 <= pos <= s.len(),
{
    match key_end(s, pos) {
        Some(k) => {
            let p = scan_end(s, k, CharClass::Space);
            if p < s.len() && s[p] == '=' {
                let q = scan_end(s, p + 1, CharClass::Space);
                if q < s.len() && s[q] == '[' {
                    match array_parse(s, q) {
                        Some(r) => Some((r.0, s.subrange(pos, k), ValueModel::Array(r.1))),
                        None => None,
                    }
                } else {
                    match value_end(s, q) {
                        Some(e) => Some((e, s.subrange(pos, k), ValueModel::Scalar(s.subrange(q, e)))),
                        None => None,
                    }
                }
            } else {
                None
            }
        },
        None => None,
    }
}

/// Bounds for `pair_parse`.
pub proof fn lemma_pair_parse_bounds(s: Seq<char>, pos: int)
    requires
        0 <= pos <= s.len(),
    ensures
        pair_parse(s, pos) matches Some(r) ==> pos + 1 <= r.0 <= s.len(),
{
    lemma_leaf_bounds(s, pos);
    if let Some(k) = key_end(s, pos) {
        lemma_scan_end(s, k, CharClass::Space);
        let p = scan_end(s, k, CharClass::Space);
        if p < s.len() && s[p] == '=' {
            lemma_scan_end(s, p + 1, CharClass::Space);
            let q = scan_end(s, p + 1, CharClass::Space);
            lemma_leaf_bounds(s, q);
            lemma_array_parse_bounds(s, q);
        }
    }
}

/// One line in a section's body: optional leading whitespace, then nothing,
/// a comment, or a pair, then a line break. Returns the position just past
/// the line break and the line's contribution.
pub open spec fn line_parse(s: Seq<char>, pos: int) -> Option<(int, LinePayload)>
    recommends
        0 <= pos <= s.len(),
{
    let p = scan_end(s, pos, CharClass::Space);
    if p < s.len() && is_nl(s[p]) {
        Some((p + 1, LinePayload::Blank))
    } else if p < s.len() && s[p] == ';' {
        match comment_end(s, p) {
            Some(e) => if e < s.len() && is_nl(s[e]) {
                Some((e + 1, LinePayload::Comment))
            } else {
                None
            },
            None => None,
        }
    } else {
        match pair_parse(s, p) {
            Some(r) => {
                let p2 = scan_end(s, r.0, CharClass::Space);
                if p2 < s.len() && is_nl(s[p2]) {
                    Some((p2 + 1, LinePayload::Entry(r.1, r.2)))
                } else {
                    None
                }
            },
            None => None,
        }
    }
}

/// Bounds for `line_parse`: a line consumes at least its line break.
pub proof fn lemma_line_parse_bounds(s: Seq<char>, pos: int)
    requires
        0 <= pos <= s.len(),
    ensures
        line_parse(s, pos) matches Some(r) ==> pos + 1 <= r.0 <= s.len(),
{
    lemma_scan_end(s, pos, CharClass::Space);
    let p = scan_end(s, pos, CharClass::Space);
    lemma_leaf_bounds(s, p);
    lemma_pair_parse_bounds(s, p);
    if let Some(r) = pair_parse(s, p) {
        lemma_scan_end(s, r.0, CharClass::Space);
    }
}

/// The body of a section: the longest run of lines that parse, folded into
/// a key-to-value map where a later occurrence of a key replaces an earlier
/// one. Returns the position where the run stops and the map.
pub open spec fn lines_parse(s: Seq<char>, pos: int) -> (int, Map<Seq<char>, ValueModel>)
    decreases s.len() - pos,
    when 0 <= pos <= s.len()
    via lines_parse_decreases
{
    match line_parse(s, pos) {
        Some(r) => {
            let rest = lines_parse(s, r.0);
            match r.1 {
                LinePayload::Entry(k, v) => (
                    rest.0,
                    if rest.1.contains_key(k) {
                        rest.1
                    } else {
                        rest.1.insert(k, v)
                    },
                ),
                _ => rest,
            }
        },
        None => (pos, Map::empty()),
    }
}

#[via_fn]
proof fn lines_parse_decreases(s: Seq<char>, pos: int) {
    lemma_line_parse_bounds(s, pos);
}

/// Bounds for `lines_parse`.
pub proof fn lemma_lines_parse_bounds(s: Seq<char>, pos: int)
    requires
        0 <= pos <= s.len(),
    ensures
        pos <= lines_parse(s, pos).0 <= s.len(),
    decreases s.len() - pos,
{
    lemma_line_parse_bounds(s, pos);
    if let Some(r) = line_parse(s, pos) {
        lemma_lines_parse_bounds(s, r.0);
    }
}

/// The section rule: `[`, a name, `]`, a line break, then the section's
/// body. Returns the end position, the name text, and the body's map.
pub open spec fn section_parse(s: Seq<char>, pos: int) -> Option<
    (int, Seq<char>, Map<Seq<char>, ValueModel>),
>
    recommends
        0 <= pos <= s.len(),
{
    if pos < s.len() && s[pos] == '[' {
        let p = scan_end(s, pos + 1, CharClass::Space);
        match name_end(s, p) {
            Some(ne) => {
                let p2 = scan_end(s, ne, CharClass::Space);
                if p2 < s.len() && s[p2] == ']' {
                    let p3 = scan_end(s, p2 + 1, CharClass::Space);
                    if p3 < s.len() && is_nl(s[p3]) {
                        let body = lines_parse(s, p3 + 1);
                        Some((body.0, s.subrange(p, ne), body.1))
                    } else {
                        None
                    }
                } else {
                    None
                }
            },
            None => None,
        }
    } else {
        None
    }
}

/// Bounds for `section_parse`: a section consumes at least its header.
pub proof fn lemma_section_parse_bounds(s: Seq<char>, pos: int)
    requires
        0 <= pos <= s.len(),
    ensures
        section_parse(s, pos) matches Some(r) ==> pos + 4 <= r.0 <= s.len(),
{
    if pos < s.len() && s[pos] == '[' {
        lemma_scan_end(s, pos + 1, CharClass::Space);
        let p = scan_end(s, pos + 1, CharClass::Space);
        lemma_leaf_bounds(s, p);
        if let Some(ne) = name_end(s, p) {
            lemma_scan_end(s, ne, CharClass::Space);
            let p2 = scan_end(s, ne, CharClass::Space);
            if p2 < s.len() && s[p2] == ']' {
                lemma_scan_end(s, p2 + 1, CharClass::Space);
                let p3 = scan_end(s, p2 + 1, CharClass::Space);
                if p3 < s.len() && is_nl(s[p3]) {
                    lemma_lines_parse_bounds(s, p3 + 1);
                }
            }
        }
    }
}

/// The file rule from position `pos`: whitespace and line breaks, then zero
/// or more comments and sections, ending exactly at the end of the input.
/// Returns the map from section name to section body, where a later section
/// of the same name replaces an earlier one.
pub open spec fn file_parse_at(s: Seq<char>, pos: int) -> Option<
    Map<Seq<char>, Map<Seq<char>, ValueModel>>,
>
    decreases s.len() - pos,
    when 0 <= pos <= s.len()
    via file_parse_at_decreases
{
    let p = scan_end(s, pos, CharClass::Layout);
    if p == s.len() {
        Some(Map::empty())
    } else if s[p] == ';' {
        match comment_end(s, p) {
            Some(e) => file_parse_at(s, e),
            None => None,
        }
    } else if s[p] == '[' {
        match section_parse(s, p) {
            Some(r) => match file_parse_at(s, r.0) {
                Some(rest) => Some(
                    if rest.contains_key(r.1) {
                        rest
                    } else {
                        rest.insert(r.1, r.2)
                    },
                ),
                None => None,
            },
            None => None,
        }
    } else {
        None
    }
}

#[via_fn]
proof fn file_parse_at_decreases(s: Seq<char>, pos: int) {
    lemma_scan_end(s, pos, CharClass::Layout);
    let p = scan_end(s, pos, CharClass::Layout);
    if p < s.len() {
        lemma_leaf_bounds(s, p);
        lemma_section_parse_bounds(s, p);
    }
}

/// The meaning of an input: `Some` exactly when the whole input conforms to
/// the file rule of the grammar, and then the configuration it denotes, as
/// a map from section name to that section's key-to-value map.
pub open spec fn ini_model(s: Seq<char>) -> Option<Map<Seq<char>, Map<Seq<char>, ValueModel>>> {
    file_parse_at(s, 0)
}

} // verus!
