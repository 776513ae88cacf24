//! The grammar engine: executable recursive descent over the input,
//! verified to agree with the grammar's definition in the `model` module
//! and to return well-formed parse trees in the sense of the `wf` module.

use vstd::prelude::*;
use vstd::string::StrSliceExecFns;

use crate::model::array_parse;
use crate::model::class_accepts;
use crate::model::comment_end;
use crate::model::file_parse_at;
use crate::model::is_nl;
use crate::model::key_end;
use crate::model::lemma_array_parse_bounds;
use crate::model::lemma_line_parse_bounds;
use crate::model::lemma_lines_parse_bounds;
use crate::model::lemma_pair_parse_bounds;
use crate::model::lemma_scan_end;
use crate::model::lemma_section_parse_bounds;
use crate::model::line_parse;
use crate::model::lines_parse;
use crate::model::name_end;
use crate::model::pair_parse;
use crate::model::scan_end;
use crate::model::section_parse;
use crate::model::value_end;
use crate::model::CharClass;
use crate::model::LinePayload;
use crate::tree::Node;
use crate::tree::ParseError;
use crate::tree::Rule;
use crate::tree::Span;
use crate::wf::wf_array;
use crate::wf::wf_array_item;
use crate::wf::wf_comment;
use crate::wf::wf_by_rule;
use crate::wf::wf_eoi;
use crate::wf::wf_file;
use crate::wf::wf_file_items;
use crate::wf::wf_leaf;
use crate::wf::wf_lines;
use crate::wf::wf_pair;
use crate::wf::wf_section;

verus! {

/// Whether `c` belongs to class `k`; the executable twin of
/// `class_accepts`.
fn class_check(k: CharClass, c: char) -> (r: bool)
    ensures
        r == class_accepts(k, c),
{
    match k {
        CharClass::Space => c == ' ' || c == '\t',
        CharClass::Layout => c == ' ' || c == '\t' || c == '\n' || c == '\r',
        CharClass::Alpha => ('a' <= c && c <= 'z') || ('A' <= c && c <= 'Z'),
        CharClass::Upper => 'A' <= c && c <= 'Z',
        CharClass::ValueChar => !(c == '[' || c == ']' || c == ',' || c == ' ' || c == '\t'
            || c == '\n' || c == '\r'),
        CharClass::CommentChar => !(c == '\n' || c == '\r'),
    }
}

/// Whether `c` is a line break; the executable twin of `is_nl`.
fn is_nl_check(c: char) -> (r: bool)
    ensures
        r == is_nl(c),
{
    c == '\n' || c == '\r'
}

/// The characters of `raw`, in order, for random access by position.
fn to_chars(raw: &str) -> (r: Vec<char>)
    ensures
        r@ == raw@,
{
    let n = raw.unicode_len();
    let mut v: Vec<char> = Vec::new();
    let mut i: usize = 0;
    while i < n
        invariant
            n == raw@.len(),
            i <= n,
            v@.len() == i,
            forall|j: int| 0 <= j < i ==> v@[j] == raw@[j],
        decreases n - i,
    {
        v.push(raw.get_char(i));
        i = i + 1;
    }
    proof {
        assert(v@ =~= raw@);
    }
    v
}

/// The end of the maximal run of `k`-characters starting at `pos`.
fn scan(s: &Vec<char>, pos: usize, k: CharClass) -> (r: usize)
    requires
        pos <= s@.len(),
    ensures
        r as int == scan_end(s@, pos as int, k),
        pos <= r <= s@.len(),
{
    let mut i = pos;
    while i < s.len() && class_check(k, s[i])
        invariant
            pos <= i <= s@.len(),
            scan_end(s@, pos as int, k) == scan_end(s@, i as int, k),
        decreases s@.len() - i,
    {
        i = i + 1;
    }
    i
}

/// A childless node of rule `rule` covering `[start, end)` of `raw`.
fn leaf(raw: &str, rule: Rule, start: usize, end: usize) -> (n: Node)
    requires
        start <= end <= raw@.len(),
    ensures
        wf_leaf(n, raw@, rule, start as int, end as int),
{
    Node {
        rule,
        span: Span { start, end },
        text: raw.substring_char(start, end).to_owned(),
        children: Vec::new(),
    }
}

/// The end of a nonempty run of `k`-characters at `pos`, or `None` when
/// `pos` does not start with one.
fn match_run(s: &Vec<char>, pos: usize, k: CharClass) -> (r: Option<usize>)
    requires
        pos <= s@.len(),
    ensures
        match r {
            Some(e) => pos < s@.len() && class_accepts(k, s@[pos as int]) && pos < e <= s@.len()
                && e as int == scan_end(s@, pos as int, k),
            None => !(pos < s@.len() && class_accepts(k, s@[pos as int])),
        },
{
    if pos < s.len() && class_check(k, s[pos]) {
        let e = scan(s, pos, k);
        proof {
            lemma_scan_end(s@, pos as int, k);
        }
        Some(e)
    } else {
        None
    }
}

/// The end of a comment at `pos`, or `None` when none starts there.
fn match_comment(s: &Vec<char>, pos: usize) -> (r: Option<usize>)
    requires
        pos <= s@.len(),
    ensures
        match r {
            Some(e) => comment_end(s@, pos as int) == Some(e as int) && pos < e <= s@.len(),
            None => comment_end(s@, pos as int) is None,
        },
{
    if pos < s.len() && s[pos] == ';' {
        match match_run(s, pos + 1, CharClass::CommentChar) {
            Some(e) => Some(e),
            None => None,
        }
    } else {
        None
    }
}

/// The item texts a sequence of value nodes carries, in order.
pub open spec fn texts_of(ch: Seq<Node>) -> Seq<Seq<char>> {
    ch.map_values(|c: Node| c.text@)
}

/// Parses an array value at `pos`, returning its node or a syntax error.
fn parse_array(raw: &str, s: &Vec<char>, pos: usize) -> (r: Result<Node, ParseError>)
    requires
        s@ == raw@,
        pos <= s@.len(),
    ensures
        r matches Ok(n) ==> wf_array(n, s@, pos as int),
        r is Ok <==> array_parse(s@, pos as int) is Some,
        r matches Err(e) ==> e matches ParseError::Syntax { .. },
{
    if !(pos < s.len() && s[pos] == '[') {
        return Err(ParseError::Syntax { pos, rule: Rule::array_value });
    }
    let p = scan(s, pos + 1, CharClass::Space);
    let first_end = match match_run(s, p, CharClass::ValueChar) {
        Some(e) => e,
        None => {
            return Err(ParseError::Syntax { pos: p, rule: Rule::value });
        },
    };
    let mut items: Vec<Node> = Vec::new();
    items.push(leaf(raw, Rule::value, p, first_end));
    proof {
        assert(texts_of(items@) =~= seq![s@.subrange(p as int, first_end as int)]);
    }
    let mut cur = first_end;
    loop
        invariant
            s@ == raw@,
            pos < s@.len(),
            pos < cur <= s@.len(),
            array_parse(s@, pos as int) == crate::model::array_rest(
                s@,
                cur as int,
                texts_of(items@),
            ),
            forall|i: int|
                0 <= i < items@.len() ==> wf_array_item(
                    #[trigger] items@[i],
                    s@,
                    items@[i].text@,
                ),
        decreases s@.len() - cur,
    {
        let p2 = scan(s, cur, CharClass::Space);
        if p2 < s.len() && s[p2] == ']' {
            let end = p2 + 1;
            let text = raw.substring_char(pos, end).to_owned();
            let n = Node { rule: Rule::array_value, span: Span { start: pos, end }, text, children: items };
            proof {
                let r = array_parse(s@, pos as int).unwrap();
                assert(r.1 =~= texts_of(n.children@));
            }
            return Ok(n);
        } else if p2 < s.len() && s[p2] == ',' {
            let q = scan(s, p2 + 1, CharClass::Space);
            match match_run(s, q, CharClass::ValueChar) {
                Some(e) => {
                    let ghost old_items = items@;
                    items.push(leaf(raw, Rule::value, q, e));
                    proof {
                        assert(texts_of(items@) =~= texts_of(old_items).push(
                            s@.subrange(q as int, e as int),
                        ));
                    }
                    cur = e;
                },
                None => {
                    return Err(ParseError::Syntax { pos: q, rule: Rule::value });
                },
            }
        } else {
            return Err(ParseError::Syntax { pos: p2, rule: Rule::array_value });
        }
    }
}

/// Parses a pair at `pos`, returning its node or a syntax error.
fn parse_pair(raw: &str, s: &Vec<char>, pos: usize) -> (r: Result<Node, ParseError>)
    requires
        s@ == raw@,
        pos <= s@.len(),
    ensures
        r matches Ok(n) ==> wf_pair(n, s@, pos as int),
        r is Ok <==> pair_parse(s@, pos as int) is Some,
        r matches Err(e) ==> e matches ParseError::Syntax { .. },
{
    let kend = match match_run(s, pos, CharClass::Alpha) {
        Some(e) => e,
        None => {
            return Err(ParseError::Syntax { pos, rule: Rule::key });
        },
    };
    let key_node = leaf(raw, Rule::key, pos, kend);
    let p = scan(s, kend, CharClass::Space);
    if !(p < s.len() && s[p] == '=') {
        return Err(ParseError::Syntax { pos: p, rule: Rule::pair });
    }
    let q = scan(s, p + 1, CharClass::Space);
    let val_node = if q < s.len() && s[q] == '[' {
        match parse_array(raw, s, q) {
            Ok(n) => n,
            Err(e) => {
                return Err(e);
            },
        }
    } else {
        match match_run(s, q, CharClass::ValueChar) {
            Some(e) => leaf(raw, Rule::value, q, e),
            None => {
                return Err(ParseError::Syntax { pos: q, rule: Rule::value });
            },
        }
    };
    proof {
        lemma_array_parse_bounds(s@, q as int);
    }
    let end = val_node.span.end;
    let text = raw.substring_char(pos, end).to_owned();
    let mut children: Vec<Node> = Vec::new();
    children.push(key_node);
    children.push(val_node);
    Ok(Node { rule: Rule::pair, span: Span { start: pos, end }, text, children })
}

/// What `parse_line` promises: it agrees with the line rule, handing back
/// the line's end and its node, if the line contributes one.
pub open spec fn line_result_ok(r: Option<(usize, Option<Node>)>, s: Seq<char>, pos: int) -> bool {
    match r {
        None => line_parse(s, pos) is None,
        Some(rr) => match line_parse(s, pos) {
            Some(lr) => {
                &&& rr.0 == lr.0
                &&& match lr.1 {
                    LinePayload::Blank => rr.1 is None,
                    LinePayload::Comment => rr.1 matches Some(n) && wf_comment(
                        n,
                        s,
                        scan_end(s, pos, CharClass::Space),
                    ),
                    LinePayload::Entry(k, v) => rr.1 matches Some(n) && wf_pair(
                        n,
                        s,
                        scan_end(s, pos, CharClass::Space),
                    ),
                }
            },
            None => false,
        },
    }
}

/// Parses one section line at `pos`: `None` when no line matches there
/// (which ends the section), otherwise the line's end position and its
/// comment or pair node, if any.
fn parse_line(raw: &str, s: &Vec<char>, pos: usize) -> (r: Option<(usize, Option<Node>)>)
    requires
        s@ == raw@,
        pos <= s@.len(),
    ensures
        line_result_ok(r, s@, pos as int),
{
    let p = scan(s, pos, CharClass::Space);
    if p < s.len() && is_nl_check(s[p]) {
        return Some((p + 1, None));
    }
    if p < s.len() && s[p] == ';' {
        match match_comment(s, p) {
            Some(e) => {
                if e < s.len() && is_nl_check(s[e]) {
                    return Some((e + 1, Some(leaf(raw, Rule::comment, p, e))));
                } else {
                    return None;
                }
            },
            None => {
                return None;
            },
        }
    }
    match parse_pair(raw, s, p) {
        Ok(n) => {
            proof {
                lemma_pair_parse_bounds(s@, p as int);
            }
            let p2 = scan(s, n.span.end, CharClass::Space);
            if p2 < s.len() && is_nl_check(s[p2]) {
                Some((p2 + 1, Some(n)))
            } else {
                None
            }
        },
        Err(_) => None,
    }
}

/// Parses the run of lines forming a section's body, returning their nodes
/// and the position where the run stops.
fn parse_lines(raw: &str, s: &Vec<char>, pos: usize) -> (r: (Vec<Node>, usize))
    requires
        s@ == raw@,
        pos <= s@.len(),
    ensures
        wf_lines(r.0@, s@, pos as int),
        r.1 as int == lines_parse(s@, pos as int).0,
        pos <= r.1 <= s@.len(),
    decreases s@.len() - pos,
{
    proof {
        lemma_line_parse_bounds(s@, pos as int);
        lemma_lines_parse_bounds(s@, pos as int);
    }
    match parse_line(raw, s, pos) {
        None => (Vec::new(), pos),
        Some((e, c)) => {
            let rec = parse_lines(raw, s, e);
            match c {
                None => rec,
                Some(n) => {
                    let (mut ch, end) = rec;
                    let ghost rest = ch@;
                    ch.insert(0, n);
                    proof {
                        assert(ch@.drop_first() =~= rest);
                    }
                    (ch, end)
                },
            }
        },
    }
}

/// Parses a section at `pos`, returning its node or a syntax error.
fn parse_section(raw: &str, s: &Vec<char>, pos: usize) -> (r: Result<Node, ParseError>)
    requires
        s@ == raw@,
        pos <= s@.len(),
    ensures
        r matches Ok(n) ==> wf_section(n, s@, pos as int),
        r is Ok <==> section_parse(s@, pos as int) is Some,
        r matches Err(e) ==> e matches ParseError::Syntax { .. },
{
    if !(pos < s.len() && s[pos] == '[') {
        return Err(ParseError::Syntax { pos, rule: Rule::section });
    }
    let p = scan(s, pos + 1, CharClass::Space);
    let ne = match match_run(s, p, CharClass::Upper) {
        Some(e) => e,
        None => {
            return Err(ParseError::Syntax { pos: p, rule: Rule::name });
        },
    };
    let name_node = leaf(raw, Rule::name, p, ne);
    let p2 = scan(s, ne, CharClass::Space);
    if !(p2 < s.len() && s[p2] == ']') {
        return Err(ParseError::Syntax { pos: p2, rule: Rule::section });
    }
    let p3 = scan(s, p2 + 1, CharClass::Space);
    if !(p3 < s.len() && is_nl_check(s[p3])) {
        return Err(ParseError::Syntax { pos: p3, rule: Rule::section });
    }
    let (mut lines, end) = parse_lines(raw, s, p3 + 1);
    let mut children: Vec<Node> = Vec::new();
    children.push(name_node);
    let ghost line_nodes = lines@;
    children.append(&mut lines);
    proof {
        assert(children@.drop_first() =~= line_nodes);
    }
    let text = raw.substring_char(pos, end).to_owned();
    Ok(Node { rule: Rule::section, span: Span { start: pos, end }, text, children })
}

/// Parses the top-level items from `pos` to the end of the input,
/// returning their nodes (closed by the end-of-input marker) or the first
/// syntax error.
fn parse_file_items(raw: &str, s: &Vec<char>, pos: usize) -> (r: Result<Vec<Node>, ParseError>)
    requires
        s@ == raw@,
        pos <= s@.len(),
    ensures
        r matches Ok(ch) ==> wf_file_items(ch@, s@, pos as int),
        r is Ok <==> file_parse_at(s@, pos as int) is Some,
        r matches Err(e) ==> e matches ParseError::Syntax { .. },
    decreases s@.len() - pos,
{
    let p = scan(s, pos, CharClass::Layout);
    if p == s.len() {
        let mut ch: Vec<Node> = Vec::new();
        ch.push(leaf(raw, Rule::EOI, p, p));
        Ok(ch)
    } else if s[p] == ';' {
        match match_comment(s, p) {
            Some(e) => {
                match parse_file_items(raw, s, e) {
                    Ok(mut rest) => {
                        let ghost tail = rest@;
                        rest.insert(0, leaf(raw, Rule::comment, p, e));
                        proof {
                            assert(rest@.drop_first() =~= tail);
                        }
                        Ok(rest)
                    },
                    Err(er) => Err(er),
                }
            },
            None => Err(ParseError::Syntax { pos: p, rule: Rule::comment }),
        }
    } else if s[p] == '[' {
        match parse_section(raw, s, p) {
            Ok(sec) => {
                proof {
                    lemma_section_parse_bounds(s@, p as int);
                }
                let send = sec.span.end;
                match parse_file_items(raw, s, send) {
                    Ok(mut rest) => {
                        let ghost tail = rest@;
                        rest.insert(0, sec);
                        proof {
                            assert(rest@.drop_first() =~= tail);
                        }
                        Ok(rest)
                    },
                    Err(er) => Err(er),
                }
            },
            Err(er) => Err(er),
        }
    } else {
        Err(ParseError::Syntax { pos: p, rule: Rule::file })
    }
}

/// Parses a whole input against the file rule, returning the file node or
/// the first syntax error.
fn parse_file(raw: &str, s: &Vec<char>) -> (r: Result<Node, ParseError>)
    requires
        s@ == raw@,
    ensures
        r matches Ok(n) ==> wf_file(n, s@, 0),
        r is Ok <==> file_parse_at(s@, 0) is Some,
        r matches Err(e) ==> e matches ParseError::Syntax { .. },
{
    match parse_file_items(raw, s, 0) {
        Ok(ch) => {
            let end = s.len();
            let text = raw.to_owned();
            proof {
                assert(raw@.subrange(0, s@.len() as int) =~= raw@);
            }
            Ok(Node { rule: Rule::file, span: Span { start: 0, end }, text, children: ch })
        },
        Err(e) => Err(e),
    }
}

/// Where each rule's match at the start of `s` ends: `Some` of the end
/// position when the rule matches a prefix of `s`, `None` when it does not.
pub open spec fn rule_match_end(rule: Rule, s: Seq<char>) -> Option<int> {
    match rule {
        Rule::WHITESPACE => if 0 < s.len() && class_accepts(CharClass::Space, s[0]) {
            Some(1int)
        } else {
            None
        },
        Rule::comment => comment_end(s, 0),
        Rule::key => key_end(s, 0),
        Rule::name => name_end(s, 0),
        Rule::value => value_end(s, 0),
        Rule::array_value => match array_parse(s, 0) {
            Some(r) => Some(r.0),
            None => None,
        },
        Rule::pair => match pair_parse(s, 0) {
            Some(r) => Some(r.0),
            None => None,
        },
        Rule::section => match section_parse(s, 0) {
            Some(r) => Some(r.0),
            None => None,
        },
        Rule::file => match file_parse_at(s, 0) {
            Some(_) => Some(s.len() as int),
            None => None,
        },
        Rule::EOI => if s.len() == 0 {
            Some(0int)
        } else {
            None
        },
    }
}

/// The grammar engine.
pub struct INIGrammar;

impl INIGrammar {
    /// Matches `input` against `rule`, starting at the first character.
    /// On success the returned node is tagged with `rule` and covers
    /// exactly the matched prefix; for the file rule it is a well-formed
    /// parse tree of the whole input, fit for the reducer.
    pub fn parse(rule: Rule, input: &str) -> (r: Result<Node, ParseError>)
        ensures
            r is Ok <==> rule_match_end(rule, input@) is Some,
            r matches Ok(n) ==> {
                &&& n.rule == rule
                &&& n.span.start == 0
                &&& rule_match_end(rule, input@) == Some(n.span.end as int)
                &&& n.text@ == input@.subrange(0, n.span.end as int)
            },
            r matches Ok(n) ==> wf_by_rule(rule, n, input@),
            r matches Err(e) ==> e matches ParseError::Syntax { .. },
    {
        let s = to_chars(input);
        match rule {
            Rule::WHITESPACE => {
                if s.len() > 0 && class_check(CharClass::Space, s[0]) {
                    Ok(leaf(input, Rule::WHITESPACE, 0, 1))
                } else {
                    Err(ParseError::Syntax { pos: 0, rule })
                }
            },
            Rule::EOI => {
                if s.len() == 0 {
                    Ok(leaf(input, Rule::EOI, 0, 0))
                } else {
                    Err(ParseError::Syntax { pos: 0, rule })
                }
            },
            Rule::comment => match match_comment(&s, 0) {
                Some(e) => Ok(leaf(input, Rule::comment, 0, e)),
                None => Err(ParseError::Syntax { pos: 0, rule }),
            },
            Rule::key => match match_run(&s, 0, CharClass::Alpha) {
                Some(e) => Ok(leaf(input, Rule::key, 0, e)),
                None => Err(ParseError::Syntax { pos: 0, rule }),
            },
            Rule::name => match match_run(&s, 0, CharClass::Upper) {
                Some(e) => Ok(leaf(input, Rule::name, 0, e)),
                None => Err(ParseError::Syntax { pos: 0, rule }),
            },
            Rule::value => match match_run(&s, 0, CharClass::ValueChar) {
                Some(e) => Ok(leaf(input, Rule::value, 0, e)),
                None => Err(ParseError::Syntax { pos: 0, rule }),
            },
            Rule::array_value => {
                proof {
                    lemma_array_parse_bounds(input@, 0);
                }
                parse_array(input, &s, 0)
            },
            Rule::pair => {
                proof {
                    lemma_pair_parse_bounds(input@, 0);
                }
                parse_pair(input, &s, 0)
            },
            Rule::section => {
                proof {
                    lemma_section_parse_bounds(input@, 0);
                }
                parse_section(input, &s, 0)
            },
            Rule::file => parse_file(input, &s),
        }
    }
}

} // verus!
