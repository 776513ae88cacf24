//! The tree reducer: walks a parse tree and materializes a `Config`, plus
//! the whole-pipeline entry point `parse_ini`.
//!
//! The reducer is total over arbitrary trees. On any tree of the shape the
//! grammar can produce it returns the configuration the tree denotes; on
//! any other shape it fails loudly with an internal error rather than
//! dropping data, so drift between grammar and reducer surfaces as an
//! error, never as silent loss. The glue lemmas at the end prove that a
//! well-formed tree of an input always has that shape and denotes exactly
//! the input's meaning under the grammar model.

use vstd::prelude::*;

use crate::config::pairs_map_of;
use crate::config::sections_map_of;
use crate::config::Config;
use crate::config::Section;
use crate::config::Value;
use crate::engine::texts_of;
use crate::engine::INIGrammar;
use crate::model::comment_end;
use crate::model::file_parse_at;
use crate::model::ini_model;
use crate::model::line_parse;
use crate::model::lines_parse;
use crate::model::pair_parse;
use crate::model::scan_end;
use crate::model::section_parse;
use crate::model::CharClass;
use crate::model::LinePayload;
use crate::model::ValueModel;
use crate::tree::Node;
use crate::tree::ParseError;
use crate::tree::Rule;
use crate::wf::wf_file;
use crate::wf::wf_file_items;
use crate::wf::wf_lines;
use crate::wf::wf_pair;
use crate::wf::wf_section;

verus! {

/// The value a pair's second child denotes: the scalar text of a value
/// node, or the item texts of an array node.
pub open spec fn node_value_model(c: Node) -> ValueModel {
    if c.rule == Rule::value {
        ValueModel::Scalar(c.text@)
    } else {
        ValueModel::Array(texts_of(c.children@))
    }
}

/// The two-child shape the reducer accepts for a pair node: a key child
/// and a value or array child.
pub open spec fn shape_pair_ok(n: Node) -> bool {
    &&& n.children@.len() == 2
    &&& n.children@[0].rule == Rule::key
    &&& (n.children@[1].rule == Rule::value || n.children@[1].rule == Rule::array_value)
}

/// The child shapes the reducer accepts inside a section: name, comment,
/// or well-shaped pair nodes.
pub open spec fn shape_entries_ok(ch: Seq<Node>) -> bool
    decreases ch.len(),
{
    if ch.len() == 0 {
        true
    } else {
        &&& (ch[0].rule == Rule::name || ch[0].rule == Rule::comment || (ch[0].rule == Rule::pair
            && shape_pair_ok(ch[0])))
        &&& shape_entries_ok(ch.drop_first())
    }
}

/// The child shapes the reducer accepts at the top of the tree: comments,
/// the end-of-input marker, or well-shaped sections.
pub open spec fn shape_items_ok(ch: Seq<Node>) -> bool
    decreases ch.len(),
{
    if ch.len() == 0 {
        true
    } else {
        &&& (ch[0].rule == Rule::comment || ch[0].rule == Rule::EOI || (ch[0].rule == Rule::section
            && shape_entries_ok(ch[0].children@)))
        &&& shape_items_ok(ch.drop_first())
    }
}

/// A tree the reducer accepts in full: a file node of well-shaped items.
pub open spec fn shape_file_ok(n: Node) -> bool {
    &&& n.rule == Rule::file
    &&& shape_items_ok(n.children@)
}

/// What a section's children denote: the section's name, if a name child
/// occurs (the last one winning), and the key-to-value map of its pair
/// children, a later key replacing an earlier one.
pub open spec fn reduce_entries(ch: Seq<Node>) -> (Option<Seq<char>>, Map<Seq<char>, ValueModel>)
    decreases ch.len(),
{
    if ch.len() == 0 {
        (None, Map::empty())
    } else {
        let rest = reduce_entries(ch.drop_first());
        let c = ch[0];
        if c.rule == Rule::name {
            (
                match rest.0 {
                    Some(nm) => Some(nm),
                    None => Some(c.text@),
                },
                rest.1,
            )
        } else if c.rule == Rule::pair {
            (
                rest.0,
                if rest.1.contains_key(c.children@[0].text@) {
                    rest.1
                } else {
                    rest.1.insert(c.children@[0].text@, node_value_model(c.children@[1]))
                },
            )
        } else {
            rest
        }
    }
}

/// What a section node denotes: its name (empty if no name child occurs)
/// and its key-to-value map.
pub open spec fn reduce_section_model(n: Node) -> (Seq<char>, Map<Seq<char>, ValueModel>) {
    let r = reduce_entries(n.children@);
    (
        match r.0 {
            Some(nm) => nm,
            None => Seq::empty(),
        },
        r.1,
    )
}

/// What the top-level children denote: the name-to-section map of the
/// section children, a later section replacing an earlier one of the same
/// name.
pub open spec fn reduce_file_model(ch: Seq<Node>) -> Map<Seq<char>, Map<Seq<char>, ValueModel>>
    decreases ch.len(),
{
    if ch.len() == 0 {
        Map::empty()
    } else {
        let rest = reduce_file_model(ch.drop_first());
        let c = ch[0];
        if c.rule == Rule::section {
            let sm = reduce_section_model(c);
            if rest.contains_key(sm.0) {
                rest
            } else {
                rest.insert(sm.0, sm.1)
            }
        } else {
            rest
        }
    }
}

/// What a whole tree denotes.
pub open spec fn tree_model(n: Node) -> Map<Seq<char>, Map<Seq<char>, ValueModel>> {
    reduce_file_model(n.children@)
}

/// Turns a pair's second child into a `Value`, or fails on a child the
/// grammar can never put there.
fn reduce_value_node(c: &Node) -> (r: Result<Value, ParseError>)
    ensures
        r is Ok <==> (c.rule == Rule::value || c.rule == Rule::array_value),
        r matches Ok(v) ==> v@ == node_value_model(*c),
        r matches Err(e) ==> e == ParseError::InvariantViolation,
{
    if c.rule == Rule::value {
        Ok(Value::String(c.text.clone()))
    } else if c.rule == Rule::array_value {
        let mut items: Vec<String> = Vec::new();
        let mut i: usize = 0;
        while i < c.children.len()
            invariant
                i <= c.children@.len(),
                items@.len() == i,
                forall|j: int| 0 <= j < i ==> items@[j]@ == c.children@[j].text@,
            decreases c.children@.len() - i,
        {
            items.push(c.children[i].text.clone());
            i = i + 1;
        }
        proof {
            assert(items.deep_view() =~= texts_of(c.children@));
        }
        Ok(Value::Array(items))
    } else {
        Err(ParseError::InvariantViolation)
    }
}

/// Extracts the key and the value of a pair node, or fails on a shape the
/// grammar can never produce.
fn reduce_pair_node(c: &Node) -> (r: Result<(String, Value), ParseError>)
    ensures
        r is Ok <==> shape_pair_ok(*c),
        r matches Ok(kv) ==> kv.0@ == c.children@[0].text@ && kv.1@ == node_value_model(
            c.children@[1],
        ),
        r matches Err(e) ==> e == ParseError::InvariantViolation,
{
    if c.children.len() != 2 {
        return Err(ParseError::InvariantViolation);
    }
    if !(c.children[0].rule == Rule::key) {
        return Err(ParseError::InvariantViolation);
    }
    match reduce_value_node(&c.children[1]) {
        Ok(v) => Ok((c.children[0].text.clone(), v)),
        Err(e) => Err(e),
    }
}

/// Whether some pair already carries key `k`.
fn pairs_contain(ps: &Vec<(String, Value)>, k: &String) -> (r: bool)
    ensures
        r == pairs_map_of(ps@).contains_key(k@),
{
    proof {
        crate::config::lemma_pairs_map_domain(ps@, k@);
    }
    let mut i: usize = 0;
    while i < ps.len()
        invariant
            i <= ps@.len(),
            forall|j: int| 0 <= j < i ==> ps@[j].0@ != k@,
        decreases ps@.len() - i,
    {
        if ps[i].0 == *k {
            proof {
                assert(ps@[i as int].0@ == k@);
                assert(exists|j: int| 0 <= j < ps@.len() && #[trigger] ps@[j].0@ == k@);
                crate::config::lemma_pairs_map_domain(ps@, k@);
            }
            return true;
        }
        i = i + 1;
    }
    false
}

/// Whether some section already carries name `n`.
fn sections_contain(ss: &Vec<Section>, n: &String) -> (r: bool)
    ensures
        r == sections_map_of(ss@).contains_key(n@),
{
    proof {
        crate::config::lemma_sections_map_domain(ss@, n@);
    }
    let mut i: usize = 0;
    while i < ss.len()
        invariant
            i <= ss@.len(),
            forall|j: int| 0 <= j < i ==> ss@[j].name@ != n@,
        decreases ss@.len() - i,
    {
        if ss[i].name == *n {
            proof {
                assert(ss@[i as int].name@ == n@);
                assert(exists|j: int| 0 <= j < ss@.len() && #[trigger] ss@[j].name@ == n@);
                crate::config::lemma_sections_map_domain(ss@, n@);
            }
            return true;
        }
        i = i + 1;
    }
    false
}

/// Reduces the children of a section node from index `i` on: the section's
/// name, if any name child occurs, and its pairs, keys pairwise distinct.
fn reduce_entries_from(n: &Node, i: usize) -> (r: Result<
    (Option<String>, Vec<(String, Value)>),
    ParseError,
>)
    requires
        i <= n.children@.len(),
    ensures
        r is Ok <==> shape_entries_ok(n.children@.skip(i as int)),
        r matches Ok(nv) ==> ({
            let m = reduce_entries(n.children@.skip(i as int));
            &&& (match nv.0 {
                Some(s) => m.0 == Some(s@),
                None => m.0 is None,
            })
            &&& pairs_map_of(nv.1@) == m.1
            &&& forall|a: int, b: int| 0 <= a < b < nv.1@.len() ==> nv.1@[a].0@ != nv.1@[b].0@
        }),
        r matches Err(e) ==> e == ParseError::InvariantViolation,
    decreases n.children@.len() - i,
{
    if i == n.children.len() {
        proof {
            assert(n.children@.skip(i as int) =~= Seq::<Node>::empty());
        }
        return Ok((None, Vec::new()));
    }
    let rest = match reduce_entries_from(n, i + 1) {
        Ok(r) => r,
        Err(e) => {
            proof {
                assert(n.children@.skip(i as int).drop_first() =~= n.children@.skip(i as int + 1));
            }
            return Err(e);
        },
    };
    proof {
        assert(n.children@.skip(i as int).drop_first() =~= n.children@.skip(i as int + 1));
        assert(n.children@.skip(i as int)[0] == n.children@[i as int]);
    }
    let c = &n.children[i];
    if c.rule == Rule::name {
        let nm = match rest.0 {
            Some(s) => Some(s),
            None => Some(c.text.clone()),
        };
        Ok((nm, rest.1))
    } else if c.rule == Rule::pair {
        match reduce_pair_node(c) {
            Ok((k, v)) => {
                let (nm, mut ps) = rest;
                if pairs_contain(&ps, &k) {
                    Ok((nm, ps))
                } else {
                    proof {
                        crate::config::lemma_pairs_map_domain(ps@, k@);
                    }
                    let ghost old_ps = ps@;
                    ps.insert(0, (k, v));
                    proof {
                        assert(ps@.drop_first() =~= old_ps);
                    }
                    Ok((nm, ps))
                }
            },
            Err(e) => Err(e),
        }
    } else if c.rule == Rule::comment {
        Ok(rest)
    } else {
        Err(ParseError::InvariantViolation)
    }
}

/// Reduces one section node, or fails on a child shape the grammar can
/// never produce.
fn reduce_section_node(c: &Node) -> (r: Result<Section, ParseError>)
    ensures
        r is Ok <==> shape_entries_ok(c.children@),
        r matches Ok(sec) ==> sec.wf() && sec.name@ == reduce_section_model(*c).0
            && sec.pairs_map() == reduce_section_model(*c).1,
        r matches Err(e) ==> e == ParseError::InvariantViolation,
{
    proof {
        assert(c.children@.skip(0) =~= c.children@);
    }
    match reduce_entries_from(c, 0) {
        Ok((nm, ps)) => {
            let name = match nm {
                Some(s) => s,
                None => String::new(),
            };
            Ok(Section { name, pairs: ps })
        },
        Err(e) => Err(e),
    }
}

/// Reduces the top-level children from index `i` on into sections with
/// pairwise distinct names.
fn reduce_sections_from(n: &Node, i: usize) -> (r: Result<Vec<Section>, ParseError>)
    requires
        i <= n.children@.len(),
    ensures
        r is Ok <==> shape_items_ok(n.children@.skip(i as int)),
        r matches Ok(ss) ==> ({
            &&& forall|a: int, b: int| 0 <= a < b < ss@.len() ==> ss@[a].name@ != ss@[b].name@
            &&& forall|j: int| 0 <= j < ss@.len() ==> (#[trigger] ss@[j]).wf()
            &&& sections_map_of(ss@) == reduce_file_model(n.children@.skip(i as int))
        }),
        r matches Err(e) ==> e == ParseError::InvariantViolation,
    decreases n.children@.len() - i,
{
    if i == n.children.len() {
        proof {
            assert(n.children@.skip(i as int) =~= Seq::<Node>::empty());
        }
        return Ok(Vec::new());
    }
    let rest = match reduce_sections_from(n, i + 1) {
        Ok(r) => r,
        Err(e) => {
            proof {
                assert(n.children@.skip(i as int).drop_first() =~= n.children@.skip(i as int + 1));
            }
            return Err(e);
        },
    };
    proof {
        assert(n.children@.skip(i as int).drop_first() =~= n.children@.skip(i as int + 1));
        assert(n.children@.skip(i as int)[0] == n.children@[i as int]);
    }
    let c = &n.children[i];
    if c.rule == Rule::comment || c.rule == Rule::EOI {
        Ok(rest)
    } else if c.rule == Rule::section {
        match reduce_section_node(c) {
            Ok(sec) => {
                let mut ss = rest;
                if sections_contain(&ss, &sec.name) {
                    Ok(ss)
                } else {
                    proof {
                        crate::config::lemma_sections_map_domain(ss@, sec.name@);
                    }
                    let ghost old_ss = ss@;
                    ss.insert(0, sec);
                    proof {
                        assert(ss@.drop_first() =~= old_ss);
                    }
                    Ok(ss)
                }
            },
            Err(e) => Err(e),
        }
    } else {
        Err(ParseError::InvariantViolation)
    }
}

/// Consumes a parse tree and materializes the `Config` it denotes.
///
/// Total over arbitrary trees: a tree whose root is no file node yields
/// `NoContent`; a tree with a child shape the grammar can never produce
/// yields `InvariantViolation`; every tree the grammar engine returns for
/// the file rule is accepted.
pub fn reduce(tree: &Node) -> (r: Result<Config, ParseError>)
    ensures
        r is Ok <==> shape_file_ok(*tree),
        r matches Ok(c) ==> c.wf() && c@ == tree_model(*tree),
        tree.rule != Rule::file ==> r == Err::<Config, ParseError>(ParseError::NoContent),
        r matches Err(e) ==> (e == ParseError::NoContent || e == ParseError::InvariantViolation),
{
    if !(tree.rule == Rule::file) {
        return Err(ParseError::NoContent);
    }
    proof {
        assert(tree.children@.skip(0) =~= tree.children@);
    }
    match reduce_sections_from(tree, 0) {
        Ok(ss) => Ok(Config { sections: ss }),
        Err(e) => Err(e),
    }
}

/// A well-formed pair node has the shape the reducer accepts and denotes
/// exactly the key and value the grammar model extracts at its position.
proof fn lemma_wf_pair_reduce(n: Node, s: Seq<char>, pos: int)
    requires
        0 <= pos <= s.len(),
        wf_pair(n, s, pos),
    ensures
        shape_pair_ok(n),
        pair_parse(s, pos) matches Some(r) && n.children@[0].text@ == r.1 && node_value_model(
            n.children@[1],
        ) == r.2,
{
    let r = pair_parse(s, pos).unwrap();
    let k = scan_end(s, pos, CharClass::Alpha);
    let p = scan_end(s, k, CharClass::Space);
    let q = scan_end(s, p + 1, CharClass::Space);
    if q < s.len() && s[q] == '[' {
        let ar = crate::model::array_parse(s, q).unwrap();
        assert(texts_of(n.children@[1].children@) =~= ar.1);
    }
}

/// The line nodes of a section body have the shapes the reducer accepts,
/// contribute no name, and denote exactly the map the grammar model
/// assigns to the run of lines.
proof fn lemma_wf_lines_reduce(ch: Seq<Node>, s: Seq<char>, pos: int)
    requires
        0 <= pos <= s.len(),
        wf_lines(ch, s, pos),
    ensures
        shape_entries_ok(ch),
        reduce_entries(ch).0 is None,
        reduce_entries(ch).1 == lines_parse(s, pos).1,
    decreases s.len() - pos,
{
    crate::model::lemma_line_parse_bounds(s, pos);
    match line_parse(s, pos) {
        Some(r) => {
            match r.1 {
                LinePayload::Blank => {
                    lemma_wf_lines_reduce(ch, s, r.0);
                },
                LinePayload::Comment => {
                    lemma_wf_lines_reduce(ch.drop_first(), s, r.0);
                },
                LinePayload::Entry(k, v) => {
                    let q = scan_end(s, pos, CharClass::Space);
                    crate::model::lemma_scan_end(s, pos, CharClass::Space);
                    lemma_wf_pair_reduce(ch[0], s, q);
                    lemma_wf_lines_reduce(ch.drop_first(), s, r.0);
                },
            }
        },
        None => {},
    }
}

/// A well-formed section node has the shape the reducer accepts and
/// denotes exactly the name and map the grammar model extracts at its
/// position.
proof fn lemma_wf_section_reduce(n: Node, s: Seq<char>, pos: int)
    requires
        0 <= pos <= s.len(),
        wf_section(n, s, pos),
    ensures
        n.rule == Rule::section,
        shape_entries_ok(n.children@),
        section_parse(s, pos) matches Some(r) && reduce_section_model(n).0 == r.1
            && reduce_section_model(n).1 == r.2,
{
    let p = scan_end(s, pos + 1, CharClass::Space);
    let ne = scan_end(s, p, CharClass::Upper);
    let p2 = scan_end(s, ne, CharClass::Space);
    let p3 = scan_end(s, p2 + 1, CharClass::Space);
    crate::model::lemma_scan_end(s, pos + 1, CharClass::Space);
    crate::model::lemma_scan_end(s, p, CharClass::Upper);
    crate::model::lemma_scan_end(s, ne, CharClass::Space);
    crate::model::lemma_scan_end(s, p2 + 1, CharClass::Space);
    lemma_wf_lines_reduce(n.children@.drop_first(), s, p3 + 1);
}

/// Well-formed top-level nodes have the shapes the reducer accepts and
/// denote exactly the map the grammar model assigns to the input from
/// their position on.
proof fn lemma_wf_items_reduce(ch: Seq<Node>, s: Seq<char>, pos: int)
    requires
        0 <= pos <= s.len(),
        wf_file_items(ch, s, pos),
    ensures
        shape_items_ok(ch),
        file_parse_at(s, pos) matches Some(m) && reduce_file_model(ch) == m,
    decreases s.len() - pos,
{
    crate::model::lemma_scan_end(s, pos, CharClass::Layout);
    let p = scan_end(s, pos, CharClass::Layout);
    if p == s.len() {
        assert(ch.drop_first().len() == 0);
        assert(shape_items_ok(ch.drop_first()));
        assert(reduce_file_model(ch.drop_first()) =~= Map::<Seq<char>, Map<Seq<char>, ValueModel>>::empty());
        assert(reduce_file_model(ch) =~= Map::<Seq<char>, Map<Seq<char>, ValueModel>>::empty());
    } else if s[p] == ';' {
        crate::model::lemma_leaf_bounds(s, p);
        match comment_end(s, p) {
            Some(e) => {
                lemma_wf_items_reduce(ch.drop_first(), s, e);
            },
            None => {},
        }
    } else {
        crate::model::lemma_section_parse_bounds(s, p);
        match section_parse(s, p) {
            Some(r) => {
                lemma_wf_section_reduce(ch[0], s, p);
                lemma_wf_items_reduce(ch.drop_first(), s, r.0);
            },
            None => {},
        }
    }
}

/// A well-formed parse tree of an input has the shape the reducer accepts
/// and denotes exactly the input's meaning under the grammar model.
pub proof fn lemma_wf_file_reduce(n: Node, s: Seq<char>)
    requires
        wf_file(n, s, 0),
    ensures
        shape_file_ok(n),
        ini_model(s) == Some(tree_model(n)),
{
    lemma_wf_items_reduce(n.children@, s, 0);
}

/// Parses INI text into a `Config`.
///
/// Succeeds exactly on the inputs that conform to the grammar, and then
/// returns the configuration the input denotes under the grammar model:
/// its sections are exactly the `[NAME]` blocks of the input, a later
/// block replacing an earlier one of the same name, and each section maps
/// its keys to the literal scalar texts or array items of the source. On
/// every other input it returns the engine's syntax error; no partial
/// configuration ever escapes.
pub fn parse_ini(input: &str) -> (r: Result<Config, ParseError>)
    ensures
        r is Ok <==> ini_model(input@) is Some,
        r matches Ok(c) ==> c.wf() && ini_model(input@) == Some(c@),
        r matches Err(e) ==> e matches ParseError::Syntax { .. },
{
    match INIGrammar::parse(Rule::file, input) {
        Ok(tree) => {
            proof {
                lemma_wf_file_reduce(tree, input@);
            }
            match reduce(&tree) {
                Ok(c) => Ok(c),
                Err(e) => Err(e),
            }
        },
        Err(e) => Err(e),
    }
}

} // verus!
