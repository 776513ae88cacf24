//! Laws of the dialect, proved once and for all inputs.

use vstd::prelude::*;

use crate::model::class_accepts;
use crate::model::file_parse_at;
use crate::model::ini_model;
use crate::model::key_end;
use crate::model::line_parse;
use crate::model::lines_parse;
use crate::model::name_end;
use crate::model::pair_parse;
use crate::model::scan_end;
use crate::model::section_parse;
use crate::model::value_end;
use crate::model::CharClass;
use crate::model::ValueModel;

verus! {

/// A scan over a run of `k`-characters bounded by a non-`k` character (or
/// by the end of the input) stops exactly at the bound.
pub proof fn lemma_scan_run(s: Seq<char>, a: int, b: int, k: CharClass)
    requires
        0 <= a <= b <= s.len(),
        forall|i: int| a <= i < b ==> class_accepts(k, s[i]),
        b == s.len() || !class_accepts(k, s[b]),
    ensures
        scan_end(s, a, k) == b,
    decreases b - a,
{
    if a < b {
        lemma_scan_run(s, a + 1, b, k);
    }
}

/// An empty input, and an input holding only whitespace and line breaks,
/// are valid files denoting a configuration with no sections.
pub proof fn lemma_whitespace_only_parses_empty(s: Seq<char>)
    requires
        forall|i: int| 0 <= i < s.len() ==> class_accepts(CharClass::Layout, s[i]),
    ensures
        ini_model(s) == Some(Map::<Seq<char>, Map<Seq<char>, ValueModel>>::empty()),
{
    lemma_scan_run(s, 0, s.len() as int, CharClass::Layout);
}

/// Every item of `items`, and of the later-accumulated lists the array
/// rule builds from them, consists of value characters only.
proof fn lemma_array_rest_items(s: Seq<char>, pos: int, items: Seq<Seq<char>>)
    requires
        0 <= pos <= s.len(),
        forall|i: int, j: int|
            0 <= i < items.len() && 0 <= j < items[i].len() ==> class_accepts(
                CharClass::ValueChar,
                #[trigger] items[i][j],
            ),
    ensures
        crate::model::array_rest(s, pos, items) matches Some(r) ==> forall|i: int, j: int|
            0 <= i < r.1.len() && 0 <= j < r.1[i].len() ==> class_accepts(
                CharClass::ValueChar,
                #[trigger] r.1[i][j],
            ),
    decreases s.len() - pos,
{
    crate::model::lemma_scan_end(s, pos, CharClass::Space);
    let p = scan_end(s, pos, CharClass::Space);
    if p < s.len() && s[p] == ',' {
        crate::model::lemma_scan_end(s, p + 1, CharClass::Space);
        let q = scan_end(s, p + 1, CharClass::Space);
        crate::model::lemma_leaf_bounds(s, q);
        if let Some(e) = value_end(s, q) {
            crate::model::lemma_scan_end(s, q, CharClass::ValueChar);
            let item = s.subrange(q, e);
            assert(forall|j: int|
                0 <= j < item.len() ==> class_accepts(CharClass::ValueChar, #[trigger] item[j]));
            lemma_array_rest_items(s, e, items.push(item));
        }
    }
}

/// Array items are taken from the source with no transformation beyond
/// trimming: each item of a parsed array value consists of value
/// characters only, so it carries no whitespace, line break, or structural
/// delimiter, leading, trailing, or inner.
pub proof fn lemma_array_items_trimmed(s: Seq<char>, pos: int)
    requires
        0 <= pos <= s.len(),
    ensures
        crate::model::array_parse(s, pos) matches Some(r) ==> forall|i: int, j: int|
            0 <= i < r.1.len() && 0 <= j < r.1[i].len() ==> class_accepts(
                CharClass::ValueChar,
                #[trigger] r.1[i][j],
            ),
{
    if pos < s.len() && s[pos] == '[' {
        crate::model::lemma_scan_end(s, pos + 1, CharClass::Space);
        let p = scan_end(s, pos + 1, CharClass::Space);
        crate::model::lemma_leaf_bounds(s, p);
        if let Some(e) = value_end(s, p) {
            crate::model::lemma_scan_end(s, p, CharClass::ValueChar);
            let item = s.subrange(p, e);
            assert(forall|j: int|
                0 <= j < item.len() ==> class_accepts(CharClass::ValueChar, #[trigger] item[j]));
            assert(forall|i: int, j: int|
                0 <= i < seq![item].len() && 0 <= j < seq![item][i].len() ==> class_accepts(
                    CharClass::ValueChar,
                    #[trigger] seq![item][i][j],
                ));
            lemma_array_rest_items(s, e, seq![item]);
        }
    }
}

/// A minimal section written at `pos` — `[NAME]`, a line break, one
/// `key=value` line — matches the section rule there and denotes exactly
/// its name and its one pair, provided the input either ends right after
/// it or continues with another section header.
proof fn lemma_scalar_section_at(
    s: Seq<char>,
    pos: int,
    name: Seq<char>,
    key: Seq<char>,
    value: Seq<char>,
)
    requires
        0 <= pos,
        pos + 5 + name.len() + key.len() + value.len() <= s.len(),
        s[pos] == '[',
        forall|i: int| 0 <= i < name.len() ==> s[pos + 1 + i] == name[i],
        s[pos + 1 + name.len()] == ']',
        s[pos + 2 + name.len()] == '\n',
        forall|i: int| 0 <= i < key.len() ==> s[pos + 3 + name.len() + i] == key[i],
        s[pos + 3 + name.len() + key.len()] == '=',
        forall|i: int|
            0 <= i < value.len() ==> s[pos + 4 + name.len() + key.len() + i] == value[i],
        s[pos + 4 + name.len() + key.len() + value.len()] == '\n',
        name.len() > 0,
        forall|i: int| 0 <= i < name.len() ==> class_accepts(CharClass::Upper, name[i]),
        key.len() > 0,
        forall|i: int| 0 <= i < key.len() ==> class_accepts(CharClass::Alpha, key[i]),
        value.len() > 0,
        forall|i: int| 0 <= i < value.len() ==> class_accepts(CharClass::ValueChar, value[i]),
        pos + 5 + name.len() + key.len() + value.len() == s.len() || s[pos + 5 + name.len()
            + key.len() + value.len()] == '[',
    ensures
        section_parse(s, pos) == Some(
            (
                pos + 5 + name.len() + key.len() + value.len(),
                name,
                map![key => ValueModel::Scalar(value)],
            ),
        ),
{
    let n = name.len() as int;
    let kl = key.len() as int;
    let vl = value.len() as int;
    let e = pos + 5 + n + kl + vl;

    // Bridge the pointwise premises to arbitrary absolute positions.
    assert forall|i: int| pos + 1 <= i < pos + 1 + n implies #[trigger] s[i] == name[i - (pos
        + 1)] by {
        let j = i - (pos + 1);
        assert(s[pos + 1 + j] == name[j]);
    }
    assert forall|i: int| pos + 3 + n <= i < pos + 3 + n + kl implies #[trigger] s[i] == key[i
        - (pos + 3 + n)] by {
        let j = i - (pos + 3 + n);
        assert(s[pos + 3 + name.len() + j] == key[j]);
    }
    assert forall|i: int| pos + 4 + n + kl <= i < pos + 4 + n + kl + vl implies #[trigger] s[i]
        == value[i - (pos + 4 + n + kl)] by {
        let j = i - (pos + 4 + n + kl);
        assert(s[pos + 4 + name.len() + key.len() + j] == value[j]);
    }

    // The header.
    assert(scan_end(s, pos + 1, CharClass::Space) == pos + 1);
    lemma_scan_run(s, pos + 1, pos + 1 + n, CharClass::Upper);
    assert(name_end(s, pos + 1) == Some(pos + 1 + n));
    assert(scan_end(s, pos + 1 + n, CharClass::Space) == pos + 1 + n);
    assert(scan_end(s, pos + 2 + n, CharClass::Space) == pos + 2 + n);

    // The single pair line.
    let lp = pos + 3 + n;
    assert(scan_end(s, lp, CharClass::Space) == lp);
    lemma_scan_run(s, lp, lp + kl, CharClass::Alpha);
    assert(key_end(s, lp) == Some(lp + kl));
    assert(scan_end(s, lp + kl, CharClass::Space) == lp + kl);
    assert(scan_end(s, lp + kl + 1, CharClass::Space) == lp + kl + 1);
    lemma_scan_run(s, lp + kl + 1, lp + kl + 1 + vl, CharClass::ValueChar);
    assert(value_end(s, lp + kl + 1) == Some(lp + kl + 1 + vl));
    assert(s.subrange(lp, lp + kl) =~= key);
    assert(s.subrange(lp + kl + 1, lp + kl + 1 + vl) =~= value);
    assert(pair_parse(s, lp) == Some((lp + kl + 1 + vl, key, ValueModel::Scalar(value))));
    let pe = lp + kl + 1 + vl;
    assert(scan_end(s, pe, CharClass::Space) == pe);
    assert(line_parse(s, lp) == Some(
        (e, crate::model::LinePayload::Entry(key, ValueModel::Scalar(value))),
    ));

    // The run of lines stops right after that line: the input either ends
    // there or continues with a header, which no line can start with.
    if e == s.len() {
        assert(scan_end(s, e, CharClass::Space) == e);
    } else {
        assert(scan_end(s, e, CharClass::Space) == e);
        assert(key_end(s, e) is None);
    }
    assert(line_parse(s, e) is None);
    assert(lines_parse(s, e).1 =~= Map::<Seq<char>, ValueModel>::empty());
    assert(lines_parse(s, lp).1 =~= map![key => ValueModel::Scalar(value)]);
    assert(s.subrange(pos + 1, pos + 1 + n) =~= name);
}

/// Lookup is faithful to the source, with nothing rebuilt or transformed:
/// an input holding one section with one scalar pair denotes exactly that
/// section name, that key, and that value text, each taken literally.
pub proof fn lemma_single_pair_round_trip(
    s: Seq<char>,
    name: Seq<char>,
    key: Seq<char>,
    value: Seq<char>,
)
    requires
        s =~= seq!['['] + name + seq![']', '\n'] + key + seq!['='] + value + seq!['\n'],
        name.len() > 0,
        forall|i: int| 0 <= i < name.len() ==> class_accepts(CharClass::Upper, name[i]),
        key.len() > 0,
        forall|i: int| 0 <= i < key.len() ==> class_accepts(CharClass::Alpha, key[i]),
        value.len() > 0,
        forall|i: int| 0 <= i < value.len() ==> class_accepts(CharClass::ValueChar, value[i]),
    ensures
        ini_model(s) == Some(map![name => map![key => ValueModel::Scalar(value)]]),
{
    let n = name.len() as int;
    let kl = key.len() as int;
    let vl = value.len() as int;
    assert(s.len() == 5 + n + kl + vl);
    assert(s[0] == '[');
    assert(forall|i: int| 0 <= i < n ==> s[1 + i] == name[i]);
    assert(s[1 + n] == ']');
    assert(s[2 + n] == '\n');
    assert(forall|i: int| 0 <= i < kl ==> s[3 + n + i] == key[i]);
    assert(s[3 + n + kl] == '=');
    assert(forall|i: int| 0 <= i < vl ==> s[4 + n + kl + i] == value[i]);
    assert(s[4 + n + kl + vl] == '\n');

    lemma_scalar_section_at(s, 0, name, key, value);
    assert(scan_end(s, 0, CharClass::Layout) == 0);
    assert(scan_end(s, s.len() as int, CharClass::Layout) == s.len());
    assert(file_parse_at(s, s.len() as int) == Some(
        Map::<Seq<char>, Map<Seq<char>, ValueModel>>::empty(),
    ));
    assert(file_parse_at(s, 0) is Some);
    assert(ini_model(s).unwrap() =~= map![name => map![key => ValueModel::Scalar(value)]]);
    assert(ini_model(s) == Some(ini_model(s).unwrap()));
}

/// The array counterpart of the round trip: an input holding one section
/// whose single pair carries a one-item array denotes exactly that item,
/// taken literally from between the brackets.
pub proof fn lemma_single_array_round_trip(
    s: Seq<char>,
    name: Seq<char>,
    key: Seq<char>,
    item: Seq<char>,
)
    requires
        s =~= seq!['['] + name + seq![']', '\n'] + key + seq!['=', '['] + item + seq![']', '\n'],
        name.len() > 0,
        forall|i: int| 0 <= i < name.len() ==> class_accepts(CharClass::Upper, name[i]),
        key.len() > 0,
        forall|i: int| 0 <= i < key.len() ==> class_accepts(CharClass::Alpha, key[i]),
        item.len() > 0,
        forall|i: int| 0 <= i < item.len() ==> class_accepts(CharClass::ValueChar, item[i]),
    ensures
        ini_model(s) == Some(map![name => map![key => ValueModel::Array(seq![item])]]),
{
    let n = name.len() as int;
    let kl = key.len() as int;
    let vl = item.len() as int;
    assert(s.len() == 7 + n + kl + vl);
    assert(s[0] == '[');
    assert(forall|i: int| 0 <= i < n ==> s[1 + i] == name[i]);
    assert(s[1 + n] == ']');
    assert(s[2 + n] == '\n');
    assert(forall|i: int| 0 <= i < kl ==> s[3 + n + i] == key[i]);
    assert(s[3 + n + kl] == '=');
    assert(s[4 + n + kl] == '[');
    assert(forall|i: int| 0 <= i < vl ==> s[5 + n + kl + i] == item[i]);
    assert(s[5 + n + kl + vl] == ']');
    assert(s[6 + n + kl + vl] == '\n');

    // The section header.
    assert(scan_end(s, 0, CharClass::Layout) == 0);
    assert(scan_end(s, 1, CharClass::Space) == 1);
    lemma_scan_run(s, 1, 1 + n, CharClass::Upper);
    assert(name_end(s, 1) == Some(1 + n));
    assert(scan_end(s, 1 + n, CharClass::Space) == 1 + n);
    assert(scan_end(s, 2 + n, CharClass::Space) == 2 + n);

    // The single pair line, whose right-hand side is an array.
    let lp = 3 + n;
    assert(scan_end(s, lp, CharClass::Space) == lp);
    lemma_scan_run(s, lp, lp + kl, CharClass::Alpha);
    assert(key_end(s, lp) == Some(lp + kl));
    assert(scan_end(s, lp + kl, CharClass::Space) == lp + kl);
    let ab = lp + kl + 1;
    assert(scan_end(s, ab, CharClass::Space) == ab);
    assert(s[ab] == '[');
    assert(scan_end(s, ab + 1, CharClass::Space) == ab + 1);
    lemma_scan_run(s, ab + 1, ab + 1 + vl, CharClass::ValueChar);
    assert(value_end(s, ab + 1) == Some(ab + 1 + vl));
    assert(s.subrange(ab + 1, ab + 1 + vl) =~= item);
    assert(scan_end(s, ab + 1 + vl, CharClass::Space) == ab + 1 + vl);
    assert(crate::model::array_rest(s, ab + 1 + vl, seq![item]) == Some(
        (ab + 2 + vl, seq![item]),
    ));
    assert(crate::model::array_parse(s, ab) == Some((ab + 2 + vl, seq![item])));
    assert(s.subrange(lp, lp + kl) =~= key);
    assert(pair_parse(s, lp) == Some((ab + 2 + vl, key, ValueModel::Array(seq![item]))));
    let pe = ab + 2 + vl;
    assert(scan_end(s, pe, CharClass::Space) == pe);
    assert(line_parse(s, lp) == Some(
        (pe + 1, crate::model::LinePayload::Entry(key, ValueModel::Array(seq![item]))),
    ));

    // The run of lines stops at the end of the input.
    assert(pe + 1 == s.len());
    assert(scan_end(s, s.len() as int, CharClass::Space) == s.len());
    assert(line_parse(s, s.len() as int) is None);
    assert(lines_parse(s, s.len() as int).1 =~= Map::<Seq<char>, ValueModel>::empty());
    assert(lines_parse(s, lp).1 =~= map![key => ValueModel::Array(seq![item])]);

    // The section, and the file around it.
    assert(s.subrange(1, 1 + n) =~= name);
    assert(section_parse(s, 0) matches Some(r) && r.0 == s.len() && r.1 == name);
    assert(scan_end(s, s.len() as int, CharClass::Layout) == s.len());
    assert(file_parse_at(s, s.len() as int) == Some(
        Map::<Seq<char>, Map<Seq<char>, ValueModel>>::empty(),
    ));
    assert(file_parse_at(s, 0) is Some);
    assert(ini_model(s).unwrap() =~= map![name => map![key => ValueModel::Array(seq![item])]]);
    assert(ini_model(s) == Some(ini_model(s).unwrap()));
}

/// A text that occurs literally in `s`: a contiguous run of its characters.
pub open spec fn is_literal_run(t: Seq<char>, s: Seq<char>) -> bool {
    exists|a: int, b: int| 0 <= a <= b <= s.len() && t == s.subrange(a, b)
}

/// A value taken literally from `s`: its scalar text, or each of its array
/// items, occurs contiguously in `s`.
pub open spec fn literal_value(v: ValueModel, s: Seq<char>) -> bool {
    match v {
        ValueModel::Scalar(t) => is_literal_run(t, s),
        ValueModel::Array(items) => forall|i: int|
            0 <= i < items.len() ==> is_literal_run(#[trigger] items[i], s),
    }
}

/// Every value of `m` is taken literally from `s`.
pub open spec fn map_values_literal(m: Map<Seq<char>, ValueModel>, s: Seq<char>) -> bool {
    forall|k: Seq<char>| m.contains_key(k) ==> literal_value(#[trigger] m[k], s)
}

proof fn lemma_array_rest_literal(s: Seq<char>, pos: int, items: Seq<Seq<char>>)
    requires
        0 <= pos <= s.len(),
        forall|i: int| 0 <= i < items.len() ==> is_literal_run(#[trigger] items[i], s),
    ensures
        crate::model::array_rest(s, pos, items) matches Some(r) ==> forall|i: int|
            0 <= i < r.1.len() ==> is_literal_run(#[trigger] r.1[i], s),
    decreases s.len() - pos,
{
    crate::model::lemma_scan_end(s, pos, CharClass::Space);
    let p = scan_end(s, pos, CharClass::Space);
    if p < s.len() && s[p] == ',' {
        crate::model::lemma_scan_end(s, p + 1, CharClass::Space);
        let q = scan_end(s, p + 1, CharClass::Space);
        crate::model::lemma_leaf_bounds(s, q);
        if let Some(e) = value_end(s, q) {
            assert(is_literal_run(s.subrange(q, e), s));
            lemma_array_rest_literal(s, e, items.push(s.subrange(q, e)));
        }
    }
}

proof fn lemma_pair_value_literal(s: Seq<char>, pos: int)
    requires
        0 <= pos <= s.len(),
    ensures
        pair_parse(s, pos) matches Some(r) ==> literal_value(r.2, s),
{
    crate::model::lemma_leaf_bounds(s, pos);
    if let Some(k) = key_end(s, pos) {
        crate::model::lemma_scan_end(s, k, CharClass::Space);
        let p = scan_end(s, k, CharClass::Space);
        if p < s.len() && s[p] == '=' {
            crate::model::lemma_scan_end(s, p + 1, CharClass::Space);
            let q = scan_end(s, p + 1, CharClass::Space);
            crate::model::lemma_leaf_bounds(s, q);
            if q < s.len() && s[q] == '[' {
                crate::model::lemma_scan_end(s, q + 1, CharClass::Space);
                let q1 = scan_end(s, q + 1, CharClass::Space);
                crate::model::lemma_leaf_bounds(s, q1);
                if let Some(e) = value_end(s, q1) {
                    assert(is_literal_run(s.subrange(q1, e), s));
                    lemma_array_rest_literal(s, e, seq![s.subrange(q1, e)]);
                }
            } else {
                if let Some(e) = value_end(s, q) {
                    assert(is_literal_run(s.subrange(q, e), s));
                }
            }
        }
    }
}

proof fn lemma_lines_literal(s: Seq<char>, pos: int)
    requires
        0 <= pos <= s.len(),
    ensures
        map_values_literal(lines_parse(s, pos).1, s),
    decreases s.len() - pos,
{
    crate::model::lemma_line_parse_bounds(s, pos);
    match line_parse(s, pos) {
        Some(r) => {
            lemma_lines_literal(s, r.0);
            match r.1 {
                crate::model::LinePayload::Entry(k, v) => {
                    crate::model::lemma_scan_end(s, pos, CharClass::Space);
                    lemma_pair_value_literal(s, scan_end(s, pos, CharClass::Space));
                },
                _ => {},
            }
        },
        None => {},
    }
}

/// Values never leave the source behind: every scalar text, and every
/// array item, of every section of a parsed configuration occurs literally
/// — as one contiguous run of characters — in the input it was parsed
/// from.
pub proof fn lemma_values_literal(s: Seq<char>, pos: int)
    requires
        0 <= pos <= s.len(),
    ensures
        file_parse_at(s, pos) matches Some(m) ==> forall|nm: Seq<char>|
            m.contains_key(nm) ==> map_values_literal(#[trigger] m[nm], s),
    decreases s.len() - pos,
{
    crate::model::lemma_scan_end(s, pos, CharClass::Layout);
    let p = scan_end(s, pos, CharClass::Layout);
    if p == s.len() {
    } else if p < s.len() && s[p] == ';' {
        crate::model::lemma_leaf_bounds(s, p);
        if let Some(e) = crate::model::comment_end(s, p) {
            lemma_values_literal(s, e);
        }
    } else if p < s.len() && s[p] == '[' {
        crate::model::lemma_section_parse_bounds(s, p);
        if let Some(r) = section_parse(s, p) {
            crate::model::lemma_scan_end(s, p + 1, CharClass::Space);
            let h1 = scan_end(s, p + 1, CharClass::Space);
            crate::model::lemma_scan_end(s, h1, CharClass::Upper);
            let ne = scan_end(s, h1, CharClass::Upper);
            crate::model::lemma_scan_end(s, ne, CharClass::Space);
            let h2 = scan_end(s, ne, CharClass::Space);
            if h2 < s.len() && s[h2] == ']' {
                crate::model::lemma_scan_end(s, h2 + 1, CharClass::Space);
                let h3 = scan_end(s, h2 + 1, CharClass::Space);
                if h3 < s.len() && crate::model::is_nl(s[h3]) {
                    lemma_lines_literal(s, h3 + 1);
                }
            }
            lemma_values_literal(s, r.0);
        }
    }
}

/// Last write wins, in full generality: when the same section name occurs
/// twice, each time with the same key, the resulting configuration holds
/// exactly one section of that name, carrying the second occurrence's
/// value — the first occurrence's data is discarded, not merged.
pub proof fn lemma_last_write_wins(
    s: Seq<char>,
    name: Seq<char>,
    key: Seq<char>,
    first: Seq<char>,
    second: Seq<char>,
)
    requires
        s =~= seq!['['] + name + seq![']', '\n'] + key + seq!['='] + first + seq!['\n']
            + seq!['['] + name + seq![']', '\n'] + key + seq!['='] + second + seq!['\n'],
        name.len() > 0,
        forall|i: int| 0 <= i < name.len() ==> class_accepts(CharClass::Upper, name[i]),
        key.len() > 0,
        forall|i: int| 0 <= i < key.len() ==> class_accepts(CharClass::Alpha, key[i]),
        first.len() > 0,
        forall|i: int| 0 <= i < first.len() ==> class_accepts(CharClass::ValueChar, first[i]),
        second.len() > 0,
        forall|i: int| 0 <= i < second.len() ==> class_accepts(CharClass::ValueChar, second[i]),
    ensures
        ini_model(s) == Some(map![name => map![key => ValueModel::Scalar(second)]]),
{
    let n = name.len() as int;
    let kl = key.len() as int;
    let l1 = first.len() as int;
    let l2 = second.len() as int;
    let mid = 5 + n + kl + l1;
    assert(s.len() == mid + 5 + n + kl + l2);

    // The first section's text.
    assert(s[0] == '[');
    assert(forall|i: int| 0 <= i < n ==> s[1 + i] == name[i]);
    assert(s[1 + n] == ']');
    assert(s[2 + n] == '\n');
    assert(forall|i: int| 0 <= i < kl ==> s[3 + n + i] == key[i]);
    assert(s[3 + n + kl] == '=');
    assert(forall|i: int| 0 <= i < l1 ==> s[4 + n + kl + i] == first[i]);
    assert(s[4 + n + kl + l1] == '\n');

    // The second section's text.
    assert(s[mid] == '[');
    assert(forall|i: int| 0 <= i < n ==> s[mid + 1 + i] == name[i]);
    assert(s[mid + 1 + n] == ']');
    assert(s[mid + 2 + n] == '\n');
    assert(forall|i: int| 0 <= i < kl ==> s[mid + 3 + n + i] == key[i]);
    assert(s[mid + 3 + n + kl] == '=');
    assert(forall|i: int| 0 <= i < l2 ==> s[mid + 4 + n + kl + i] == second[i]);
    assert(s[mid + 4 + n + kl + l2] == '\n');

    lemma_scalar_section_at(s, 0, name, key, first);
    lemma_scalar_section_at(s, mid, name, key, second);

    // The file: the first section, the second, then the end of the input;
    // the second's map replaces the first's under their shared name.
    assert(scan_end(s, 0, CharClass::Layout) == 0);
    assert(scan_end(s, mid, CharClass::Layout) == mid);
    assert(scan_end(s, s.len() as int, CharClass::Layout) == s.len());
    assert(file_parse_at(s, s.len() as int) == Some(
        Map::<Seq<char>, Map<Seq<char>, ValueModel>>::empty(),
    ));
    assert(file_parse_at(s, mid) is Some);
    assert(file_parse_at(s, mid).unwrap() =~= map![name => map![key => ValueModel::Scalar(
        second,
    )]]);
    assert(file_parse_at(s, 0) is Some);
    assert(ini_model(s).unwrap() =~= map![name => map![key => ValueModel::Scalar(second)]]);
    assert(ini_model(s) == Some(ini_model(s).unwrap()));
}

} // verus!
