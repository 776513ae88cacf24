//! The configuration data model a successful parse produces, and its
//! lookup accessors.
//!
//! A `Config` is viewed as a map from section name to that section's
//! key-to-value map, the same shape the grammar model assigns to an input;
//! a `Value` is viewed as a `ValueModel`. Both are created whole by one
//! parse call and only read afterwards.

use vstd::prelude::*;

use crate::model::ValueModel;

verus! {

/// The value of one key: the literal scalar text after `=`, or the ordered
/// items of a bracketed array.
#[derive(Debug, PartialEq, Eq)]
pub enum Value {
    String(String),
    Array(Vec<String>),
}

impl View for Value {
    type V = ValueModel;

    open spec fn view(&self) -> ValueModel {
        match self {
            Value::String(t) => ValueModel::Scalar(t@),
            Value::Array(items) => ValueModel::Array(items.deep_view()),
        }
    }
}

/// The key-to-value map a sequence of pairs denotes; among entries sharing
/// a key, the later one wins.
pub open spec fn pairs_map_of(ps: Seq<(String, Value)>) -> Map<Seq<char>, ValueModel>
    decreases ps.len(),
{
    if ps.len() == 0 {
        Map::empty()
    } else {
        let rest = pairs_map_of(ps.drop_first());
        if rest.contains_key(ps[0].0@) {
            rest
        } else {
            rest.insert(ps[0].0@, ps[0].1@)
        }
    }
}

/// A key is in the map exactly when some entry carries it.
pub proof fn lemma_pairs_map_domain(ps: Seq<(String, Value)>, k: Seq<char>)
    ensures
        pairs_map_of(ps).contains_key(k) <==> exists|i: int|
            0 <= i < ps.len() && #[trigger] ps[i].0@ == k,
    decreases ps.len(),
{
    if ps.len() > 0 {
        lemma_pairs_map_domain(ps.drop_first(), k);
        if ps[0].0@ == k {
            assert(pairs_map_of(ps).contains_key(k));
        }
        if pairs_map_of(ps).contains_key(k) {
            if ps[0].0@ != k {
                let j = choose|j: int|
                    0 <= j < ps.drop_first().len() && #[trigger] ps.drop_first()[j].0@ == k;
                assert(ps[j + 1].0@ == k);
            }
        }
        if exists|i: int| 0 <= i < ps.len() && #[trigger] ps[i].0@ == k {
            let i = choose|i: int| 0 <= i < ps.len() && #[trigger] ps[i].0@ == k;
            if i > 0 {
                assert(ps.drop_first()[i - 1].0@ == k);
            }
        }
    }
}

/// With pairwise distinct keys, the entry at `i` is what the map holds for
/// its key.
pub proof fn lemma_pairs_map_lookup(ps: Seq<(String, Value)>, i: int)
    requires
        0 <= i < ps.len(),
        forall|a: int, b: int| 0 <= a < b < ps.len() ==> ps[a].0@ != ps[b].0@,
    ensures
        pairs_map_of(ps).contains_key(ps[i].0@),
        pairs_map_of(ps)[ps[i].0@] == ps[i].1@,
    decreases ps.len(),
{
    if i == 0 {
        lemma_pairs_map_domain(ps.drop_first(), ps[0].0@);
        assert(forall|j: int|
            0 <= j < ps.drop_first().len() ==> #[trigger] ps.drop_first()[j].0@ == ps[j + 1].0@);
    } else {
        lemma_pairs_map_lookup(ps.drop_first(), i - 1);
        assert(ps.drop_first()[i - 1] == ps[i]);
    }
}

/// One `[NAME]` block: its name and its pairs, with pairwise distinct keys.
#[derive(Debug, PartialEq, Eq)]
pub struct Section {
    pub name: String,
    pub pairs: Vec<(String, Value)>,
}

impl Section {
    /// The key-to-value map this section denotes.
    pub open spec fn pairs_map(&self) -> Map<Seq<char>, ValueModel> {
        pairs_map_of(self.pairs@)
    }

    /// The section's invariant: no two pairs share a key.
    pub open spec fn wf(&self) -> bool {
        forall|a: int, b: int| 0 <= a < b < self.pairs@.len() ==> self.pairs@[a].0@ != self.pairs@[b].0@
    }

    /// Looks a key up in this section.
    pub fn get(&self, key: &str) -> (r: Option<&Value>)
        requires
            self.wf(),
        ensures
            match r {
                Some(v) => self.pairs_map().contains_key(key@) && v@ == self.pairs_map()[key@],
                None => !self.pairs_map().contains_key(key@),
            },
    {
        let target = key.to_owned();
        let mut i: usize = 0;
        while i < self.pairs.len()
            invariant
                self.wf(),
                target@ == key@,
                i <= self.pairs@.len(),
                forall|j: int| 0 <= j < i ==> self.pairs@[j].0@ != key@,
            decreases self.pairs@.len() - i,
        {
            if self.pairs[i].0 == target {
                proof {
                    lemma_pairs_map_lookup(self.pairs@, i as int);
                }
                return Some(&self.pairs[i].1);
            }
            i = i + 1;
        }
        proof {
            lemma_pairs_map_domain(self.pairs@, key@);
        }
        None
    }
}

/// The name-to-section map a sequence of sections denotes; among sections
/// sharing a name, the later one wins.
pub open spec fn sections_map_of(ss: Seq<Section>) -> Map<Seq<char>, Map<Seq<char>, ValueModel>>
    decreases ss.len(),
{
    if ss.len() == 0 {
        Map::empty()
    } else {
        let rest = sections_map_of(ss.drop_first());
        if rest.contains_key(ss[0].name@) {
            rest
        } else {
            rest.insert(ss[0].name@, ss[0].pairs_map())
        }
    }
}

/// A name is in the map exactly when some section carries it.
pub proof fn lemma_sections_map_domain(ss: Seq<Section>, n: Seq<char>)
    ensures
        sections_map_of(ss).contains_key(n) <==> exists|i: int|
            0 <= i < ss.len() && #[trigger] ss[i].name@ == n,
    decreases ss.len(),
{
    if ss.len() > 0 {
        lemma_sections_map_domain(ss.drop_first(), n);
        if ss[0].name@ == n {
            assert(sections_map_of(ss).contains_key(n));
        }
        if sections_map_of(ss).contains_key(n) {
            if ss[0].name@ != n {
                let j = choose|j: int|
                    0 <= j < ss.drop_first().len() && #[trigger] ss.drop_first()[j].name@ == n;
                assert(ss[j + 1].name@ == n);
            }
        }
        if exists|i: int| 0 <= i < ss.len() && #[trigger] ss[i].name@ == n {
            let i = choose|i: int| 0 <= i < ss.len() && #[trigger] ss[i].name@ == n;
            if i > 0 {
                assert(ss.drop_first()[i - 1].name@ == n);
            }
        }
    }
}

/// With pairwise distinct names, the section at `i` is what the map holds
/// for its name.
pub proof fn lemma_sections_map_lookup(ss: Seq<Section>, i: int)
    requires
        0 <= i < ss.len(),
        forall|a: int, b: int| 0 <= a < b < ss.len() ==> ss[a].name@ != ss[b].name@,
    ensures
        sections_map_of(ss).contains_key(ss[i].name@),
        sections_map_of(ss)[ss[i].name@] == ss[i].pairs_map(),
    decreases ss.len(),
{
    if i == 0 {
        lemma_sections_map_domain(ss.drop_first(), ss[0].name@);
        assert(forall|j: int|
            0 <= j < ss.drop_first().len() ==> #[trigger] ss.drop_first()[j].name@ == ss[
                j + 1
            ].name@);
    } else {
        lemma_sections_map_lookup(ss.drop_first(), i - 1);
        assert(ss.drop_first()[i - 1] == ss[i]);
    }
}

/// The result of one successful parse: the sections of the input, with
/// pairwise distinct names.
#[derive(Debug, PartialEq, Eq)]
pub struct Config {
    pub sections: Vec<Section>,
}

impl View for Config {
    type V = Map<Seq<char>, Map<Seq<char>, ValueModel>>;

    open spec fn view(&self) -> Map<Seq<char>, Map<Seq<char>, ValueModel>> {
        sections_map_of(self.sections@)
    }
}

impl Config {
    /// The configuration's invariant: section names are pairwise distinct
    /// and every section is well formed.
    pub open spec fn wf(&self) -> bool {
        &&& forall|a: int, b: int|
            0 <= a < b < self.sections@.len() ==> self.sections@[a].name@ != self.sections@[b].name@
        &&& forall|i: int| 0 <= i < self.sections@.len() ==> (#[trigger] self.sections@[i]).wf()
    }

    /// Looks a key up across all sections, in their stored order, returning
    /// the value from the first section that holds the key.
    pub fn get_value(&self, key: &str) -> (r: Option<&Value>)
        requires
            self.wf(),
        ensures
            match r {
                Some(v) => exists|i: int|
                    {
                        &&& 0 <= i < self.sections@.len()
                        &&& (#[trigger] self.sections@[i]).pairs_map().contains_key(key@)
                        &&& v@ == self.sections@[i].pairs_map()[key@]
                        &&& forall|j: int|
                            0 <= j < i ==> !(#[trigger] self.sections@[j]).pairs_map().contains_key(
                                key@,
                            )
                    },
                None => forall|i: int|
                    0 <= i < self.sections@.len() ==> !(
                    #[trigger] self.sections@[i]).pairs_map().contains_key(key@),
            },
    {
        let mut i: usize = 0;
        while i < self.sections.len()
            invariant
                self.wf(),
                i <= self.sections@.len(),
                forall|j: int|
                    0 <= j < i ==> !(#[trigger] self.sections@[j]).pairs_map().contains_key(key@),
            decreases self.sections@.len() - i,
        {
            let found = self.sections[i].get(key);
            if let Some(v) = found {
                return Some(v);
            }
            i = i + 1;
        }
        None
    }

    /// Looks a key up in the section of the given name.
    pub fn get_value_in_section(&self, section: &str, key: &str) -> (r: Option<&Value>)
        requires
            self.wf(),
        ensures
            match r {
                Some(v) => self@.contains_key(section@) && self@[section@].contains_key(key@)
                    && v@ == self@[section@][key@],
                None => !(self@.contains_key(section@) && self@[section@].contains_key(key@)),
            },
    {
        let target = section.to_owned();
        let mut i: usize = 0;
        while i < self.sections.len()
            invariant
                self.wf(),
                target@ == section@,
                i <= self.sections@.len(),
                forall|j: int| 0 <= j < i ==> self.sections@[j].name@ != section@,
            decreases self.sections@.len() - i,
        {
            if self.sections[i].name == target {
                proof {
                    lemma_sections_map_lookup(self.sections@, i as int);
                }
                return self.sections[i].get(key);
            }
            i = i + 1;
        }
        proof {
            lemma_sections_map_domain(self.sections@, section@);
        }
        None
    }
}

} // verus!
