//! The library's own model of a structured (YAML-shaped) value: what the core
//! reads of a script entry's fields. Scalars the core never looks inside are
//! kept only by kind; strings, booleans, sequences and mappings are held as
//! plain values.

use vstd::prelude::*;

verus! {

broadcast use vstd::std_specs::vec::axiom_vec_decreases_to_view, vstd::seq::axiom_seq_index_decreases, vstd::seq::axiom_seq_subrange_decreases;

/// A structured field value.
pub enum Yaml {
    /// A null scalar.
    Null,
    /// A boolean scalar.
    Bool(bool),
    /// A numeric scalar, held as its numeral text.
    Number(String),
    /// A string scalar.
    Str(String),
    /// A sequence of values.
    List(Vec<Yaml>),
    /// A mapping; keys may be any value.
    Mapping(Vec<(Yaml, Yaml)>),
}

/// The mathematical shape of a `Yaml` value.
pub enum YamlView {
    Null,
    Bool(bool),
    Number(Seq<char>),
    Str(Seq<char>),
    List(Seq<YamlView>),
    Mapping(Seq<(YamlView, YamlView)>),
}

pub open spec fn yaml_view(y: Yaml) -> YamlView
    decreases y,
{
    match y {
        Yaml::Null => YamlView::Null,
        Yaml::Bool(b) => YamlView::Bool(b),
        Yaml::Number(s) => YamlView::Number(s@),
        Yaml::Str(s) => YamlView::Str(s@),
        Yaml::List(items) => YamlView::List(yaml_seq_view(items@)),
        Yaml::Mapping(entries) => YamlView::Mapping(yaml_entries_view(entries@)),
    }
}

pub open spec fn yaml_seq_view(s: Seq<Yaml>) -> Seq<YamlView>
    decreases s,
{
    if s.len() == 0 {
        Seq::empty()
    } else {
        seq![yaml_view(s[0])] + yaml_seq_view(s.subrange(1, s.len() as int))
    }
}

pub open spec fn yaml_entries_view(s: Seq<(Yaml, Yaml)>) -> Seq<(YamlView, YamlView)>
    decreases s,
{
    if s.len() == 0 {
        Seq::empty()
    } else {
        seq![(yaml_view(s[0].0), yaml_view(s[0].1))] + yaml_entries_view(
            s.subrange(1, s.len() as int),
        )
    }
}

impl View for Yaml {
    type V = YamlView;

    open spec fn view(&self) -> YamlView {
        yaml_view(*self)
    }
}

impl DeepView for Yaml {
    type V = YamlView;

    open spec fn deep_view(&self) -> YamlView {
        yaml_view(*self)
    }
}

/// The view of a sequence of values is the sequence of their views.
pub proof fn lemma_yaml_seq_view(s: Seq<Yaml>)
    ensures
        yaml_seq_view(s) =~= s.map_values(|y: Yaml| yaml_view(y)),
    decreases s.len(),
{
    if s.len() > 0 {
        lemma_yaml_seq_view(s.subrange(1, s.len() as int));
    }
}

/// The view of a mapping's entries is the entrywise pair of views.
pub proof fn lemma_yaml_entries_view(s: Seq<(Yaml, Yaml)>)
    ensures
        yaml_entries_view(s) =~= s.map_values(|e: (Yaml, Yaml)| (e.0@, e.1@)),
    decreases s.len(),
{
    if s.len() > 0 {
        lemma_yaml_entries_view(s.subrange(1, s.len() as int));
    }
}

/// The first value bound to the string key `key` in a mapping's entries.
pub open spec fn map_lookup(entries: Seq<(YamlView, YamlView)>, key: Seq<char>) -> Option<YamlView>
    decreases entries.len(),
{
    if entries.len() == 0 {
        None
    } else if entries[0].0 matches YamlView::Str(k) && k == key {
        Some(entries[0].1)
    } else {
        map_lookup(entries.drop_first(), key)
    }
}

/// Looks `key` up among a mapping's entries, first match wins.
pub fn yaml_map_get<'a>(entries: &'a Vec<(Yaml, Yaml)>, key: &str) -> (r: Option<&'a Yaml>)
    ensures
        match r {
            Some(v) => map_lookup(entries@.map_values(|e: (Yaml, Yaml)| (e.0@, e.1@)), key@)
                == Some(v@),
            None => map_lookup(entries@.map_values(|e: (Yaml, Yaml)| (e.0@, e.1@)), key@)
                is None,
        },
{
    let ghost eview = entries@.map_values(|e: (Yaml, Yaml)| (e.0@, e.1@));
    let n = entries.len();
    proof {
        assert(eview.skip(0) =~= eview);
    }
    for i in 0..n
        invariant
            n == entries@.len(),
            eview == entries@.map_values(|e: (Yaml, Yaml)| (e.0@, e.1@)),
            map_lookup(eview, key@) == map_lookup(eview.skip(i as int), key@),
    {
        proof {
            assert(eview.skip(i as int)[0] == eview[i as int]);
            assert(eview.skip(i as int).drop_first() =~= eview.skip(i + 1));
        }
        match &entries[i] {
            (Yaml::Str(k), v) => {
                if crate::text::str_eq(k.as_str(), key) {
                    return Some(v);
                }
            },
            _ => {},
        }
    }
    proof {
        assert(eview.skip(n as int) =~= Seq::<(YamlView, YamlView)>::empty());
    }
    None
}

} // verus!
