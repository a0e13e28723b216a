//! The loader: applies the ignore-directive test to each candidate file's
//! text, parses the survivors as mapping-of-mappings documents, and flattens
//! every declared script into one independent fragment.
//!
//! Parsing and re-serialization are the work of the `serde_yaml` crate and
//! stand behind trusted declarations whose results are named (`parsed_of`,
//! `rendered_of`): both are functions of their text inputs alone, so the
//! loader's own contract can say exactly which fragments come back. The
//! parser is only handed texts under `MAX_DEFINITION_LEN`, the bound under
//! which it is trusted not to abort; a longer file is skipped whole.

use vstd::prelude::*;
use vstd::string::StrSliceExecFns;

use crate::text::is_ignored_text;
use crate::yaml::{yaml_view, Yaml, YamlView};

verus! {

#[verifier::external_type_specification]
#[verifier::external_body]
pub struct ExYamlValue(serde_yaml::Value);

/// The largest definition-file text, in characters, that the loader hands to
/// the parser. The YAML loader recurses once per block-nesting level and a
/// document of n characters nests at most n/2 levels, so this bound keeps
/// the parse comfortably within the stack; a longer file is treated like an
/// unreadable one and contributes nothing.
pub const MAX_DEFINITION_LEN: usize = 16384;

/// Relies on `serde_yaml::from_str`: what parsing a definition file's text
/// yields, already carried over to the library's plain values — per script
/// name, its field names and field values. The parser is deterministic, so
/// the result depends on the text alone; it takes pages to state, so it only
/// gets this name. Nothing when the text is not a mapping of mappings.
pub uninterp spec fn parsed_of(text: Seq<char>) -> Option<
    Seq<(Seq<char>, Seq<(Seq<char>, YamlView)>)>,
>;

/// Relies on `serde_yaml::to_string`: the serialized one-entry document
/// `{name: fields}`, a function of the name and the plain field values
/// alone. Nothing when the value cannot be serialized.
pub uninterp spec fn rendered_of(name: Seq<char>, fields: Seq<(Seq<char>, YamlView)>) -> Option<
    Seq<char>,
>;

/// Relies on the declared shape of `serde_yaml::Value`: carries each variant
/// over one for one; a numeric scalar keeps only its numeral text.
#[verifier::external_body]
fn to_plain(v: &serde_yaml::Value) -> Yaml {
    match v {
        serde_yaml::Value::Null => Yaml::Null,
        serde_yaml::Value::Bool(b) => Yaml::Bool(*b),
        serde_yaml::Value::Number(n) => Yaml::Number(n.to_string()),
        serde_yaml::Value::String(s) => Yaml::Str(s.clone()),
        serde_yaml::Value::Sequence(items) => Yaml::List(items.iter().map(to_plain).collect()),
        serde_yaml::Value::Mapping(m) => Yaml::Mapping(
            m.iter().map(|(k, v)| (to_plain(k), to_plain(v))).collect(),
        ),
    }
}

/// The reverse carry, for re-serialization: a numeral text becomes the
/// number it spells, anything unreadable as a number stays its text.
#[verifier::external_body]
fn to_value(y: &Yaml) -> serde_yaml::Value {
    match y {
        Yaml::Null => serde_yaml::Value::Null,
        Yaml::Bool(b) => serde_yaml::Value::Bool(*b),
        Yaml::Number(s) => match serde_yaml::from_str::<serde_yaml::Number>(s) {
            Ok(n) => serde_yaml::Value::Number(n),
            Err(_) => serde_yaml::Value::String(s.clone()),
        },
        Yaml::Str(s) => serde_yaml::Value::String(s.clone()),
        Yaml::List(items) => serde_yaml::Value::Sequence(items.iter().map(to_value).collect()),
        Yaml::Mapping(m) => serde_yaml::Value::Mapping(
            m.iter().map(|(k, v)| (to_value(k), to_value(v))).collect(),
        ),
    }
}

/// Relies on `serde_yaml::from_str`: parses one file's text into a map of
/// maps, script name to field name to value, converted to plain values. A
/// failure of any kind yields nothing. A `BTreeMap` holds each key at most
/// once, so the names of one file, and the field names of one entry, are
/// pairwise distinct. The underlying loader recurses once per block-nesting
/// level with no depth guard of its own, so the parse is trusted not to
/// abort only within the length bound the `requires` states.
#[verifier::external_body]
fn parse_script_file(text: &str) -> (r: Option<Vec<(String, Vec<(String, Yaml)>)>>)
    requires
        text@.len() <= MAX_DEFINITION_LEN,
    ensures
        r.deep_view() == parsed_of(text@),
        r matches Some(file) ==> {
            &&& forall|i: int, j: int| 0 <= i < j < file@.len() ==> file@[i].0@ != file@[j].0@
            &&& forall|k: int, i: int, j: int|
                0 <= k < file@.len() && 0 <= i < j < file@[k].1@.len() ==> file@[k].1@[i].0@
                    != file@[k].1@[j].0@
        },
{
    match serde_yaml::from_str::<
        std::collections::BTreeMap<String, std::collections::BTreeMap<String, serde_yaml::Value>>,
    >(text) {
        Ok(m) => Some(
            m.into_iter().map(
                |(name, fields)| (name, fields.iter().map(|(k, v)| (k.clone(), to_plain(v))).collect()),
            ).collect(),
        ),
        Err(_) => None,
    }
}

/// Relies on `serde_yaml::to_string`: serializes the one-entry map
/// `{name: fields}` back to a YAML document, as the compiler emits it.
#[verifier::external_body]
fn render_fragment(name: &String, fields: &Vec<(String, Yaml)>) -> (r: Option<String>)
    ensures
        r.deep_view() == rendered_of(name@, fields.deep_view()),
{
    let mut inner = std::collections::BTreeMap::new();
    for (k, v) in fields.iter() {
        inner.insert(k.clone(), to_value(v));
    }
    let mut outer = std::collections::BTreeMap::new();
    outer.insert(name.clone(), inner);
    serde_yaml::to_string(&outer).ok()
}

/// One declared script, taken on its own: the file it came from, its name,
/// its fields, and the re-serialized one-entry document the compiler bundles.
pub struct ScriptFragment {
    pub path: String,
    pub name: String,
    pub contents: Vec<(String, Yaml)>,
    pub rendered: Option<String>,
}

/// The shape of a `ScriptFragment`.
#[verifier::ext_equal]
pub ghost struct FragmentView {
    pub path: Seq<char>,
    pub name: Seq<char>,
    pub contents: Seq<(Seq<char>, YamlView)>,
    pub rendered: Option<Seq<char>>,
}

impl View for ScriptFragment {
    type V = FragmentView;

    open spec fn view(&self) -> FragmentView {
        FragmentView {
            path: self.path@,
            name: self.name@,
            contents: crate::script::contents_view(self.contents@),
            rendered: self.rendered.deep_view(),
        }
    }
}

impl DeepView for ScriptFragment {
    type V = FragmentView;

    open spec fn deep_view(&self) -> FragmentView {
        self.view()
    }
}

/// What one candidate file contributes: nothing when it is over-long,
/// ignored or does not parse, and otherwise one fragment per declared
/// script, in parse order, carrying the file's path, the entry's plain
/// contents and its re-serialized form.
pub open spec fn file_fragments(path: Seq<char>, text: Seq<char>) -> Seq<FragmentView> {
    if text.len() > MAX_DEFINITION_LEN || is_ignored_text(text) {
        Seq::empty()
    } else {
        match parsed_of(text) {
            None => Seq::empty(),
            Some(entries) => Seq::new(
                entries.len(),
                |i: int|
                    FragmentView {
                        path: path,
                        name: entries[i].0,
                        contents: entries[i].1,
                        rendered: rendered_of(entries[i].0, entries[i].1),
                    },
            ),
        }
    }
}

/// The whole load: each file's fragments, in file order.
pub open spec fn loaded_fragments(files: Seq<(String, String)>) -> Seq<FragmentView>
    decreases files.len(),
{
    if files.len() == 0 {
        Seq::empty()
    } else {
        loaded_fragments(files.drop_last()) + file_fragments(
            files.last().0@,
            files.last().1@,
        )
    }
}

/// Every fragment comes from a file that was given and is not ignored.
pub open spec fn fragments_sourced(
    frags: Seq<FragmentView>,
    files: Seq<(String, String)>,
) -> bool {
    forall|i: int|
        0 <= i < frags.len() ==> exists|j: int|
            0 <= j < files.len() && (#[trigger] frags[i].path) == files[j].0@ && !is_ignored_text(
                files[j].1@,
            )
}

/// The loaded fragments trace back to given, non-ignored files.
pub proof fn lemma_loaded_fragments_sourced(files: Seq<(String, String)>)
    ensures
        fragments_sourced(loaded_fragments(files), files),
    decreases files.len(),
{
    if files.len() > 0 {
        lemma_loaded_fragments_sourced(files.drop_last());
        let prev = loaded_fragments(files.drop_last());
        let tail = file_fragments(files.last().0@, files.last().1@);
        let all = loaded_fragments(files);
        assert forall|i: int| 0 <= i < all.len() implies exists|j: int|
            0 <= j < files.len() && (#[trigger] all[i].path) == files[j].0@ && !is_ignored_text(
                files[j].1@,
            ) by {
            if i < prev.len() {
                assert(all[i] == prev[i]);
                let j0 = choose|j: int|
                    0 <= j < files.drop_last().len() && (#[trigger] prev[i].path) == files.drop_last()[j].0@
                        && !is_ignored_text(files.drop_last()[j].1@);
                assert(files.drop_last()[j0] == files[j0]);
                assert(0 <= j0 < files.len() && all[i].path == files[j0].0@ && !is_ignored_text(
                    files[j0].1@,
                ));
            } else {
                assert(all[i] == tail[i - prev.len()]);
                assert(tail.len() > 0);
                assert(!is_ignored_text(files.last().1@));
                assert(all[i].path == files.last().0@);
                assert(files[files.len() - 1] == files.last());
            }
        }
    }
}

/// Loads every candidate file: an over-long, ignored or unparsable file
/// contributes no fragments at all, and each declared script of the others
/// becomes exactly one fragment, in file order and parse order within one
/// file.
pub fn find_scripts_raw(files: Vec<(String, String)>) -> (r: Vec<ScriptFragment>)
    ensures
        r.deep_view() =~= loaded_fragments(files@),
        fragments_sourced(r.deep_view(), files@),
{
    let mut frags: Vec<ScriptFragment> = Vec::new();
    let nf = files.len();
    proof {
        assert(files@.subrange(0, 0) =~= Seq::<(String, String)>::empty());
        assert(frags.deep_view() =~= loaded_fragments(files@.subrange(0, 0)));
    }
    for f in 0..nf
        invariant
            nf == files@.len(),
            frags.deep_view() =~= loaded_fragments(files@.subrange(0, f as int)),
    {
        let ghost path_v = files@[f as int].0@;
        let ghost text_v = files@[f as int].1@;
        let len_ok = files[f].1.as_str().unicode_len() <= MAX_DEFINITION_LEN;
        let keep = len_ok && !crate::text::is_ignored(files[f].1.as_str());
        let parsed = if keep {
            parse_script_file(files[f].1.as_str())
        } else {
            None
        };
        match parsed {
            None => {
                proof {
                    assert(file_fragments(path_v, text_v) =~= Seq::<FragmentView>::empty());
                }
            },
            Some(mut file) => {
                let ghost entries = file.deep_view();
                proof {
                    assert(parsed_of(text_v) == Some(entries));
                    assert forall|k: int| 0 <= k < file@.len() implies file@[k].deep_view()
                        == entries[k] by {}
                    assert(file_fragments(path_v, text_v) =~= Seq::new(
                        entries.len(),
                        |i: int|
                            FragmentView {
                                path: path_v,
                                name: entries[i].0,
                                contents: entries[i].1,
                                rendered: rendered_of(entries[i].0, entries[i].1),
                            },
                    ));
                }
                let ne = file.len();
                let ghost base = frags.deep_view();
                for e in 0..ne
                    invariant
                        0 <= f < files@.len(),
                        path_v == files@[f as int].0@,
                        ne == entries.len(),
                        file@.len() == ne - e,
                        forall|k: int|
                            0 <= k < file@.len() ==> (#[trigger] file@[k]).deep_view()
                                == entries[e + k],
                        frags.deep_view().len() == base.len() + e,
                        forall|i: int|
                            0 <= i < base.len() ==> (#[trigger] frags.deep_view()[i]) == base[i],
                        forall|k: int|
                            0 <= k < e ==> (#[trigger] frags.deep_view()[base.len() + k])
                                == (FragmentView {
                                path: path_v,
                                name: entries[k].0,
                                contents: entries[k].1,
                                rendered: rendered_of(entries[k].0, entries[k].1),
                            }),
                {
                    let (name, fields) = file.remove(0);
                    proof {
                        assert((name, fields).deep_view() == entries[e as int]);
                        assert(name@ == entries[e as int].0);
                        assert(fields.deep_view() == entries[e as int].1);
                    }
                    let rendered = render_fragment(&name, &fields);
                    let frag = ScriptFragment { path: files[f].0.clone(), name, contents: fields, rendered };
                    proof {
                        assert(crate::script::contents_view(frag.contents@)
                            =~= entries[e as int].1) by {
                            assert forall|k: int|
                                0 <= k < frag.contents@.len() implies crate::script::contents_view(
                                frag.contents@,
                            )[k] == entries[e as int].1[k] by {
                                assert(frag.contents@[k].deep_view() == entries[e as int].1[k]);
                            }
                        }
                        assert(frag@ =~= FragmentView {
                            path: path_v,
                            name: entries[e as int].0,
                            contents: entries[e as int].1,
                            rendered: rendered_of(entries[e as int].0, entries[e as int].1),
                        });
                    }
                    let ghost prev_dv = frags.deep_view();
                    let ghost prev = frags@;
                    frags.push(frag);
                    proof {
                        assert(prev_dv.len() == prev.len());
                        assert(frags.deep_view().len() == frags@.len());
                        assert forall|i: int|
                            0 <= i < base.len() implies (#[trigger] frags.deep_view()[i])
                            == base[i] by {
                            assert(frags.deep_view()[i] == frags@[i].deep_view());
                            assert(frags@[i] == prev[i]);
                            assert(prev_dv[i] == prev[i].deep_view());
                        }
                        assert forall|k: int|
                            0 <= k < e + 1 implies (#[trigger] frags.deep_view()[base.len() + k])
                            == (FragmentView {
                            path: path_v,
                            name: entries[k].0,
                            contents: entries[k].1,
                            rendered: rendered_of(entries[k].0, entries[k].1),
                        }) by {
                            assert(frags.deep_view()[base.len() + k] == frags@[base.len()
                                + k].deep_view());
                            if k < e {
                                assert(frags@[base.len() + k] == prev[base.len() + k]);
                                assert(prev_dv[base.len() + k] == prev[base.len()
                                    + k].deep_view());
                            }
                        }
                    }
                }
                proof {
                    let ff = file_fragments(path_v, text_v);
                    assert(ff.len() == entries.len());
                    assert(frags.deep_view().len() == base.len() + ff.len());
                    assert forall|i: int|
                        0 <= i < frags.deep_view().len() implies frags.deep_view()[i] == (base
                        + ff)[i] by {
                        if i >= base.len() {
                            assert(ff[i - base.len()] == (FragmentView {
                                path: path_v,
                                name: entries[i - base.len()].0,
                                contents: entries[i - base.len()].1,
                                rendered: rendered_of(
                                    entries[i - base.len()].0,
                                    entries[i - base.len()].1,
                                ),
                            }));
                            assert(frags.deep_view()[base.len() + (i - base.len())]
                                == ff[i - base.len()]);
                        }
                    }
                    assert(frags.deep_view() =~= base + ff);
                }
            },
        }
        proof {
            let pre = files@.subrange(0, f as int);
            let cur = files@.subrange(0, f + 1);
            assert(cur.drop_last() =~= pre);
            assert(cur.last() == files@[f as int]);
            assert(frags.deep_view() =~= loaded_fragments(cur));
        }
    }
    proof {
        assert(files@.subrange(0, nf as int) =~= files@);
        lemma_loaded_fragments_sourced(files@);
    }
    frags
}

} // verus!
