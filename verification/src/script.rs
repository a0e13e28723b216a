//! Validated script records: turning one raw entry's field mapping into a
//! `Script`, with the optional documentation block and its field aliases.

use vstd::prelude::*;
use vstd::string::StringExecFns;

use crate::yaml::{map_lookup, yaml_view, Yaml, YamlView};

verus! {

broadcast use vstd::std_specs::vec::axiom_vec_decreases_to_view, vstd::seq::axiom_seq_index_decreases, vstd::seq::axiom_seq_subrange_decreases;

/// One documented argument of a script: an optional description and an
/// optional type tag.
#[derive(Clone)]
pub struct DocArg {
    pub description: Option<String>,
    pub arg_type: Option<String>,
}

/// The shape of a `DocArg`.
#[verifier::ext_equal]
pub ghost struct DocArgView {
    pub description: Option<Seq<char>>,
    pub arg_type: Option<Seq<char>>,
}

impl View for DocArg {
    type V = DocArgView;

    open spec fn view(&self) -> DocArgView {
        DocArgView { description: self.description.deep_view(), arg_type: self.arg_type.deep_view() }
    }
}

impl DeepView for DocArg {
    type V = DocArgView;

    open spec fn deep_view(&self) -> DocArgView {
        self.view()
    }
}

/// The documentation block of a script: free-form metadata shown by the
/// documentation commands.
#[derive(Clone)]
pub struct Doc {
    pub deprecated: Option<bool>,
    pub description: Option<String>,
    pub usage: Option<String>,
    pub determine: Option<DocArg>,
    pub uses: Option<Vec<String>>,
    pub defs: Option<Vec<(String, DocArg)>>,
    pub keys: Option<Vec<(String, DocArg)>>,
}

/// The shape of a `Doc`.
#[verifier::ext_equal]
pub ghost struct DocView {
    pub deprecated: Option<bool>,
    pub description: Option<Seq<char>>,
    pub usage: Option<Seq<char>>,
    pub determine: Option<DocArgView>,
    pub uses: Option<Seq<Seq<char>>>,
    pub defs: Option<Seq<(Seq<char>, DocArgView)>>,
    pub keys: Option<Seq<(Seq<char>, DocArgView)>>,
}

impl View for Doc {
    type V = DocView;

    open spec fn view(&self) -> DocView {
        DocView {
            deprecated: self.deprecated,
            description: self.description.deep_view(),
            usage: self.usage.deep_view(),
            determine: self.determine.deep_view(),
            uses: self.uses.deep_view(),
            defs: self.defs.deep_view(),
            keys: self.keys.deep_view(),
        }
    }
}

impl DeepView for Doc {
    type V = DocView;

    open spec fn deep_view(&self) -> DocView {
        self.view()
    }
}

/// A validated script record: where it was declared, its declared type, the
/// names of all its fields, and its optional documentation block.
#[derive(Clone)]
pub struct Script {
    pub path: String,
    pub script_type: String,
    pub keys: Vec<String>,
    pub doc: Option<Doc>,
}

/// The shape of a `Script`.
#[verifier::ext_equal]
pub ghost struct ScriptView {
    pub path: Seq<char>,
    pub script_type: Seq<char>,
    pub keys: Seq<Seq<char>>,
    pub doc: Option<DocView>,
}

impl View for Script {
    type V = ScriptView;

    open spec fn view(&self) -> ScriptView {
        ScriptView {
            path: self.path@,
            script_type: self.script_type@,
            keys: self.keys.deep_view(),
            doc: self.doc.deep_view(),
        }
    }
}

impl DeepView for Script {
    type V = ScriptView;

    open spec fn deep_view(&self) -> ScriptView {
        self.view()
    }
}

/// Why one raw entry was rejected.
#[derive(Clone, Copy, PartialEq, Eq, Structural)]
pub enum ValidationErrorKind {
    /// The entry has no `type` field.
    MissingType,
    /// The entry's `type` field is not a string.
    InvalidType,
}

/// A rejected entry: the file it came from and why it was dropped.
#[derive(Clone)]
pub struct ValidationError {
    pub path: String,
    pub kind: ValidationErrorKind,
}

pub open spec fn validation_message(kind: ValidationErrorKind) -> Seq<char> {
    match kind {
        ValidationErrorKind::MissingType => "Script does not contain a 'type' key."@,
        ValidationErrorKind::InvalidType => "Failed to parse 'type' key."@,
    }
}

impl ValidationError {
    /// The short message for the error stream; the path is the detail.
    pub fn message(&self) -> (r: String)
        ensures
            r@ == validation_message(self.kind),
    {
        match self.kind {
            ValidationErrorKind::MissingType => String::from_str(
                "Script does not contain a 'type' key.",
            ),
            ValidationErrorKind::InvalidType => String::from_str("Failed to parse 'type' key."),
        }
    }
}

/// The view of a raw entry's contents: field names to field values.
pub open spec fn contents_view(c: Seq<(String, Yaml)>) -> Seq<(Seq<char>, YamlView)> {
    c.map_values(|e: (String, Yaml)| (e.0@, yaml_view(e.1)))
}

/// The first value bound to `key` among a raw entry's fields.
pub open spec fn field_lookup(c: Seq<(Seq<char>, YamlView)>, key: Seq<char>) -> Option<YamlView>
    decreases c.len(),
{
    if c.len() == 0 {
        None
    } else if c[0].0 == key {
        Some(c[0].1)
    } else {
        field_lookup(c.drop_first(), key)
    }
}

/// Looks a field up by name, first match wins.
pub fn contents_get<'a>(c: &'a Vec<(String, Yaml)>, key: &str) -> (r: Option<&'a Yaml>)
    ensures
        match r {
            Some(v) => field_lookup(contents_view(c@), key@) == Some(yaml_view(*v)),
            None => field_lookup(contents_view(c@), key@) is None,
        },
{
    let ghost cv = contents_view(c@);
    let n = c.len();
    proof {
        assert(cv.skip(0) =~= cv);
    }
    for i in 0..n
        invariant
            n == c@.len(),
            cv == contents_view(c@),
            field_lookup(cv, key@) == field_lookup(cv.skip(i as int), key@),
    {
        proof {
            assert(cv.skip(i as int)[0] == cv[i as int]);
            assert(cv.skip(i as int).drop_first() =~= cv.skip(i + 1));
        }
        if crate::text::str_eq(c[i].0.as_str(), key) {
            return Some(&c[i].1);
        }
    }
    proof {
        assert(cv.skip(n as int) =~= Seq::<(Seq<char>, YamlView)>::empty());
    }
    None
}

/// A present optional field must be a string to be kept; absence is fine.
pub open spec fn opt_str_ok(o: Option<YamlView>) -> bool {
    match o {
        None => true,
        Some(v) => v is Str,
    }
}

pub open spec fn opt_str_of(o: Option<YamlView>) -> Option<Seq<char>> {
    match o {
        Some(YamlView::Str(s)) => Some(s),
        _ => None,
    }
}

/// The first of the aliased names that is bound in the mapping.
pub open spec fn alias2(es: Seq<(YamlView, YamlView)>, a: Seq<char>, b: Seq<char>) -> Option<
    YamlView,
> {
    if map_lookup(es, a) is Some {
        map_lookup(es, a)
    } else {
        map_lookup(es, b)
    }
}

pub open spec fn alias3(
    es: Seq<(YamlView, YamlView)>,
    a: Seq<char>,
    b: Seq<char>,
    c: Seq<char>,
) -> Option<YamlView> {
    if map_lookup(es, a) is Some {
        map_lookup(es, a)
    } else {
        alias2(es, b, c)
    }
}

/// The documented-argument block read from one mapping value. A value of any
/// other shape, or a present field of the wrong shape, invalidates the block.
pub open spec fn doc_arg_of(v: YamlView) -> Option<DocArgView> {
    match v {
        YamlView::Mapping(es) => {
            let d = alias3(es, "description"@, "desc"@, "about"@);
            let t = map_lookup(es, "type"@);
            if opt_str_ok(d) && opt_str_ok(t) {
                Some(DocArgView { description: opt_str_of(d), arg_type: opt_str_of(t) })
            } else {
                None
            }
        },
        _ => None,
    }
}

/// A list of strings, or nothing if any element is not a string.
pub open spec fn str_list_of(v: YamlView) -> Option<Seq<Seq<char>>> {
    match v {
        YamlView::List(items) => if forall|i: int| 0 <= i < items.len() ==> items[i] is Str {
            Some(Seq::new(items.len(), |i: int| items[i]->Str_0))
        } else {
            None
        },
        _ => None,
    }
}

/// A mapping from names to documented arguments, or nothing if any key is not
/// a string or any value is not a well-shaped argument block.
pub open spec fn arg_map_of(v: YamlView) -> Option<Seq<(Seq<char>, DocArgView)>> {
    match v {
        YamlView::Mapping(es) => if forall|i: int|
            0 <= i < es.len() ==> es[i].0 is Str && #[trigger] doc_arg_of(es[i].1) is Some {
            Some(Seq::new(es.len(), |i: int| (es[i].0->Str_0, doc_arg_of(es[i].1)->0)))
        } else {
            None
        },
        _ => None,
    }
}

pub open spec fn opt_bool_ok(o: Option<YamlView>) -> bool {
    match o {
        None => true,
        Some(v) => v is Bool,
    }
}

pub open spec fn opt_bool_of(o: Option<YamlView>) -> Option<bool> {
    match o {
        Some(YamlView::Bool(b)) => Some(b),
        _ => None,
    }
}

pub open spec fn opt_doc_arg_ok(o: Option<YamlView>) -> bool {
    match o {
        None => true,
        Some(v) => doc_arg_of(v) is Some,
    }
}

pub open spec fn opt_doc_arg_of(o: Option<YamlView>) -> Option<DocArgView> {
    match o {
        Some(v) => doc_arg_of(v),
        None => None,
    }
}

pub open spec fn opt_str_list_ok(o: Option<YamlView>) -> bool {
    match o {
        None => true,
        Some(v) => str_list_of(v) is Some,
    }
}

pub open spec fn opt_str_list_of(o: Option<YamlView>) -> Option<Seq<Seq<char>>> {
    match o {
        Some(v) => str_list_of(v),
        None => None,
    }
}

pub open spec fn opt_arg_map_ok(o: Option<YamlView>) -> bool {
    match o {
        None => true,
        Some(v) => arg_map_of(v) is Some,
    }
}

pub open spec fn opt_arg_map_of(o: Option<YamlView>) -> Option<Seq<(Seq<char>, DocArgView)>> {
    match o {
        Some(v) => arg_map_of(v),
        None => None,
    }
}

/// The documentation block read from one mapping value. The recognized field
/// aliases are `description`|`desc`|`about`, `determine`|`determines`,
/// `uses`|`use` and `defs`|`definitions`; a present field of the wrong shape,
/// or a non-mapping value, invalidates the whole block.
pub open spec fn doc_of(v: YamlView) -> Option<DocView> {
    match v {
        YamlView::Mapping(es) => {
            let deprecated = map_lookup(es, "deprecated"@);
            let description = alias3(es, "description"@, "desc"@, "about"@);
            let usage = map_lookup(es, "usage"@);
            let determine = alias2(es, "determine"@, "determines"@);
            let uses = alias2(es, "uses"@, "use"@);
            let defs = alias2(es, "defs"@, "definitions"@);
            let keys = map_lookup(es, "keys"@);
            if opt_bool_ok(deprecated) && opt_str_ok(description) && opt_str_ok(usage)
                && opt_doc_arg_ok(determine) && opt_str_list_ok(uses) && opt_arg_map_ok(defs)
                && opt_arg_map_ok(keys) {
                Some(
                    DocView {
                        deprecated: opt_bool_of(deprecated),
                        description: opt_str_of(description),
                        usage: opt_str_of(usage),
                        determine: opt_doc_arg_of(determine),
                        uses: opt_str_list_of(uses),
                        defs: opt_arg_map_of(defs),
                        keys: opt_arg_map_of(keys),
                    },
                )
            } else {
                None
            }
        },
        _ => None,
    }
}

/// The value that feeds the documentation block: the `data` field first,
/// falling back to `doc`.
pub open spec fn doc_source(c: Seq<(Seq<char>, YamlView)>) -> Option<YamlView> {
    if field_lookup(c, "data"@) is Some {
        field_lookup(c, "data"@)
    } else {
        field_lookup(c, "doc"@)
    }
}

/// The documentation block of a raw entry, if any; a malformed block is
/// silently dropped.
pub open spec fn doc_of_contents(c: Seq<(Seq<char>, YamlView)>) -> Option<DocView> {
    match doc_source(c) {
        Some(v) => doc_of(v),
        None => None,
    }
}

/// Looks the aliased names up in order; the first bound name wins.
fn alias3_get<'a>(es: &'a Vec<(Yaml, Yaml)>, a: &str, b: &str, c: &str) -> (r: Option<&'a Yaml>)
    ensures
        ({
            let ev = es@.map_values(|e: (Yaml, Yaml)| (e.0@, e.1@));
            match r {
                Some(v) => alias3(ev, a@, b@, c@) == Some(yaml_view(*v)),
                None => alias3(ev, a@, b@, c@) is None,
            }
        }),
{
    match crate::yaml::yaml_map_get(es, a) {
        Some(v) => Some(v),
        None => match crate::yaml::yaml_map_get(es, b) {
            Some(v) => Some(v),
            None => crate::yaml::yaml_map_get(es, c),
        },
    }
}

/// Reads one documented-argument block; any shape fault drops it.
pub fn doc_arg_from(v: &Yaml) -> (r: Option<DocArg>)
    ensures
        r.deep_view() == doc_arg_of(yaml_view(*v)),
{
    match v {
        Yaml::Mapping(es) => {
            proof {
                crate::yaml::lemma_yaml_entries_view(es@);
            }
            let d = alias3_get(es, "description", "desc", "about");
            let t = crate::yaml::yaml_map_get(es, "type");
            let description = match d {
                None => None,
                Some(Yaml::Str(s)) => Some(s.clone()),
                Some(_) => {
                    return None;
                },
            };
            let arg_type = match t {
                None => None,
                Some(Yaml::Str(s)) => Some(s.clone()),
                Some(_) => {
                    return None;
                },
            };
            Some(DocArg { description, arg_type })
        },
        _ => None,
    }
}

/// Reads a list of strings; any non-string element drops the list.
pub fn str_list_from(v: &Yaml) -> (r: Option<Vec<String>>)
    ensures
        r.deep_view() == str_list_of(yaml_view(*v)),
{
    match v {
        Yaml::List(items) => {
            proof {
                crate::yaml::lemma_yaml_seq_view(items@);
            }
            let ghost sv = crate::yaml::yaml_seq_view(items@);
            let mut out: Vec<String> = Vec::new();
            let n = items.len();
            for i in 0..n
                invariant
                    n == items@.len(),
                    sv == crate::yaml::yaml_seq_view(items@),
                    sv =~= items@.map_values(|y: Yaml| yaml_view(y)),
                    yaml_view(*v) == YamlView::List(sv),
                    out@.len() == i,
                    forall|j: int| 0 <= j < i ==> (#[trigger] sv[j]) is Str,
                    out.deep_view() == Seq::new(i as nat, |j: int| sv[j]->Str_0),
            {
                let item = &items[i];
                proof {
                    assert(sv[i as int] == yaml_view(items@[i as int]));
                }
                match item {
                    Yaml::Str(s) => {
                        let ghost prev = out@;
                        let ghost prev_dv = out.deep_view();
                        out.push(s.clone());
                        proof {
                            assert(sv[i as int] == YamlView::Str(s@));
                            assert forall|j: int|
                                0 <= j < i + 1 implies out.deep_view()[j] == sv[j]->Str_0 by {
                                assert(out.deep_view()[j] == out@[j].deep_view());
                                if j < i {
                                    assert(out@[j] == prev[j]);
                                    assert(prev_dv[j] == prev[j].deep_view());
                                    assert(prev_dv[j] == sv[j]->Str_0);
                                }
                            }
                            assert(out.deep_view() =~= Seq::new(
                                (i + 1) as nat,
                                |j: int| sv[j]->Str_0,
                            ));
                        }
                    },
                    _ => {
                        proof {
                            assert(!(forall|j: int| 0 <= j < sv.len() ==> sv[j] is Str)) by {
                                assert(0 <= i < sv.len() && !(sv[i as int] is Str));
                            }
                        }
                        return None;
                    },
                }
            }
            proof {
                assert(out.deep_view() =~= Seq::new(sv.len(), |i: int| sv[i]->Str_0));
            }
            Some(out)
        },
        _ => None,
    }
}

/// Reads a mapping from names to documented arguments; any non-string key or
/// malformed argument block drops the whole mapping.
pub fn arg_map_from(v: &Yaml) -> (r: Option<Vec<(String, DocArg)>>)
    ensures
        r.deep_view() == arg_map_of(yaml_view(*v)),
{
    match v {
        Yaml::Mapping(es) => {
            proof {
                crate::yaml::lemma_yaml_entries_view(es@);
            }
            let ghost ev = crate::yaml::yaml_entries_view(es@);
            let mut out: Vec<(String, DocArg)> = Vec::new();
            let n = es.len();
            for i in 0..n
                invariant
                    n == es@.len(),
                    ev == crate::yaml::yaml_entries_view(es@),
                    ev =~= es@.map_values(|e: (Yaml, Yaml)| (e.0@, e.1@)),
                    yaml_view(*v) == YamlView::Mapping(ev),
                    out@.len() == i,
                    forall|j: int|
                        0 <= j < i ==> (#[trigger] ev[j]).0 is Str && doc_arg_of(ev[j].1)
                            is Some,
                    out.deep_view() == Seq::new(
                        i as nat,
                        |j: int| (ev[j].0->Str_0, doc_arg_of(ev[j].1)->0),
                    ),
            {
                let entry = &es[i];
                proof {
                    assert(ev[i as int] == (es@[i as int].0@, es@[i as int].1@));
                }
                match entry {
                    (Yaml::Str(k), val) => {
                        match doc_arg_from(val) {
                            Some(arg) => {
                                let ghost prev = out@;
                                let ghost prev_dv = out.deep_view();
                                out.push((k.clone(), arg));
                                proof {
                                    assert(ev[i as int].0 == YamlView::Str(k@));
                                    assert forall|j: int|
                                        0 <= j < i + 1 implies out.deep_view()[j] == (
                                        ev[j].0->Str_0,
                                        doc_arg_of(ev[j].1)->0,
                                    ) by {
                                        assert(out.deep_view()[j] == out@[j].deep_view());
                                        if j < i {
                                            assert(out@[j] == prev[j]);
                                            assert(prev_dv[j] == prev[j].deep_view());
                                            assert(prev_dv[j] == (
                                                ev[j].0->Str_0,
                                                doc_arg_of(ev[j].1)->0,
                                            ));
                                        }
                                    }
                                    assert(out.deep_view() =~= Seq::new(
                                        (i + 1) as nat,
                                        |j: int| (ev[j].0->Str_0, doc_arg_of(ev[j].1)->0),
                                    ));
                                }
                            },
                            None => {
                                proof {
                                    assert(!(forall|j: int|
                                        0 <= j < ev.len() ==> ev[j].0 is Str
                                            && #[trigger] doc_arg_of(ev[j].1) is Some)) by {
                                        assert(0 <= i < ev.len() && !(doc_arg_of(ev[i as int].1)
                                            is Some));
                                    }
                                }
                                return None;
                            },
                        }
                    },
                    _ => {
                        proof {
                            assert(!(forall|j: int|
                                0 <= j < ev.len() ==> ev[j].0 is Str && #[trigger] doc_arg_of(
                                    ev[j].1,
                                ) is Some)) by {
                                assert(0 <= i < ev.len() && !(ev[i as int].0 is Str));
                            }
                        }
                        return None;
                    },
                }
            }
            proof {
                assert(out.deep_view() =~= Seq::new(
                    ev.len(),
                    |i: int| (ev[i].0->Str_0, doc_arg_of(ev[i].1)->0),
                ));
            }
            Some(out)
        },
        _ => None,
    }
}

/// Looks the two aliased names up in order; the first bound name wins.
fn alias2_get<'a>(es: &'a Vec<(Yaml, Yaml)>, a: &str, b: &str) -> (r: Option<&'a Yaml>)
    ensures
        ({
            let ev = es@.map_values(|e: (Yaml, Yaml)| (e.0@, e.1@));
            match r {
                Some(v) => alias2(ev, a@, b@) == Some(yaml_view(*v)),
                None => alias2(ev, a@, b@) is None,
            }
        }),
{
    match crate::yaml::yaml_map_get(es, a) {
        Some(v) => Some(v),
        None => crate::yaml::yaml_map_get(es, b),
    }
}

/// Reads a whole documentation block from one mapping value; any shape fault
/// silently drops the block.
pub fn doc_from_value(v: &Yaml) -> (r: Option<Doc>)
    ensures
        r.deep_view() == doc_of(yaml_view(*v)),
{
    match v {
        Yaml::Mapping(es) => {
            proof {
                crate::yaml::lemma_yaml_entries_view(es@);
            }
            let deprecated = match crate::yaml::yaml_map_get(es, "deprecated") {
                None => None,
                Some(Yaml::Bool(b)) => Some(*b),
                Some(_) => {
                    return None;
                },
            };
            let description = match alias3_get(es, "description", "desc", "about") {
                None => None,
                Some(Yaml::Str(s)) => Some(s.clone()),
                Some(_) => {
                    return None;
                },
            };
            let usage = match crate::yaml::yaml_map_get(es, "usage") {
                None => None,
                Some(Yaml::Str(s)) => Some(s.clone()),
                Some(_) => {
                    return None;
                },
            };
            let determine = match alias2_get(es, "determine", "determines") {
                None => None,
                Some(val) => match doc_arg_from(val) {
                    Some(a) => Some(a),
                    None => {
                        return None;
                    },
                },
            };
            let uses = match alias2_get(es, "uses", "use") {
                None => None,
                Some(val) => match str_list_from(val) {
                    Some(l) => Some(l),
                    None => {
                        return None;
                    },
                },
            };
            let defs = match alias2_get(es, "defs", "definitions") {
                None => None,
                Some(val) => match arg_map_from(val) {
                    Some(m) => Some(m),
                    None => {
                        return None;
                    },
                },
            };
            let keys = match crate::yaml::yaml_map_get(es, "keys") {
                None => None,
                Some(val) => match arg_map_from(val) {
                    Some(m) => Some(m),
                    None => {
                        return None;
                    },
                },
            };
            Some(Doc { deprecated, description, usage, determine, uses, defs, keys })
        },
        _ => None,
    }
}

impl Doc {
    /// Reads the documentation block of a raw entry: the `data` field first,
    /// falling back to `doc`; a malformed block yields nothing.
    pub fn from(contents: &Vec<(String, Yaml)>) -> (r: Option<Doc>)
        ensures
            r.deep_view() == doc_of_contents(contents_view(contents@)),
    {
        let src = match contents_get(contents, "data") {
            Some(v) => v,
            None => match contents_get(contents, "doc") {
                Some(v) => v,
                None => {
                    return None;
                },
            },
        };
        doc_from_value(src)
    }
}

/// What validation makes of one raw entry: the record, or why it is dropped.
pub open spec fn validate_view(path: Seq<char>, cv: Seq<(Seq<char>, YamlView)>) -> Result<
    ScriptView,
    ValidationErrorKind,
> {
    match field_lookup(cv, "type"@) {
        None => Err(ValidationErrorKind::MissingType),
        Some(YamlView::Str(t)) => Ok(
            ScriptView {
                path: path,
                script_type: t,
                keys: cv.map_values(|e: (Seq<char>, YamlView)| e.0),
                doc: doc_of_contents(cv),
            },
        ),
        Some(_) => Err(ValidationErrorKind::InvalidType),
    }
}

impl Script {
    /// Validates one raw entry into a `Script`: the entry must carry a string
    /// `type` field; `keys` records every field name; the documentation block
    /// is optional.
    pub fn from(path: String, contents: &Vec<(String, Yaml)>) -> (r: Result<Script, ValidationError>)
        ensures
            match r {
                Ok(s) => validate_view(path@, contents_view(contents@)) == Ok::<
                    ScriptView,
                    ValidationErrorKind,
                >(s@),
                Err(e) => e.path@ == path@ && validate_view(path@, contents_view(contents@))
                    == Err::<ScriptView, ValidationErrorKind>(e.kind),
            },
    {
        let ghost cv = contents_view(contents@);
        match contents_get(contents, "type") {
            None => Err(ValidationError { path, kind: ValidationErrorKind::MissingType }),
            Some(Yaml::Str(t)) => {
                let script_type = t.clone();
                let mut keys: Vec<String> = Vec::new();
                let n = contents.len();
                for i in 0..n
                    invariant
                        n == contents@.len(),
                        cv == contents_view(contents@),
                        keys@.len() == i,
                        keys.deep_view() == Seq::new(i as nat, |j: int| cv[j].0),
                {
                    let ghost prev = keys@;
                    let ghost prev_dv = keys.deep_view();
                    keys.push(contents[i].0.clone());
                    proof {
                        assert(cv[i as int] == (contents@[i as int].0@, yaml_view(
                            contents@[i as int].1,
                        )));
                        assert forall|j: int| 0 <= j < i + 1 implies keys.deep_view()[j]
                            == cv[j].0 by {
                            assert(keys.deep_view()[j] == keys@[j]@);
                            if j < i {
                                assert(keys@[j] == prev[j]);
                                assert(prev_dv[j] == prev[j]@);
                                assert(prev_dv[j] == cv[j].0);
                            }
                        }
                        assert(keys.deep_view() =~= Seq::new((i + 1) as nat, |j: int| cv[j].0));
                    }
                }
                let doc = Doc::from(contents);
                let s = Script { path, script_type, keys, doc };
                proof {
                    assert(s@.keys =~= cv.map_values(|e: (Seq<char>, YamlView)| e.0));
                    assert(validate_view(s@.path, cv) == Ok::<ScriptView, ValidationErrorKind>(
                        s@,
                    ));
                }
                Ok(s)
            },
            Some(_) => Err(ValidationError { path, kind: ValidationErrorKind::InvalidType }),
        }
    }
}

/// The plain listing of a script: its name, type, path and field names.
pub open spec fn script_text_view(name: Seq<char>, s: ScriptView) -> Seq<char> {
    "Name: "@ + name + "\nType: "@ + s.script_type + "\nPath: "@ + s.path + "\nKeys: "@
        + crate::text::join_seq(s.keys, ", "@)
}

impl Script {
    /// Renders the plain listing of this script under `name`.
    pub fn display_text(&self, name: &str) -> (r: String)
        ensures
            r@ == script_text_view(name@, self@),
    {
        let mut out = String::from_str("Name: ");
        out.append(name);
        out.append("\nType: ");
        out.append(self.script_type.as_str());
        out.append("\nPath: ");
        out.append(self.path.as_str());
        out.append("\nKeys: ");
        let joined = crate::text::join_strings(&self.keys, ", ");
        out.append(joined.as_str());
        proof {
            assert(out@ =~= script_text_view(name@, self@));
        }
        out
    }
}

/// Renders the listing of one raw entry, validating it first: the listing of
/// the validated record, or why the entry is rejected.
pub fn print_script(name: &str, path: &String, data: &Vec<(String, Yaml)>) -> (r: Result<
    String,
    ValidationError,
>)
    ensures
        match r {
            Ok(text) => validate_view(path@, contents_view(data@)) matches Ok(sv) && text@
                == script_text_view(name@, sv),
            Err(e) => e.path@ == path@ && validate_view(path@, contents_view(data@)) == Err::<
                ScriptView,
                ValidationErrorKind,
            >(e.kind),
        },
{
    match Script::from(path.clone(), data) {
        Ok(s) => Ok(s.display_text(name)),
        Err(e) => Err(e),
    }
}

/// How one documented argument is rendered: an optional leading name, the
/// bracketed type tag, and the separated description.
pub open spec fn display_view(
    arg: Option<DocArgView>,
    name: Option<Seq<char>>,
    sep: Seq<char>,
) -> Option<Seq<char>> {
    match arg {
        None => None,
        Some(a) => {
            let n = match name {
                Some(nm) => nm + " "@,
                None => Seq::empty(),
            };
            let t = match a.arg_type {
                Some(ty) => "["@ + ty + "]"@,
                None => Seq::empty(),
            };
            let d = match a.description {
                Some(ds) => sep + " "@ + ds,
                None => Seq::empty(),
            };
            Some(n + t + d)
        },
    }
}

impl DocArg {
    /// An equal copy, made field by field.
    pub fn duplicate(&self) -> (r: DocArg)
        ensures
            r@ == self@,
    {
        DocArg {
            description: match &self.description {
                Some(s) => Some(s.clone()),
                None => None,
            },
            arg_type: match &self.arg_type {
                Some(s) => Some(s.clone()),
                None => None,
            },
        }
    }

    /// Renders one documented argument, or nothing when there is none.
    pub fn display(arg: Option<DocArg>, name: Option<String>, sep: &str) -> (r: Option<String>)
        ensures
            r.deep_view() == display_view(arg.deep_view(), name.deep_view(), sep@),
    {
        let ghost av = arg.deep_view();
        let ghost nv = name.deep_view();
        if let Some(arg) = arg {
            let mut out = String::new();
            if let Some(nm) = name {
                out.append(nm.as_str());
                out.append(" ");
            }
            if let Some(ty) = arg.arg_type {
                out.append("[");
                out.append(ty.as_str());
                out.append("]");
            }
            if let Some(ds) = arg.description {
                out.append(sep);
                out.append(" ");
                out.append(ds.as_str());
            }
            proof {
                assert(display_view(av, nv, sep@) matches Some(expected) && out@ =~= expected);
            }
            Some(out)
        } else {
            None
        }
    }
}

/// One argument-list block: a blank line, the key with a colon, and one
/// bullet per documented argument; nothing when the list is absent.
pub open spec fn arg_list_view(
    key: Seq<char>,
    value: Option<Seq<(Seq<char>, DocArgView)>>,
) -> Seq<char> {
    match value {
        None => Seq::empty(),
        Some(args) => "\n"@ + key + ":\n"@ + crate::text::join_seq(
            Seq::new(
                args.len(),
                |i: int| "- "@ + display_view(Some(args[i].1), Some(args[i].0), ":"@)->0,
            ),
            "\n"@,
        ) + "\n"@,
    }
}

/// The one-line fields of the documentation block: the deprecation warning,
/// the description, the determined value and the used scripts.
pub open spec fn doc_head_view(d: DocView) -> Seq<char> {
    (if d.deprecated == Some(true) {
        "WARNING: This script is deprecated!\n\n"@
    } else {
        Seq::empty()
    }) + (match d.description {
        Some(v) => "Description: "@ + v + "\n"@,
        None => Seq::empty(),
    }) + (match d.determine {
        Some(a) => "Determine: "@ + display_view(Some(a), None, " -"@)->0 + "\n"@,
        None => Seq::empty(),
    }) + (match d.uses {
        Some(u) => "Uses: "@ + crate::text::join_seq(u, ", "@) + "\n"@,
        None => Seq::empty(),
    })
}

/// The documentation block as the script command shows it, without color:
/// the one-line fields, the usage block and the argument lists, each present
/// only when its field is.
pub open spec fn doc_text_view(d: DocView) -> Seq<char> {
    doc_head_view(d) + (match d.usage {
        Some(u) => "\nUsage:\n"@ + u + "\n"@,
        None => Seq::empty(),
    }) + arg_list_view("Defs"@, d.defs) + arg_list_view("Data Keys:"@, d.keys)
}

fn arg_list_text(key: &str, value: &Option<Vec<(String, DocArg)>>) -> (r: String)
    ensures
        r@ == arg_list_view(key@, value.deep_view()),
{
    match value {
        None => String::new(),
        Some(args) => {
            let ghost av = args.deep_view();
            let mut bullets: Vec<String> = Vec::new();
            let n = args.len();
            for i in 0..n
                invariant
                    n == args@.len(),
                    av == args.deep_view(),
                    av.len() == n,
                    bullets@.len() == i,
                    bullets.deep_view() == Seq::new(
                        i as nat,
                        |k: int| "- "@ + display_view(Some(av[k].1), Some(av[k].0), ":"@)->0,
                    ),
            {
                proof {
                    assert(av[i as int] == args@[i as int].deep_view());
                }
                let line = match DocArg::display(
                    Some(args[i].1.duplicate()),
                    Some(args[i].0.clone()),
                    ":",
                ) {
                    Some(s) => s,
                    None => String::new(),
                };
                let mut b = String::from_str("- ");
                b.append(line.as_str());
                let ghost prev_dv = bullets.deep_view();
                bullets.push(b);
                proof {
                    assert forall|k: int| 0 <= k < i + 1 implies bullets.deep_view()[k] == "- "@
                        + display_view(Some(av[k].1), Some(av[k].0), ":"@)->0 by {
                        assert(bullets.deep_view()[k] == bullets@[k]@);
                        if k < i {
                            assert(prev_dv[k] == "- "@ + display_view(
                                Some(av[k].1),
                                Some(av[k].0),
                                ":"@,
                            )->0);
                        }
                    }
                    assert(bullets.deep_view() =~= Seq::new(
                        (i + 1) as nat,
                        |k: int| "- "@ + display_view(Some(av[k].1), Some(av[k].0), ":"@)->0,
                    ));
                }
            }
            let mut out = String::from_str("\n");
            out.append(key);
            out.append(":\n");
            let joined = crate::text::join_strings(&bullets, "\n");
            out.append(joined.as_str());
            out.append("\n");
            proof {
                assert(out@ =~= arg_list_view(key@, value.deep_view()));
            }
            out
        },
    }
}

impl Doc {
    /// Renders the one-line fields of the documentation block.
    #[verifier::rlimit(100)]
    fn print_head(&self) -> (r: String)
        ensures
            r@ == doc_head_view(self@),
    {
        let ghost p1: Seq<char> = if self@.deprecated == Some(true) {
            "WARNING: This script is deprecated!\n\n"@
        } else {
            Seq::empty()
        };
        let ghost p2: Seq<char> = match self@.description {
            Some(v) => "Description: "@ + v + "\n"@,
            None => Seq::empty(),
        };
        let ghost p3: Seq<char> = match self@.determine {
            Some(a) => "Determine: "@ + display_view(Some(a), None, " -"@)->0 + "\n"@,
            None => Seq::empty(),
        };
        let ghost p4: Seq<char> = match self@.uses {
            Some(u) => "Uses: "@ + crate::text::join_seq(u, ", "@) + "\n"@,
            None => Seq::empty(),
        };
        let mut out = String::new();
        match self.deprecated {
            Some(true) => out.append("WARNING: This script is deprecated!\n\n"),
            _ => {},
        }
        proof {
            assert(out@ =~= p1);
        }
        if let Some(v) = &self.description {
            out.append("Description: ");
            out.append(v.as_str());
            out.append("\n");
        }
        proof {
            assert(out@ =~= p1 + p2);
        }
        if let Some(a) = &self.determine {
            out.append("Determine: ");
            let line = match DocArg::display(Some(a.duplicate()), None, " -") {
                Some(s) => s,
                None => String::new(),
            };
            out.append(line.as_str());
            out.append("\n");
        }
        proof {
            assert(out@ =~= p1 + p2 + p3);
        }
        if let Some(u) = &self.uses {
            out.append("Uses: ");
            let joined = crate::text::join_strings(u, ", ");
            out.append(joined.as_str());
            out.append("\n");
        }
        proof {
            assert(out@ =~= p1 + p2 + p3 + p4);
            assert(doc_head_view(self@) == p1 + p2 + p3 + p4);
        }
        out
    }

    /// Renders the documentation block, without color.
    #[verifier::rlimit(100)]
    pub fn print_text(&self) -> (r: String)
        ensures
            r@ == doc_text_view(self@),
    {
        let mut out = self.print_head();
        if let Some(u) = &self.usage {
            out.append("\nUsage:\n");
            out.append(u.as_str());
            out.append("\n");
        }
        proof {
            assert(out@ =~= doc_head_view(self@) + (match self@.usage {
                Some(u) => "\nUsage:\n"@ + u + "\n"@,
                None => Seq::<char>::empty(),
            }));
        }
        let defs = arg_list_text("Defs", &self.defs);
        out.append(defs.as_str());
        let keys = arg_list_text("Data Keys:", &self.keys);
        out.append(keys.as_str());
        proof {
            assert(out@ =~= doc_text_view(self@));
        }
        out
    }
}

} // verus!
