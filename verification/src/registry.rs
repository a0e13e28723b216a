//! The registry: the `name → Script` mapping assembled from all fragments.
//! At most one record per name; a later fragment with the same name
//! overwrites the earlier one, so folding order decides the winner. The
//! entries iterate in ascending name order, as a sorted map would.

use vstd::pervasive::VecAdditionalExecFns;
use vstd::prelude::*;

use crate::load::{FragmentView, ScriptFragment};
use crate::script::{validate_view, Script, ScriptView, ValidationError};

verus! {

/// Whether some entry carries `name`.
pub open spec fn reg_has(s: Seq<(Seq<char>, ScriptView)>, name: Seq<char>) -> bool {
    exists|i: int| 0 <= i < s.len() && s[i].0 == name
}

/// The record bound to `name`, first match wins.
pub open spec fn reg_lookup(s: Seq<(Seq<char>, ScriptView)>, name: Seq<char>) -> Option<ScriptView>
    decreases s.len(),
{
    if s.len() == 0 {
        None
    } else if s[0].0 == name {
        Some(s[0].1)
    } else {
        reg_lookup(s.drop_first(), name)
    }
}

/// No name occurs twice.
pub open spec fn reg_wf(s: Seq<(Seq<char>, ScriptView)>) -> bool {
    forall|i: int, j: int| 0 <= i < j < s.len() ==> s[i].0 != s[j].0
}

/// Binding `name` to `sv`: in place when the name is present, and at its
/// sorted position otherwise, so the registry iterates in name order.
pub open spec fn reg_upsert(
    s: Seq<(Seq<char>, ScriptView)>,
    name: Seq<char>,
    sv: ScriptView,
) -> Seq<(Seq<char>, ScriptView)>
    decreases s.len(),
{
    if s.len() == 0 {
        seq![(name, sv)]
    } else if s[0].0 == name {
        seq![(name, sv)] + s.drop_first()
    } else if crate::text::lex_lt(name, s[0].0) {
        seq![(name, sv)] + s
    } else {
        seq![s[0]] + reg_upsert(s.drop_first(), name, sv)
    }
}

/// The names ascend strictly, as a sorted map iterates them.
pub open spec fn reg_sorted(s: Seq<(Seq<char>, ScriptView)>) -> bool {
    forall|i: int, j: int| 0 <= i < j < s.len() ==> crate::text::lex_lt(s[i].0, s[j].0)
}

/// Sorted entries never repeat a name.
pub proof fn lemma_sorted_wf(s: Seq<(Seq<char>, ScriptView)>)
    requires
        reg_sorted(s),
    ensures
        reg_wf(s),
{
    assert forall|i: int, j: int| 0 <= i < j < s.len() implies s[i].0 != s[j].0 by {
        crate::text::lemma_lex_lt_asym(s[i].0, s[j].0);
    }
}

pub proof fn lemma_upsert_has(
    s: Seq<(Seq<char>, ScriptView)>,
    name: Seq<char>,
    sv: ScriptView,
    m: Seq<char>,
)
    ensures
        reg_has(reg_upsert(s, name, sv), m) <==> (reg_has(s, m) || m == name),
    decreases s.len(),
{
    let r = reg_upsert(s, name, sv);
    if s.len() == 0 {
        assert(r[0] == (name, sv));
        if reg_has(r, m) {
            assert(m == name);
        }
        if m == name {
            assert(r[0].0 == m);
        }
    } else if s[0].0 == name {
        if reg_has(r, m) {
            let w = choose|i: int| 0 <= i < r.len() && r[i].0 == m;
            if w > 0 {
                assert(r[w] == s[w]);
            }
        }
        if reg_has(s, m) || m == name {
            let w = choose|i: int| 0 <= i < s.len() && s[i].0 == m;
            if m == name {
                assert(r[0].0 == m);
            } else {
                assert(w > 0);
                assert(r[w] == s[w]);
            }
        }
    } else if crate::text::lex_lt(name, s[0].0) {
        if reg_has(r, m) {
            let w = choose|i: int| 0 <= i < r.len() && r[i].0 == m;
            if w > 0 {
                assert(r[w] == s[w - 1]);
            }
        }
        if m == name {
            assert(r[0].0 == m);
        }
        if reg_has(s, m) {
            let w = choose|i: int| 0 <= i < s.len() && s[i].0 == m;
            assert(r[w + 1] == s[w]);
        }
    } else {
        lemma_upsert_has(s.drop_first(), name, sv, m);
        let rt = reg_upsert(s.drop_first(), name, sv);
        assert(r == seq![s[0]] + rt);
        if reg_has(r, m) {
            let w = choose|i: int| 0 <= i < r.len() && r[i].0 == m;
            if w == 0 {
                assert(s[0].0 == m);
            } else {
                assert(rt[w - 1].0 == m);
                assert(reg_has(rt, m));
                if m != name {
                    let w2 = choose|j: int| 0 <= j < s.drop_first().len() && s.drop_first()[j].0
                        == m;
                    assert(s[w2 + 1].0 == m);
                }
            }
        }
        if reg_has(s, m) || m == name {
            if m == name {
                assert(reg_has(rt, m));
                let w = choose|j: int| 0 <= j < rt.len() && rt[j].0 == m;
                assert(r[w + 1].0 == m);
            } else {
                let w = choose|i: int| 0 <= i < s.len() && s[i].0 == m;
                if w == 0 {
                    assert(r[0].0 == m);
                } else {
                    assert(s.drop_first()[w - 1].0 == m);
                    assert(reg_has(s.drop_first(), m));
                    assert(reg_has(rt, m));
                    let w2 = choose|j: int| 0 <= j < rt.len() && rt[j].0 == m;
                    assert(r[w2 + 1].0 == m);
                }
            }
        }
    }
}

/// Binding a name keeps the entries sorted.
pub proof fn lemma_upsert_sorted(
    s: Seq<(Seq<char>, ScriptView)>,
    name: Seq<char>,
    sv: ScriptView,
)
    requires
        reg_sorted(s),
    ensures
        reg_sorted(reg_upsert(s, name, sv)),
    decreases s.len(),
{
    let r = reg_upsert(s, name, sv);
    if s.len() == 0 {
    } else if s[0].0 == name {
        assert forall|i: int, j: int|
            0 <= i < j < r.len() implies crate::text::lex_lt(r[i].0, r[j].0) by {
            assert(r[j] == s[j]);
            if i > 0 {
                assert(r[i] == s[i]);
            } else {
                assert(r[0].0 == s[0].0);
            }
        }
    } else if crate::text::lex_lt(name, s[0].0) {
        assert forall|i: int, j: int|
            0 <= i < j < r.len() implies crate::text::lex_lt(r[i].0, r[j].0) by {
            assert(r[j] == s[j - 1]);
            if i > 0 {
                assert(r[i] == s[i - 1]);
            } else {
                if j > 1 {
                    crate::text::lemma_lex_lt_trans(name, s[0].0, s[j - 1].0);
                }
            }
        }
    } else {
        assert(reg_sorted(s.drop_first())) by {
            assert forall|i: int, j: int|
                0 <= i < j < s.drop_first().len() implies crate::text::lex_lt(
                s.drop_first()[i].0,
                s.drop_first()[j].0,
            ) by {
                assert(s.drop_first()[i] == s[i + 1] && s.drop_first()[j] == s[j + 1]);
            }
        }
        lemma_upsert_sorted(s.drop_first(), name, sv);
        lemma_upsert_members(s.drop_first(), name, sv);
        crate::text::lemma_lex_lt_connected(name, s[0].0);
        let rt = reg_upsert(s.drop_first(), name, sv);
        assert forall|i: int, j: int|
            0 <= i < j < r.len() implies crate::text::lex_lt(r[i].0, r[j].0) by {
            assert(r[j] == rt[j - 1]);
            if i > 0 {
                assert(r[i] == rt[i - 1]);
            } else {
                assert(r[0] == s[0]);
                if rt[j - 1] == (name, sv) {
                    assert(crate::text::lex_lt(s[0].0, name));
                } else {
                    let w = choose|k: int|
                        0 <= k < s.drop_first().len() && s.drop_first()[k] == rt[j - 1];
                    assert(s[w + 1] == rt[j - 1]);
                }
            }
        }
    }
}

/// When the name already stands at `i`, binding replaces that record.
pub proof fn lemma_upsert_update(
    s: Seq<(Seq<char>, ScriptView)>,
    name: Seq<char>,
    sv: ScriptView,
    i: int,
)
    requires
        0 <= i < s.len(),
        s[i].0 == name,
        forall|j: int| 0 <= j < i ==> crate::text::lex_lt(s[j].0, name),
    ensures
        reg_upsert(s, name, sv) =~= s.update(i, (name, sv)),
    decreases i,
{
    if i == 0 {
        assert(reg_upsert(s, name, sv) == seq![(name, sv)] + s.drop_first());
    } else {
        assert(crate::text::lex_lt(s[0].0, name));
        crate::text::lemma_lex_lt_asym(s[0].0, name);
        assert(s.drop_first()[i - 1].0 == name);
        assert forall|j: int|
            0 <= j < i - 1 implies crate::text::lex_lt(s.drop_first()[j].0, name) by {
            assert(s.drop_first()[j] == s[j + 1]);
        }
        lemma_upsert_update(s.drop_first(), name, sv, i - 1);
    }
}

/// When every name before `i` is smaller and the one at `i` (if any) is
/// larger, binding puts the new record exactly at `i`.
pub proof fn lemma_upsert_insert_at(
    s: Seq<(Seq<char>, ScriptView)>,
    name: Seq<char>,
    sv: ScriptView,
    i: int,
)
    requires
        0 <= i <= s.len(),
        forall|j: int| 0 <= j < i ==> crate::text::lex_lt(s[j].0, name),
        i < s.len() ==> crate::text::lex_lt(name, s[i].0),
    ensures
        reg_upsert(s, name, sv) =~= s.insert(i, (name, sv)),
    decreases i,
{
    if s.len() == 0 {
        assert(reg_upsert(s, name, sv) =~= s.insert(0, (name, sv)));
    } else if i == 0 {
        crate::text::lemma_lex_lt_asym(name, s[0].0);
        assert(reg_upsert(s, name, sv) == seq![(name, sv)] + s);
        assert(seq![(name, sv)] + s =~= s.insert(0, (name, sv)));
    } else {
        assert(crate::text::lex_lt(s[0].0, name));
        crate::text::lemma_lex_lt_asym(s[0].0, name);
        assert forall|j: int|
            0 <= j < i - 1 implies crate::text::lex_lt(s.drop_first()[j].0, name) by {
            assert(s.drop_first()[j] == s[j + 1]);
        }
        if i - 1 < s.drop_first().len() {
            assert(s.drop_first()[i - 1] == s[i]);
        }
        lemma_upsert_insert_at(s.drop_first(), name, sv, i - 1);
        assert(reg_upsert(s, name, sv) == seq![s[0]] + reg_upsert(s.drop_first(), name, sv));
        assert(seq![s[0]] + s.drop_first().insert(i - 1, (name, sv)) =~= s.insert(
            i,
            (name, sv),
        ));
    }
}

/// The registry as a whole: folding every fragment in order, keeping only the
/// ones that validate, a later name overwriting an earlier one.
pub open spec fn registry_of(frags: Seq<FragmentView>) -> Seq<(Seq<char>, ScriptView)>
    decreases frags.len(),
{
    if frags.len() == 0 {
        Seq::empty()
    } else {
        let prev = registry_of(frags.drop_last());
        let f = frags.last();
        match validate_view(f.path, f.contents) {
            Ok(sv) => reg_upsert(prev, f.name, sv),
            Err(_) => prev,
        }
    }
}

/// The deduplicated name → Script mapping for the whole workspace.
pub struct Registry {
    entries: Vec<(String, Script)>,
}

impl View for Registry {
    type V = Seq<(Seq<char>, ScriptView)>;

    closed spec fn view(&self) -> Seq<(Seq<char>, ScriptView)> {
        self.entries.deep_view()
    }
}

impl Registry {
    /// The names ascend strictly: iteration is in name order, and no name
    /// occurs twice.
    pub open spec fn wf(&self) -> bool {
        reg_sorted(self@)
    }

    /// The empty registry.
    pub fn new() -> (r: Registry)
        ensures
            r@ =~= Seq::<(Seq<char>, ScriptView)>::empty(),
            r.wf(),
    {
        let r = Registry { entries: Vec::new() };
        proof {
            assert(r@.len() == 0);
        }
        r
    }

    /// How many scripts are registered.
    pub fn len(&self) -> (n: usize)
        ensures
            n == self@.len(),
    {
        self.entries.len()
    }

    /// The entries, in registry iteration order.
    pub fn entries(&self) -> (r: &Vec<(String, Script)>)
        ensures
            r.deep_view() == self@,
    {
        &self.entries
    }

    fn lower_bound(&self, name: &str) -> (i: usize)
        ensures
            0 <= i <= self@.len(),
            forall|j: int| 0 <= j < i ==> crate::text::lex_lt(self@[j].0, name@),
            i < self@.len() ==> !crate::text::lex_lt(self@[i as int].0, name@),
    {
        let n = self.entries.len();
        for i in 0..n
            invariant
                n == self@.len(),
                self@.len() == self.entries@.len(),
                forall|j: int| 0 <= j < i ==> crate::text::lex_lt(self@[j].0, name@),
        {
            proof {
                assert(self@[i as int] == self.entries@[i as int].deep_view());
            }
            if !crate::text::str_lt(self.entries[i].0.as_str(), name) {
                return i;
            }
        }
        n
    }

    /// Binds `name` to `script`: in place when the name is present, at its
    /// sorted position otherwise.
    pub fn insert(&mut self, name: String, script: Script)
        requires
            old(self).wf(),
        ensures
            final(self)@ =~= reg_upsert(old(self)@, name@, script@),
            final(self).wf(),
    {
        let ghost s0 = self@;
        let i = self.lower_bound(name.as_str());
        let n = self.entries.len();
        let mut replace = false;
        if i < n {
            proof {
                assert(s0[i as int] == self.entries@[i as int].deep_view());
            }
            replace = crate::text::str_eq(self.entries[i].0.as_str(), name.as_str());
        }
        if replace {
            self.entries.set(i, (name, script));
            proof {
                lemma_upsert_update(s0, name@, script@, i as int);
                assert forall|k: int|
                    0 <= k < self@.len() implies self@[k] == s0.update(
                    i as int,
                    (name@, script@),
                )[k] by {
                    assert(self@[k] == self.entries@[k].deep_view());
                }
                assert(self@ =~= s0.update(i as int, (name@, script@)));
            }
        } else {
            proof {
                if i < n {
                    crate::text::lemma_lex_lt_connected(name@, s0[i as int].0);
                }
            }
            self.entries.insert(i, (name, script));
            proof {
                lemma_upsert_insert_at(s0, name@, script@, i as int);
                assert forall|k: int|
                    0 <= k < self@.len() implies self@[k] == s0.insert(
                    i as int,
                    (name@, script@),
                )[k] by {
                    assert(self@[k] == self.entries@[k].deep_view());
                }
                assert(self@ =~= s0.insert(i as int, (name@, script@)));
            }
        }
        proof {
            lemma_upsert_sorted(s0, name@, script@);
        }
    }

    /// The record bound to `name`, if any.
    pub fn get(&self, name: &str) -> (r: Option<&Script>)
        ensures
            match r {
                Some(s) => reg_lookup(self@, name@) == Some(s@),
                None => reg_lookup(self@, name@) is None,
            },
    {
        proof {
            assert(self@.skip(0) =~= self@);
        }
        let n = self.entries.len();
        for i in 0..n
            invariant
                n == self@.len(),
                self@.len() == self.entries@.len(),
                reg_lookup(self@, name@) == reg_lookup(self@.skip(i as int), name@),
        {
            proof {
                assert(self@.skip(i as int)[0] == self@[i as int]);
                assert(self@.skip(i as int).drop_first() =~= self@.skip(i + 1));
                assert(self@[i as int] == self.entries@[i as int].deep_view());
            }
            if crate::text::str_eq(self.entries[i].0.as_str(), name) {
                return Some(&self.entries[i].1);
            }
        }
        proof {
            assert(self@.skip(n as int) =~= Seq::<(Seq<char>, ScriptView)>::empty());
        }
        None
    }

    /// The registered names, in registry iteration order.
    pub fn names(&self) -> (r: Vec<String>)
        ensures
            r.deep_view() =~= self@.map_values(|e: (Seq<char>, ScriptView)| e.0),
    {
        let mut out: Vec<String> = Vec::new();
        let n = self.entries.len();
        for i in 0..n
            invariant
                n == self@.len(),
                self@.len() == self.entries@.len(),
                out@.len() == i,
                out.deep_view() == Seq::new(i as nat, |j: int| self@[j].0),
        {
            let ghost prev = out@;
            let ghost prev_dv = out.deep_view();
            out.push(self.entries[i].0.clone());
            proof {
                assert(self@[i as int] == self.entries@[i as int].deep_view());
                assert forall|j: int| 0 <= j < i + 1 implies out.deep_view()[j] == self@[j].0 by {
                    assert(out.deep_view()[j] == out@[j]@);
                    if j < i {
                        assert(out@[j] == prev[j]);
                        assert(prev_dv[j] == prev[j]@);
                        assert(prev_dv[j] == self@[j].0);
                    }
                }
                assert(out.deep_view() =~= Seq::new((i + 1) as nat, |j: int| self@[j].0));
            }
        }
        out
    }
}

/// Folds every fragment into the registry: only entries that validate are
/// kept, and among entries of one name the last one in fragment order wins.
pub fn find_scripts(frags: &Vec<ScriptFragment>) -> (r: Registry)
    ensures
        r@ =~= registry_of(frags.deep_view()),
        r.wf(),
{
    let mut reg = Registry::new();
    let n = frags.len();
    proof {
        assert(frags.deep_view().subrange(0, 0) =~= Seq::<FragmentView>::empty());
    }
    for i in 0..n
        invariant
            n == frags@.len(),
            frags.deep_view().len() == n,
            reg@ =~= registry_of(frags.deep_view().subrange(0, i as int)),
            reg.wf(),
    {
        let frag = &frags[i];
        proof {
            assert(frags.deep_view()[i as int] == frags@[i as int].deep_view());
        }
        match Script::from(frag.path.clone(), &frag.contents) {
            Ok(script) => {
                reg.insert(frag.name.clone(), script);
            },
            Err(_) => {},
        }
        proof {
            let pre = frags.deep_view().subrange(0, i as int);
            let cur = frags.deep_view().subrange(0, i + 1);
            assert(cur.drop_last() =~= pre);
            assert(cur.last() == frags.deep_view()[i as int]);
        }
    }
    proof {
        assert(frags.deep_view().subrange(0, n as int) =~= frags.deep_view());
    }
    reg
}

/// The dropped entries, in fragment order: the path each came from and why
/// it was rejected.
pub open spec fn errors_of(frags: Seq<FragmentView>) -> Seq<
    (Seq<char>, crate::script::ValidationErrorKind),
>
    decreases frags.len(),
{
    if frags.len() == 0 {
        Seq::empty()
    } else {
        let prev = errors_of(frags.drop_last());
        let f = frags.last();
        match validate_view(f.path, f.contents) {
            Ok(_) => prev,
            Err(k) => prev.push((f.path, k)),
        }
    }
}

/// The validation errors of a scan, in fragment order, for the error stream.
pub fn validation_errors(frags: &Vec<ScriptFragment>) -> (r: Vec<ValidationError>)
    ensures
        r@.map_values(|e: ValidationError| (e.path@, e.kind)) =~= errors_of(frags.deep_view()),
{
    let mut out: Vec<ValidationError> = Vec::new();
    let n = frags.len();
    proof {
        assert(frags.deep_view().subrange(0, 0) =~= Seq::<FragmentView>::empty());
    }
    for i in 0..n
        invariant
            n == frags@.len(),
            frags.deep_view().len() == n,
            out@.map_values(|e: ValidationError| (e.path@, e.kind)) =~= errors_of(
                frags.deep_view().subrange(0, i as int),
            ),
    {
        let frag = &frags[i];
        proof {
            assert(frags.deep_view()[i as int] == frags@[i as int].deep_view());
        }
        match Script::from(frag.path.clone(), &frag.contents) {
            Ok(_) => {},
            Err(e) => {
                out.push(e);
            },
        }
        proof {
            let pre = frags.deep_view().subrange(0, i as int);
            let cur = frags.deep_view().subrange(0, i + 1);
            assert(cur.drop_last() =~= pre);
            assert(cur.last() == frags.deep_view()[i as int]);
            assert(out@.map_values(|e: ValidationError| (e.path@, e.kind)) =~= errors_of(cur));
        }
    }
    proof {
        assert(frags.deep_view().subrange(0, n as int) =~= frags.deep_view());
    }
    out
}

/// Every record of an upsert is the new binding or one of the old records.
pub proof fn lemma_upsert_members(s: Seq<(Seq<char>, ScriptView)>, name: Seq<char>, sv: ScriptView)
    ensures
        forall|k: int|
            0 <= k < reg_upsert(s, name, sv).len() ==> (#[trigger] reg_upsert(s, name, sv)[k]) == (
            name,
            sv,
            ) || exists|j: int| 0 <= j < s.len() && s[j] == reg_upsert(s, name, sv)[k],
    decreases s.len(),
{
    let r = reg_upsert(s, name, sv);
    if s.len() == 0 {
    } else if s[0].0 == name {
        assert forall|k: int| 0 <= k < r.len() implies r[k] == (name, sv) || exists|j: int|
            0 <= j < s.len() && s[j] == r[k] by {
            if k > 0 {
                assert(r[k] == s[k]);
            }
        }
    } else if crate::text::lex_lt(name, s[0].0) {
        assert forall|k: int| 0 <= k < r.len() implies r[k] == (name, sv) || exists|j: int|
            0 <= j < s.len() && s[j] == r[k] by {
            if k > 0 {
                assert(r[k] == s[k - 1]);
            }
        }
    } else {
        lemma_upsert_members(s.drop_first(), name, sv);
        let rt = reg_upsert(s.drop_first(), name, sv);
        assert forall|k: int| 0 <= k < r.len() implies r[k] == (name, sv) || exists|j: int|
            0 <= j < s.len() && s[j] == r[k] by {
            if k == 0 {
                assert(r[0] == s[0]);
            } else {
                assert(r[k] == rt[k - 1]);
                if rt[k - 1] != (name, sv) {
                    let w = choose|j: int|
                        0 <= j < s.drop_first().len() && s.drop_first()[j] == rt[k - 1];
                    assert(s[w + 1] == r[k]);
                }
            }
        }
    }
}

/// Every registry record comes from some fragment of the same name whose
/// entry validated into exactly that record.
pub proof fn lemma_registry_members(frags: Seq<FragmentView>)
    ensures
        forall|k: int|
            0 <= k < registry_of(frags).len() ==> exists|i: int|
                0 <= i < frags.len() && (#[trigger] registry_of(frags)[k]).0 == frags[i].name
                    && validate_view(frags[i].path, frags[i].contents) == Ok::<
                    ScriptView,
                    crate::script::ValidationErrorKind,
                >(registry_of(frags)[k].1),
    decreases frags.len(),
{
    if frags.len() == 0 {
    } else {
        lemma_registry_members(frags.drop_last());
        let prev = registry_of(frags.drop_last());
        let f = frags.last();
        let r = registry_of(frags);
        match validate_view(f.path, f.contents) {
            Ok(sv) => {
                lemma_upsert_members(prev, f.name, sv);
                assert forall|k: int| 0 <= k < r.len() implies exists|i: int|
                    0 <= i < frags.len() && (#[trigger] r[k]).0 == frags[i].name && validate_view(
                        frags[i].path,
                        frags[i].contents,
                    ) == Ok::<ScriptView, crate::script::ValidationErrorKind>(r[k].1) by {
                    if r[k] == (f.name, sv) {
                        assert(frags[frags.len() - 1] == f);
                    } else {
                        let w = choose|j: int| 0 <= j < prev.len() && prev[j] == r[k];
                        let i = choose|i: int|
                            0 <= i < frags.drop_last().len() && (#[trigger] prev[w]).0 == frags.drop_last()[i].name
                                && validate_view(
                                frags.drop_last()[i].path,
                                frags.drop_last()[i].contents,
                            ) == Ok::<ScriptView, crate::script::ValidationErrorKind>(prev[w].1);
                        assert(frags.drop_last()[i] == frags[i]);
                    }
                }
            },
            Err(_) => {
                assert forall|k: int| 0 <= k < r.len() implies exists|i: int|
                    0 <= i < frags.len() && (#[trigger] r[k]).0 == frags[i].name && validate_view(
                        frags[i].path,
                        frags[i].contents,
                    ) == Ok::<ScriptView, crate::script::ValidationErrorKind>(r[k].1) by {
                    let i = choose|i: int|
                        0 <= i < frags.drop_last().len() && (#[trigger] prev[k]).0 == frags.drop_last()[i].name
                            && validate_view(
                            frags.drop_last()[i].path,
                            frags.drop_last()[i].contents,
                        ) == Ok::<ScriptView, crate::script::ValidationErrorKind>(prev[k].1);
                    assert(frags.drop_last()[i] == frags[i]);
                }
            },
        }
    }
}

/// Idempotence of forced rebuilds: with the workspace unchanged — the same
/// fragments in the same order — two full rebuilds yield identical
/// registries.
pub proof fn lemma_rebuild_idempotent(
    frags: Seq<FragmentView>,
    r1: Seq<(Seq<char>, ScriptView)>,
    r2: Seq<(Seq<char>, ScriptView)>,
)
    requires
        r1 == registry_of(frags),
        r2 == registry_of(frags),
    ensures
        r1 == r2,
{
}

/// Idempotence, end to end: loading the same files twice and folding each
/// load into a registry yields identical registries — the loader's result is
/// a function of the file texts, and the fold is a function of the load.
pub proof fn lemma_workspace_rebuild_idempotent(
    files: Seq<(String, String)>,
    r1: Seq<(Seq<char>, ScriptView)>,
    r2: Seq<(Seq<char>, ScriptView)>,
)
    requires
        r1 == registry_of(crate::load::loaded_fragments(files)),
        r2 == registry_of(crate::load::loaded_fragments(files)),
    ensures
        r1 == r2,
{
}

/// Ignore exclusivity, registry side: when no fragment carries a path — as
/// the loader guarantees of every ignored file — no registry record carries
/// that path either.
pub proof fn lemma_ignore_exclusivity(frags: Seq<FragmentView>, p: Seq<char>)
    requires
        forall|i: int| 0 <= i < frags.len() ==> (#[trigger] frags[i].path) != p,
    ensures
        forall|k: int|
            0 <= k < registry_of(frags).len() ==> (#[trigger] registry_of(frags)[k]).1.path != p,
{
    lemma_registry_members(frags);
    let r = registry_of(frags);
    assert forall|k: int| 0 <= k < r.len() implies (#[trigger] r[k]).1.path != p by {
        let i = choose|i: int|
            0 <= i < frags.len() && (#[trigger] r[k]).0 == frags[i].name && validate_view(
                frags[i].path,
                frags[i].contents,
            ) == Ok::<ScriptView, crate::script::ValidationErrorKind>(r[k].1);
        assert(r[k].1.path == frags[i].path);
    }
}

/// Ignore exclusivity, end to end: when one given file is ignored and no
/// other file shares its path, no record of the registry built from the
/// loaded fragments carries that file's path.
pub proof fn lemma_workspace_ignore_exclusivity(
    frags: Seq<FragmentView>,
    files: Seq<(String, String)>,
    j: int,
)
    requires
        crate::load::fragments_sourced(frags, files),
        0 <= j < files.len(),
        crate::text::is_ignored_text(files[j].1@),
        forall|k: int| 0 <= k < files.len() && k != j ==> files[k].0@ != files[j].0@,
    ensures
        forall|k: int|
            0 <= k < registry_of(frags).len() ==> (#[trigger] registry_of(frags)[k]).1.path
                != files[j].0@,
{
    assert forall|i: int| 0 <= i < frags.len() implies (#[trigger] frags[i].path)
        != files[j].0@ by {
        let w = choose|w: int|
            0 <= w < files.len() && frags[i].path == files[w].0@ && !crate::text::is_ignored_text(
                files[w].1@,
            );
        assert(w != j);
    }
    lemma_ignore_exclusivity(frags, files[j].0@);
}

/// Validation isolation: a name is registered exactly when some fragment of
/// that name validates; a dropped entry neither appears nor blocks others.
pub proof fn lemma_registry_has_name(frags: Seq<FragmentView>, nm: Seq<char>)
    ensures
        reg_has(registry_of(frags), nm) <==> exists|i: int|
            0 <= i < frags.len() && (#[trigger] frags[i].name) == nm && validate_view(
                frags[i].path,
                frags[i].contents,
            ) is Ok,
    decreases frags.len(),
{
    let r = registry_of(frags);
    if frags.len() == 0 {
    } else {
        lemma_registry_has_name(frags.drop_last(), nm);
        let prev = registry_of(frags.drop_last());
        let f = frags.last();
        assert(frags.drop_last().len() == frags.len() - 1);
        assert(forall|i: int| 0 <= i < frags.len() - 1 ==> frags.drop_last()[i] == frags[i]);
        match validate_view(f.path, f.contents) {
            Ok(sv) => {
                lemma_upsert_has(prev, f.name, sv, nm);
                if reg_has(r, nm) {
                    if nm == f.name {
                        assert(frags[frags.len() - 1] == f);
                    } else {
                        let i = choose|i: int|
                            0 <= i < frags.drop_last().len() && (#[trigger] frags.drop_last()[i].name)
                                == nm && validate_view(
                                frags.drop_last()[i].path,
                                frags.drop_last()[i].contents,
                            ) is Ok;
                        assert(frags[i].name == nm && validate_view(
                            frags[i].path,
                            frags[i].contents,
                        ) is Ok);
                    }
                }
                if exists|i: int|
                    0 <= i < frags.len() && (#[trigger] frags[i].name) == nm && validate_view(
                        frags[i].path,
                        frags[i].contents,
                    ) is Ok {
                    let i = choose|i: int|
                        0 <= i < frags.len() && (#[trigger] frags[i].name) == nm && validate_view(
                            frags[i].path,
                            frags[i].contents,
                        ) is Ok;
                    if i < frags.len() - 1 {
                        assert(frags.drop_last()[i] == frags[i]);
                    }
                }
            },
            Err(_) => {
                if reg_has(r, nm) {
                    let i = choose|i: int|
                        0 <= i < frags.drop_last().len() && (#[trigger] frags.drop_last()[i].name)
                            == nm && validate_view(
                            frags.drop_last()[i].path,
                            frags.drop_last()[i].contents,
                        ) is Ok;
                    assert(frags[i].name == nm && validate_view(frags[i].path, frags[i].contents)
                        is Ok);
                }
                if exists|i: int|
                    0 <= i < frags.len() && (#[trigger] frags[i].name) == nm && validate_view(
                        frags[i].path,
                        frags[i].contents,
                    ) is Ok {
                    let i = choose|i: int|
                        0 <= i < frags.len() && (#[trigger] frags[i].name) == nm && validate_view(
                            frags[i].path,
                            frags[i].contents,
                        ) is Ok;
                    assert(i < frags.len() - 1);
                    assert(frags.drop_last()[i] == frags[i]);
                }
            },
        }
    }
}

/// Placing one type into a sorted list of types: kept once, at its sorted
/// position.
pub open spec fn type_insert(tys: Seq<Seq<char>>, ty: Seq<char>) -> Seq<Seq<char>>
    decreases tys.len(),
{
    if tys.len() == 0 {
        seq![ty]
    } else if tys[0] == ty {
        tys
    } else if crate::text::lex_lt(ty, tys[0]) {
        seq![ty] + tys
    } else {
        seq![tys[0]] + type_insert(tys.drop_first(), ty)
    }
}

/// The types ascend strictly.
pub open spec fn tys_sorted(tys: Seq<Seq<char>>) -> bool {
    forall|i: int, j: int| 0 <= i < j < tys.len() ==> crate::text::lex_lt(tys[i], tys[j])
}

/// Every element after a placement is the new type or one of the old ones.
pub proof fn lemma_type_insert_members(tys: Seq<Seq<char>>, ty: Seq<char>)
    ensures
        forall|k: int|
            0 <= k < type_insert(tys, ty).len() ==> (#[trigger] type_insert(tys, ty)[k]) == ty
                || exists|j: int| 0 <= j < tys.len() && tys[j] == type_insert(tys, ty)[k],
    decreases tys.len(),
{
    let r = type_insert(tys, ty);
    if tys.len() == 0 {
    } else if tys[0] == ty {
    } else if crate::text::lex_lt(ty, tys[0]) {
        assert forall|k: int| 0 <= k < r.len() implies (#[trigger] r[k]) == ty || exists|j: int|
            0 <= j < tys.len() && tys[j] == r[k] by {
            if k > 0 {
                assert(r[k] == tys[k - 1]);
            }
        }
    } else {
        lemma_type_insert_members(tys.drop_first(), ty);
        let rt = type_insert(tys.drop_first(), ty);
        assert forall|k: int| 0 <= k < r.len() implies (#[trigger] r[k]) == ty || exists|j: int|
            0 <= j < tys.len() && tys[j] == r[k] by {
            if k == 0 {
                assert(r[0] == tys[0]);
            } else {
                assert(r[k] == rt[k - 1]);
                if rt[k - 1] != ty {
                    let w = choose|j: int|
                        0 <= j < tys.drop_first().len() && tys.drop_first()[j] == rt[k - 1];
                    assert(tys[w + 1] == r[k]);
                }
            }
        }
    }
}

/// A type is in the placed list exactly when it was there or is the new one.
pub proof fn lemma_type_insert_member(tys: Seq<Seq<char>>, ty: Seq<char>, x: Seq<char>)
    ensures
        type_insert(tys, ty).contains(x) <==> (tys.contains(x) || x == ty),
    decreases tys.len(),
{
    let r = type_insert(tys, ty);
    if tys.len() == 0 {
        if r.contains(x) {
            let w = choose|w: int| 0 <= w < r.len() && r[w] == x;
            assert(x == ty);
        }
        if x == ty {
            assert(r[0] == x);
        }
    } else if tys[0] == ty {
        if x == ty {
            assert(r[0] == x);
        }
    } else if crate::text::lex_lt(ty, tys[0]) {
        if r.contains(x) {
            let w = choose|w: int| 0 <= w < r.len() && r[w] == x;
            if w > 0 {
                assert(tys[w - 1] == x);
            }
        }
        if x == ty {
            assert(r[0] == x);
        }
        if tys.contains(x) {
            let w = choose|w: int| 0 <= w < tys.len() && tys[w] == x;
            assert(r[w + 1] == x);
        }
    } else {
        lemma_type_insert_member(tys.drop_first(), ty, x);
        let rt = type_insert(tys.drop_first(), ty);
        if r.contains(x) {
            let w = choose|w: int| 0 <= w < r.len() && r[w] == x;
            if w == 0 {
                assert(tys[0] == x);
            } else {
                assert(rt[w - 1] == x);
                assert(rt.contains(x));
                if x != ty {
                    let w2 = choose|j: int|
                        0 <= j < tys.drop_first().len() && tys.drop_first()[j] == x;
                    assert(tys[w2 + 1] == x);
                }
            }
        }
        if tys.contains(x) || x == ty {
            if x == ty || tys.drop_first().contains(x) {
                if x == ty {
                    assert(rt.contains(x));
                } else {
                    assert(rt.contains(x));
                }
                let w = choose|j: int| 0 <= j < rt.len() && rt[j] == x;
                assert(r[w + 1] == x);
            }
            if tys.contains(x) && x != ty {
                let w = choose|w: int| 0 <= w < tys.len() && tys[w] == x;
                if w == 0 {
                    assert(r[0] == x);
                } else {
                    assert(tys.drop_first()[w - 1] == x);
                    assert(tys.drop_first().contains(x));
                    assert(rt.contains(x));
                    let w2 = choose|j: int| 0 <= j < rt.len() && rt[j] == x;
                    assert(r[w2 + 1] == x);
                }
            }
        }
    }
}

/// Placement keeps the type list sorted.
pub proof fn lemma_type_insert_sorted(tys: Seq<Seq<char>>, ty: Seq<char>)
    requires
        tys_sorted(tys),
    ensures
        tys_sorted(type_insert(tys, ty)),
    decreases tys.len(),
{
    let r = type_insert(tys, ty);
    if tys.len() == 0 {
    } else if tys[0] == ty {
    } else if crate::text::lex_lt(ty, tys[0]) {
        assert forall|i: int, j: int|
            0 <= i < j < r.len() implies crate::text::lex_lt(r[i], r[j]) by {
            assert(r[j] == tys[j - 1]);
            if i > 0 {
                assert(r[i] == tys[i - 1]);
            } else {
                if j > 1 {
                    crate::text::lemma_lex_lt_trans(ty, tys[0], tys[j - 1]);
                }
            }
        }
    } else {
        assert(tys_sorted(tys.drop_first())) by {
            assert forall|i: int, j: int|
                0 <= i < j < tys.drop_first().len() implies crate::text::lex_lt(
                tys.drop_first()[i],
                tys.drop_first()[j],
            ) by {
                assert(tys.drop_first()[i] == tys[i + 1] && tys.drop_first()[j] == tys[j + 1]);
            }
        }
        lemma_type_insert_sorted(tys.drop_first(), ty);
        lemma_type_insert_members(tys.drop_first(), ty);
        crate::text::lemma_lex_lt_connected(ty, tys[0]);
        let rt = type_insert(tys.drop_first(), ty);
        assert forall|i: int, j: int|
            0 <= i < j < r.len() implies crate::text::lex_lt(r[i], r[j]) by {
            assert(r[j] == rt[j - 1]);
            if i > 0 {
                assert(r[i] == rt[i - 1]);
            } else {
                assert(r[0] == tys[0]);
                if rt[j - 1] == ty {
                    assert(crate::text::lex_lt(tys[0], ty));
                } else {
                    let w = choose|k: int|
                        0 <= k < tys.drop_first().len() && tys.drop_first()[k] == rt[j - 1];
                    assert(tys[w + 1] == rt[j - 1]);
                }
            }
        }
    }
}

/// When the type already stands at `p`, placement changes nothing.
pub proof fn lemma_type_insert_present(tys: Seq<Seq<char>>, ty: Seq<char>, p: int)
    requires
        0 <= p < tys.len(),
        tys[p] == ty,
        forall|j: int| 0 <= j < p ==> crate::text::lex_lt(tys[j], ty),
    ensures
        type_insert(tys, ty) == tys,
    decreases p,
{
    if p == 0 {
    } else {
        assert(crate::text::lex_lt(tys[0], ty));
        crate::text::lemma_lex_lt_asym(tys[0], ty);
        assert(tys.drop_first()[p - 1] == tys[p]);
        assert forall|j: int|
            0 <= j < p - 1 implies crate::text::lex_lt(tys.drop_first()[j], ty) by {
            assert(tys.drop_first()[j] == tys[j + 1]);
        }
        lemma_type_insert_present(tys.drop_first(), ty, p - 1);
        assert(type_insert(tys, ty) == seq![tys[0]] + tys.drop_first());
        assert(seq![tys[0]] + tys.drop_first() =~= tys);
    }
}

/// When every type before `p` is smaller and the one at `p` (if any) is
/// larger, placement puts the new type exactly at `p`.
pub proof fn lemma_type_insert_at(tys: Seq<Seq<char>>, ty: Seq<char>, p: int)
    requires
        0 <= p <= tys.len(),
        forall|j: int| 0 <= j < p ==> crate::text::lex_lt(tys[j], ty),
        p < tys.len() ==> crate::text::lex_lt(ty, tys[p]),
    ensures
        type_insert(tys, ty) =~= tys.insert(p, ty),
    decreases p,
{
    if tys.len() == 0 {
        assert(type_insert(tys, ty) =~= tys.insert(0, ty));
    } else if p == 0 {
        crate::text::lemma_lex_lt_asym(ty, tys[0]);
        assert(type_insert(tys, ty) == seq![ty] + tys);
        assert(seq![ty] + tys =~= tys.insert(0, ty));
    } else {
        assert(crate::text::lex_lt(tys[0], ty));
        crate::text::lemma_lex_lt_asym(tys[0], ty);
        assert forall|j: int|
            0 <= j < p - 1 implies crate::text::lex_lt(tys.drop_first()[j], ty) by {
            assert(tys.drop_first()[j] == tys[j + 1]);
        }
        if p - 1 < tys.drop_first().len() {
            assert(tys.drop_first()[p - 1] == tys[p]);
        }
        lemma_type_insert_at(tys.drop_first(), ty, p - 1);
        assert(type_insert(tys, ty) == seq![tys[0]] + type_insert(tys.drop_first(), ty));
        assert(seq![tys[0]] + tys.drop_first().insert(p - 1, ty) =~= tys.insert(p, ty));
    }
}

/// The distinct script types of the registry, in ascending name order, as a
/// sorted map over types iterates them.
pub open spec fn distinct_types(entries: Seq<(Seq<char>, ScriptView)>) -> Seq<Seq<char>>
    decreases entries.len(),
{
    if entries.len() == 0 {
        Seq::empty()
    } else {
        type_insert(distinct_types(entries.drop_last()), entries.last().1.script_type)
    }
}

/// The distinct types are sorted.
pub proof fn lemma_distinct_types_sorted(entries: Seq<(Seq<char>, ScriptView)>)
    ensures
        tys_sorted(distinct_types(entries)),
    decreases entries.len(),
{
    if entries.len() > 0 {
        lemma_distinct_types_sorted(entries.drop_last());
        lemma_type_insert_sorted(
            distinct_types(entries.drop_last()),
            entries.last().1.script_type,
        );
    }
}

/// The names of all scripts of one type, in registry iteration order.
pub open spec fn names_of_type(
    entries: Seq<(Seq<char>, ScriptView)>,
    ty: Seq<char>,
) -> Seq<Seq<char>>
    decreases entries.len(),
{
    if entries.len() == 0 {
        Seq::empty()
    } else {
        let prev = names_of_type(entries.drop_last(), ty);
        if entries.last().1.script_type == ty {
            prev.push(entries.last().0)
        } else {
            prev
        }
    }
}

/// The grouped view: one group per distinct type, each carrying the names of
/// that type in registry iteration order.
pub open spec fn groups_of(entries: Seq<(Seq<char>, ScriptView)>) -> Seq<
    (Seq<char>, Seq<Seq<char>>),
> {
    Seq::new(
        distinct_types(entries).len(),
        |g: int| (distinct_types(entries)[g], names_of_type(entries, distinct_types(entries)[g])),
    )
}

/// A type stands among the distinct types exactly when some entry has it.
pub proof fn lemma_distinct_types_member(entries: Seq<(Seq<char>, ScriptView)>, ty: Seq<char>)
    ensures
        distinct_types(entries).contains(ty) <==> exists|i: int|
            0 <= i < entries.len() && (#[trigger] entries[i]).1.script_type == ty,
    decreases entries.len(),
{
    if entries.len() == 0 {
    } else {
        lemma_distinct_types_member(entries.drop_last(), ty);
        assert(forall|i: int|
            0 <= i < entries.len() - 1 ==> entries.drop_last()[i] == entries[i]);
        let prev = distinct_types(entries.drop_last());
        let last = entries.last();
        assert(entries[entries.len() - 1] == last);
        lemma_type_insert_member(prev, last.1.script_type, ty);
        if distinct_types(entries).contains(ty) {
            if ty == last.1.script_type {
                assert(entries[entries.len() - 1].1.script_type == ty);
            } else {
                let i = choose|i: int|
                    0 <= i < entries.drop_last().len() && (#[trigger] entries.drop_last()[i]).1.script_type
                        == ty;
                assert(entries[i].1.script_type == ty);
            }
        }
        if exists|i: int| 0 <= i < entries.len() && (#[trigger] entries[i]).1.script_type == ty {
            let i = choose|i: int|
                0 <= i < entries.len() && (#[trigger] entries[i]).1.script_type == ty;
            if i < entries.len() - 1 {
                assert(entries.drop_last()[i] == entries[i]);
            }
        }
    }
}

/// No type occurs twice among the distinct types.
pub proof fn lemma_distinct_types_distinct(entries: Seq<(Seq<char>, ScriptView)>)
    ensures
        forall|g1: int, g2: int|
            0 <= g1 < g2 < distinct_types(entries).len() ==> distinct_types(entries)[g1]
                != distinct_types(entries)[g2],
{
    lemma_distinct_types_sorted(entries);
    let dts = distinct_types(entries);
    assert forall|g1: int, g2: int| 0 <= g1 < g2 < dts.len() implies dts[g1] != dts[g2] by {
        crate::text::lemma_lex_lt_asym(dts[g1], dts[g2]);
    }
}

/// A name stands in a type's group exactly when its entry has that type.
pub proof fn lemma_names_of_type_member(
    entries: Seq<(Seq<char>, ScriptView)>,
    ty: Seq<char>,
    nm: Seq<char>,
)
    ensures
        names_of_type(entries, ty).contains(nm) <==> exists|i: int|
            0 <= i < entries.len() && (#[trigger] entries[i]).0 == nm && entries[i].1.script_type
                == ty,
    decreases entries.len(),
{
    if entries.len() == 0 {
    } else {
        lemma_names_of_type_member(entries.drop_last(), ty, nm);
        assert(forall|i: int|
            0 <= i < entries.len() - 1 ==> entries.drop_last()[i] == entries[i]);
        let prev = names_of_type(entries.drop_last(), ty);
        let last = entries.last();
        assert(entries[entries.len() - 1] == last);
        let cur = names_of_type(entries, ty);
        if cur.contains(nm) {
            let w = choose|w: int| 0 <= w < cur.len() && cur[w] == nm;
            if last.1.script_type == ty && w == cur.len() - 1 {
                assert(last.0 == nm);
            } else {
                assert(prev[w] == nm);
                assert(prev.contains(nm));
                let i = choose|i: int|
                    0 <= i < entries.drop_last().len() && (#[trigger] entries.drop_last()[i]).0
                        == nm && entries.drop_last()[i].1.script_type == ty;
                assert(entries[i].0 == nm && entries[i].1.script_type == ty);
            }
        }
        if exists|i: int|
            0 <= i < entries.len() && (#[trigger] entries[i]).0 == nm && entries[i].1.script_type
                == ty {
            let i = choose|i: int|
                0 <= i < entries.len() && (#[trigger] entries[i]).0 == nm
                    && entries[i].1.script_type == ty;
            if i < entries.len() - 1 {
                assert(entries.drop_last()[i] == entries[i]);
                assert(prev.contains(nm));
                let w = choose|w: int| 0 <= w < prev.len() && prev[w] == nm;
                if last.1.script_type == ty {
                    assert(cur[w] == nm);
                } else {
                    assert(cur[w] == nm);
                }
            } else {
                assert(last.0 == nm && last.1.script_type == ty);
                assert(cur[cur.len() - 1] == nm);
            }
        }
    }
}

/// Grouping coverage: grouping never loses a script — every registry record
/// stands in the group of its own type — and, names being unique, it stands
/// in exactly one group.
pub proof fn lemma_grouping_coverage(entries: Seq<(Seq<char>, ScriptView)>)
    requires
        reg_sorted(entries),
    ensures
        forall|i: int|
            0 <= i < entries.len() ==> exists|g: int|
                0 <= g < groups_of(entries).len() && (#[trigger] groups_of(entries)[g]).0 == (
                #[trigger] entries[i]).1.script_type && groups_of(entries)[g].1.contains(
                    entries[i].0,
                ),
        forall|g1: int, g2: int, nm: Seq<char>|
            0 <= g1 < groups_of(entries).len() && 0 <= g2 < groups_of(entries).len()
                && #[trigger] groups_of(entries)[g1].1.contains(nm) && #[trigger] groups_of(
                entries,
            )[g2].1.contains(nm) ==> g1 == g2,
{
    let gs = groups_of(entries);
    lemma_sorted_wf(entries);
    lemma_distinct_types_distinct(entries);
    assert forall|i: int| 0 <= i < entries.len() implies exists|g: int|
        0 <= g < gs.len() && (#[trigger] gs[g]).0 == (#[trigger] entries[i]).1.script_type
            && gs[g].1.contains(entries[i].0) by {
        let ty = entries[i].1.script_type;
        lemma_distinct_types_member(entries, ty);
        assert(distinct_types(entries).contains(ty));
        let g = choose|g: int|
            0 <= g < distinct_types(entries).len() && distinct_types(entries)[g] == ty;
        lemma_names_of_type_member(entries, ty, entries[i].0);
        assert(gs[g].0 == ty && gs[g].1.contains(entries[i].0));
    }
    assert forall|g1: int, g2: int, nm: Seq<char>|
        0 <= g1 < gs.len() && 0 <= g2 < gs.len() && #[trigger] gs[g1].1.contains(nm)
            && #[trigger] gs[g2].1.contains(nm) implies g1 == g2 by {
        let ty1 = distinct_types(entries)[g1];
        let ty2 = distinct_types(entries)[g2];
        lemma_names_of_type_member(entries, ty1, nm);
        lemma_names_of_type_member(entries, ty2, nm);
        let i1 = choose|i: int|
            0 <= i < entries.len() && (#[trigger] entries[i]).0 == nm && entries[i].1.script_type
                == ty1;
        let i2 = choose|i: int|
            0 <= i < entries.len() && (#[trigger] entries[i]).0 == nm && entries[i].1.script_type
                == ty2;
        if i1 != i2 {
            assert(entries[i1].0 == entries[i2].0);
        }
        assert(ty1 == ty2);
        if g1 != g2 {
            assert(distinct_types(entries)[g1] != distinct_types(entries)[g2]);
        }
    }
}

/// Groups the whole registry by script type.
pub fn get_script_types(reg: &Registry) -> (r: Vec<(String, Vec<String>)>)
    ensures
        r.deep_view() =~= groups_of(reg@),
{
    let entries = reg.entries();
    let ghost ev = reg@;
    let n = entries.len();
    let mut tys: Vec<String> = Vec::new();
    proof {
        assert(ev.subrange(0, 0) =~= Seq::<(Seq<char>, ScriptView)>::empty());
    }
    for i in 0..n
        invariant
            n == ev.len(),
            entries.deep_view() == ev,
            n == entries@.len(),
            tys.deep_view() =~= distinct_types(ev.subrange(0, i as int)),
    {
        proof {
            assert(ev[i as int] == entries@[i as int].deep_view());
        }
        let ty = &entries[i].1.script_type;
        let nt = tys.len();
        let mut p: usize = 0;
        while p < nt && crate::text::str_lt(tys[p].as_str(), ty.as_str())
            invariant
                0 <= p <= nt,
                nt == tys@.len(),
                tys.deep_view().len() == nt,
                *ty == entries@[i as int].1.script_type,
                forall|j: int|
                    0 <= j < p ==> crate::text::lex_lt(tys.deep_view()[j], ty@),
            decreases nt - p,
        {
            proof {
                assert(tys.deep_view()[p as int] == tys@[p as int]@);
            }
            p = p + 1;
        }
        let ghost prev_dv = tys.deep_view();
        let ghost prev_seq = tys@;
        let mut present = false;
        if p < nt {
            proof {
                assert(tys.deep_view()[p as int] == tys@[p as int]@);
            }
            present = crate::text::str_eq(tys[p].as_str(), ty.as_str());
        }
        if !present {
            tys.insert(p, ty.clone());
        }
        proof {
            let pre = ev.subrange(0, i as int);
            let cur = ev.subrange(0, i + 1);
            assert(cur.drop_last() =~= pre);
            assert(cur.last() == ev[i as int]);
            if present {
                lemma_type_insert_present(prev_dv, ty@, p as int);
            } else {
                if p < nt {
                    crate::text::lemma_lex_lt_connected(ty@, prev_dv[p as int]);
                }
                lemma_type_insert_at(prev_dv, ty@, p as int);
                assert(tys.deep_view().len() == prev_dv.len() + 1);
                assert forall|k: int|
                    0 <= k < tys.deep_view().len() implies tys.deep_view()[k] == prev_dv.insert(
                    p as int,
                    ty@,
                )[k] by {
                    prev_dv.insert_ensures(p as int, ty@);
                    assert(tys.deep_view()[k] == tys@[k]@);
                    if k < p {
                        assert(tys@[k] == prev_seq[k]);
                        assert(prev_dv[k] == prev_seq[k]@);
                    } else if k > p {
                        assert(tys@[k] == prev_seq[k - 1]);
                        assert(prev_dv[k - 1] == prev_seq[k - 1]@);
                    }
                }
                assert(tys.deep_view() =~= prev_dv.insert(p as int, ty@));
            }
            assert(tys.deep_view() =~= distinct_types(cur));
        }
    }
    proof {
        assert(ev.subrange(0, n as int) =~= ev);
    }
    let ng = tys.len();
    let mut out: Vec<(String, Vec<String>)> = Vec::new();
    for g in 0..ng
        invariant
            ng == tys@.len(),
            tys.deep_view() =~= distinct_types(ev),
            entries.deep_view() == ev,
            n == entries@.len(),
            n == ev.len(),
            out@.len() == g,
            out.deep_view() == Seq::new(
                g as nat,
                |k: int| (distinct_types(ev)[k], names_of_type(ev, distinct_types(ev)[k])),
            ),
    {
        let ty = &tys[g];
        proof {
            assert(tys.deep_view()[g as int] == tys@[g as int]@);
        }
        let mut names: Vec<String> = Vec::new();
        proof {
            assert(ev.subrange(0, 0) =~= Seq::<(Seq<char>, ScriptView)>::empty());
        }
        for i in 0..n
            invariant
                n == ev.len(),
                entries.deep_view() == ev,
                n == entries@.len(),
                *ty == tys@[g as int],
                names.deep_view() =~= names_of_type(ev.subrange(0, i as int), ty@),
        {
            proof {
                assert(ev[i as int] == entries@[i as int].deep_view());
            }
            let ghost prev_names = names.deep_view();
            if crate::text::str_eq(entries[i].1.script_type.as_str(), ty.as_str()) {
                names.push(entries[i].0.clone());
                proof {
                    assert(names.deep_view() =~= prev_names.push(ev[i as int].0));
                }
            }
            proof {
                let pre = ev.subrange(0, i as int);
                let cur = ev.subrange(0, i + 1);
                assert(cur.drop_last() =~= pre);
                assert(cur.last() == ev[i as int]);
                assert(names.deep_view() =~= names_of_type(cur, ty@));
            }
        }
        proof {
            assert(ev.subrange(0, n as int) =~= ev);
        }
        let ghost prev_out = out.deep_view();
        out.push((ty.clone(), names));
        proof {
            assert forall|k: int| 0 <= k < g + 1 implies out.deep_view()[k] == (
                distinct_types(ev)[k],
                names_of_type(ev, distinct_types(ev)[k]),
            ) by {
                assert(out.deep_view()[k] == out@[k].deep_view());
                if k < g {
                    assert(prev_out[k] == (
                        distinct_types(ev)[k],
                        names_of_type(ev, distinct_types(ev)[k]),
                    ));
                }
            }
            assert(out.deep_view() =~= Seq::new(
                (g + 1) as nat,
                |k: int| (distinct_types(ev)[k], names_of_type(ev, distinct_types(ev)[k])),
            ));
        }
    }
    out
}

} // verus!
