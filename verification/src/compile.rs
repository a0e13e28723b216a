//! The compiler: deduplicates the raw fragments by declared name, first
//! write wins, post-processes each retained fragment's serialized form, and
//! assembles the single bundled artifact behind an ignore directive.

use vstd::prelude::*;
use vstd::string::StrSliceExecFns;
use vstd::string::StringExecFns;

use crate::load::{FragmentView, ScriptFragment};
use crate::text::{join_seq, push_char};

verus! {

/// The document separator a serializer puts before a YAML document.
pub open spec fn doc_marker() -> Seq<char> {
    seq!['-', '-', '-', '\n']
}

/// Whether `s` starts with the document separator.
pub open spec fn has_doc_marker(s: Seq<char>) -> bool {
    s.len() >= 4 && s[0] == '-' && s[1] == '-' && s[2] == '-' && s[3] == '\n'
}

/// `s` with every leading document separator removed.
pub open spec fn strip_doc_marker(s: Seq<char>) -> Seq<char>
    decreases s.len(),
{
    if has_doc_marker(s) {
        strip_doc_marker(s.skip(4))
    } else {
        s
    }
}

/// The restorative character swap: every double quote is deleted, then every
/// backslash becomes a double quote.
pub open spec fn swap_quotes(s: Seq<char>) -> Seq<char>
    decreases s.len(),
{
    if s.len() == 0 {
        Seq::empty()
    } else {
        swap_quotes(s.drop_last()) + if s.last() == '"' {
            Seq::empty()
        } else if s.last() == '\\' {
            seq!['"']
        } else {
            seq![s.last()]
        }
    }
}

/// What one retained fragment contributes to the artifact.
pub open spec fn postprocess_view(s: Seq<char>) -> Seq<char> {
    swap_quotes(strip_doc_marker(s))
}

fn strip_marker(s: &str) -> (r: String)
    ensures
        r@ == strip_doc_marker(s@),
    decreases s@.len(),
{
    let n = s.unicode_len();
    if n >= 4 && s.get_char(0) == '-' && s.get_char(1) == '-' && s.get_char(2) == '-'
        && s.get_char(3) == '\n' {
        let rest = s.substring_char(4, n);
        proof {
            assert(rest@ =~= s@.skip(4));
        }
        strip_marker(rest)
    } else {
        s.to_owned()
    }
}

/// Post-processes one serialized fragment: strips the leading document
/// separator, then swaps quote characters.
pub fn postprocess(s: &str) -> (r: String)
    ensures
        r@ == postprocess_view(s@),
{
    let stripped = strip_marker(s);
    let base = stripped.as_str();
    let n = base.unicode_len();
    let mut out = String::new();
    for i in 0..n
        invariant
            n == base@.len(),
            base@ == strip_doc_marker(s@),
            out@ == swap_quotes(base@.subrange(0, i as int)),
    {
        let c = base.get_char(i);
        proof {
            assert(base@.subrange(0, i + 1).drop_last() =~= base@.subrange(0, i as int));
            assert(base@.subrange(0, i + 1).last() == c);
        }
        if c == '"' {
        } else if c == '\\' {
            push_char(&mut out, '"');
        } else {
            push_char(&mut out, c);
        }
        proof {
            assert(out@ =~= swap_quotes(base@.subrange(0, i + 1)));
        }
    }
    proof {
        assert(base@.subrange(0, n as int) =~= base@);
    }
    out
}

/// Whether some fragment carries `name`.
pub open spec fn frags_have_name(frags: Seq<FragmentView>, name: Seq<char>) -> bool {
    exists|j: int| 0 <= j < frags.len() && frags[j].name == name
}

/// The artifact's parts: in fragment order, each fragment whose name no
/// earlier fragment carries and whose serialized form exists, post-processed.
pub open spec fn compiled_parts(frags: Seq<FragmentView>) -> Seq<Seq<char>>
    decreases frags.len(),
{
    if frags.len() == 0 {
        Seq::empty()
    } else {
        let prev = compiled_parts(frags.drop_last());
        let f = frags.last();
        if frags_have_name(frags.drop_last(), f.name) || f.rendered is None {
            prev
        } else {
            prev.push(postprocess_view(f.rendered->0))
        }
    }
}

/// Deduplicates and post-processes the fragments: among fragments of one
/// name only the first is retained.
pub fn script_contents(frags: &Vec<ScriptFragment>) -> (r: Vec<String>)
    ensures
        r.deep_view() =~= compiled_parts(frags.deep_view()),
{
    let mut out: Vec<String> = Vec::new();
    let mut seen: Vec<String> = Vec::new();
    let n = frags.len();
    proof {
        assert(frags.deep_view().subrange(0, 0) =~= Seq::<FragmentView>::empty());
    }
    for i in 0..n
        invariant
            n == frags@.len(),
            frags.deep_view().len() == n,
            seen@.len() == i,
            seen.deep_view() == Seq::new(i as nat, |j: int| frags.deep_view()[j].name),
            out.deep_view() =~= compiled_parts(frags.deep_view().subrange(0, i as int)),
    {
        let frag = &frags[i];
        proof {
            assert(frags.deep_view()[i as int] == frags@[i as int].deep_view());
        }
        let mut dup = false;
        let ns = seen.len();
        for t in 0..ns
            invariant
                ns == seen@.len(),
                ns == seen.deep_view().len(),
                0 <= i < frags@.len(),
                frags.deep_view().len() == frags@.len(),
                *frag == frags@[i as int],
                frags.deep_view()[i as int] == frags@[i as int].deep_view(),
                dup == exists|k: int|
                    0 <= k < t && seen.deep_view()[k] == frags.deep_view()[i as int].name,
        {
            proof {
                assert(seen.deep_view()[t as int] == seen@[t as int]@);
            }
            if crate::text::str_eq(seen[t].as_str(), frag.name.as_str()) {
                dup = true;
            }
        }
        proof {
            let pre = frags.deep_view().subrange(0, i as int);
            assert forall|k: int| 0 <= k < i implies seen.deep_view()[k] == pre[k].name by {}
            assert(dup == frags_have_name(pre, frags.deep_view()[i as int].name)) by {
                if dup {
                    let w = choose|k: int|
                        0 <= k < i && seen.deep_view()[k] == frags.deep_view()[i as int].name;
                    assert(pre[w].name == frags.deep_view()[i as int].name);
                }
                if frags_have_name(pre, frags.deep_view()[i as int].name) {
                    let w = choose|j: int|
                        0 <= j < pre.len() && pre[j].name == frags.deep_view()[i as int].name;
                    assert(seen.deep_view()[w] == frags.deep_view()[i as int].name);
                }
            }
        }
        let ghost prev_out = out.deep_view();
        if !dup {
            match &frag.rendered {
                Some(text) => {
                    let part = postprocess(text.as_str());
                    out.push(part);
                    proof {
                        assert(out.deep_view() =~= prev_out.push(
                            postprocess_view(frags.deep_view()[i as int].rendered->0),
                        ));
                    }
                },
                None => {},
            }
        }
        let ghost prev_seen = seen.deep_view();
        seen.push(frag.name.clone());
        proof {
            let pre = frags.deep_view().subrange(0, i as int);
            let cur = frags.deep_view().subrange(0, i + 1);
            assert(cur.drop_last() =~= pre);
            assert(cur.last() == frags.deep_view()[i as int]);
            assert(out.deep_view() =~= compiled_parts(cur));
            assert forall|j: int| 0 <= j < i + 1 implies seen.deep_view()[j]
                == frags.deep_view()[j].name by {
                assert(seen.deep_view()[j] == seen@[j]@);
                if j < i {
                    assert(prev_seen[j] == frags.deep_view()[j].name);
                    assert(seen@[j]@ == prev_seen[j]);
                }
            }
            assert(seen.deep_view() =~= Seq::new(
                (i + 1) as nat,
                |j: int| frags.deep_view()[j].name,
            ));
        }
    }
    proof {
        assert(frags.deep_view().subrange(0, n as int) =~= frags.deep_view());
    }
    out
}

/// The bundled artifact: the ignore directive line, a blank line, the
/// caller's optional project header, and the parts joined by blank lines.
pub open spec fn artifact_view(parts: Seq<Seq<char>>, header: Seq<char>) -> Seq<char> {
    "#: ignore\n\n"@ + header + join_seq(parts, "\n"@)
}

/// Assembles the final compiled document from the retained parts and an
/// optional project header block.
pub fn compile_artifact(scripts: &Vec<String>, header: &str) -> (r: String)
    ensures
        r@ == artifact_view(scripts.deep_view(), header@),
{
    let mut out = String::from_str("#: ignore\n\n");
    out.append(header);
    let joined = crate::text::join_strings(scripts, "\n");
    out.append(joined.as_str());
    proof {
        assert(out@ =~= artifact_view(scripts.deep_view(), header@));
    }
    out
}

} // verus!
