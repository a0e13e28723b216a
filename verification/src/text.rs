//! Plain-text helpers: whitespace normalization, the ignore-directive test,
//! prefix checks, decimal rendering, and joining.

use vstd::prelude::*;
use vstd::string::StringExecFns;
use vstd::string::StrSliceExecFns;

verus! {

/// The whitespace characters that normalization and trimming remove: the
/// code points with the Unicode `White_Space` property, the set std's
/// `char::is_whitespace` documents.
pub open spec fn is_space_char(c: char) -> bool {
    c == '\u{09}' || c == '\u{0A}' || c == '\u{0B}' || c == '\u{0C}' || c == '\u{0D}' || c == ' '
        || c == '\u{85}' || c == '\u{A0}' || c == '\u{1680}' || c == '\u{2000}' || c == '\u{2001}'
        || c == '\u{2002}' || c == '\u{2003}' || c == '\u{2004}' || c == '\u{2005}'
        || c == '\u{2006}' || c == '\u{2007}' || c == '\u{2008}' || c == '\u{2009}'
        || c == '\u{200A}' || c == '\u{2028}' || c == '\u{2029}' || c == '\u{202F}'
        || c == '\u{205F}' || c == '\u{3000}'
}

/// `text` with every whitespace character removed.
pub open spec fn normalized(s: Seq<char>) -> Seq<char>
    decreases s.len(),
{
    if s.len() == 0 {
        Seq::empty()
    } else {
        normalized(s.drop_last()) + if is_space_char(s.last()) {
            Seq::empty()
        } else {
            seq![s.last()]
        }
    }
}

/// The marker that excludes a definition file from every scan.
pub open spec fn ignore_directive() -> Seq<char> {
    "#:ignore"@
}

/// A file is ignored when its normalized content starts with the ignore
/// directive.
pub open spec fn is_ignored_text(s: Seq<char>) -> bool {
    ignore_directive().is_prefix_of(normalized(s))
}

/// Relies on std's `String::push`: appends exactly one character.
#[verifier::external_body]
pub fn push_char(s: &mut String, c: char)
    ensures
        final(s)@ == old(s)@.push(c),
{
    s.push(c);
}

fn is_space(c: char) -> (r: bool)
    ensures
        r == is_space_char(c),
{
    c == '\u{09}' || c == '\u{0A}' || c == '\u{0B}' || c == '\u{0C}' || c == '\u{0D}' || c == ' '
        || c == '\u{85}' || c == '\u{A0}' || c == '\u{1680}' || c == '\u{2000}' || c == '\u{2001}'
        || c == '\u{2002}' || c == '\u{2003}' || c == '\u{2004}' || c == '\u{2005}'
        || c == '\u{2006}' || c == '\u{2007}' || c == '\u{2008}' || c == '\u{2009}'
        || c == '\u{200A}' || c == '\u{2028}' || c == '\u{2029}' || c == '\u{202F}'
        || c == '\u{205F}' || c == '\u{3000}'
}

/// Removes every whitespace character from `text`.
pub fn normalize(text: &str) -> (r: String)
    ensures
        r@ == normalized(text@),
{
    let n = text.unicode_len();
    let mut r = String::new();
    for i in 0..n
        invariant
            n == text@.len(),
            r@ == normalized(text@.subrange(0, i as int)),
    {
        let c = text.get_char(i);
        proof {
            assert(text@.subrange(0, i + 1).drop_last() =~= text@.subrange(0, i as int));
            assert(text@.subrange(0, i + 1).last() == c);
        }
        if !is_space(c) {
            push_char(&mut r, c);
            proof {
                assert(r@ =~= normalized(text@.subrange(0, i + 1)));
            }
        } else {
            proof {
                assert(r@ =~= normalized(text@.subrange(0, i + 1)));
            }
        }
    }
    proof {
        assert(text@.subrange(0, n as int) =~= text@);
    }
    r
}

/// True when `p` is a prefix of `s`.
pub fn str_starts_with(s: &str, p: &str) -> (r: bool)
    ensures
        r == p@.is_prefix_of(s@),
{
    let sn = s.unicode_len();
    let pn = p.unicode_len();
    if pn > sn {
        return false;
    }
    for i in 0..pn
        invariant
            sn == s@.len(),
            pn == p@.len(),
            pn <= sn,
            forall|j: int| 0 <= j < i ==> s@[j] == p@[j],
    {
        if s.get_char(i) != p.get_char(i) {
            assert(!p@.is_prefix_of(s@)) by {
                assert(s@.subrange(0, pn as int)[i as int] != p@[i as int]);
            }
            return false;
        }
    }
    assert(p@ =~= s@.subrange(0, pn as int));
    true
}

/// Strict lexicographic order on character sequences, by code point: the
/// order in which a sorted map over strings iterates its keys.
pub open spec fn lex_lt(a: Seq<char>, b: Seq<char>) -> bool
    decreases a.len(),
{
    if b.len() == 0 {
        false
    } else if a.len() == 0 {
        true
    } else if a[0] == b[0] {
        lex_lt(a.drop_first(), b.drop_first())
    } else {
        (a[0] as int) < (b[0] as int)
    }
}

pub proof fn lemma_lex_lt_irrefl(a: Seq<char>)
    ensures
        !lex_lt(a, a),
    decreases a.len(),
{
    if a.len() > 0 {
        lemma_lex_lt_irrefl(a.drop_first());
    }
}

pub proof fn lemma_lex_lt_connected(a: Seq<char>, b: Seq<char>)
    ensures
        lex_lt(a, b) || lex_lt(b, a) || a == b,
    decreases a.len(),
{
    if a.len() == 0 && b.len() == 0 {
        assert(a =~= b);
    } else if a.len() > 0 && b.len() > 0 {
        if a[0] == b[0] {
            lemma_lex_lt_connected(a.drop_first(), b.drop_first());
            if a.drop_first() == b.drop_first() {
                assert(a =~= seq![a[0]] + a.drop_first());
                assert(b =~= seq![b[0]] + b.drop_first());
            }
        }
    }
}

pub proof fn lemma_lex_lt_trans(a: Seq<char>, b: Seq<char>, c: Seq<char>)
    requires
        lex_lt(a, b),
        lex_lt(b, c),
    ensures
        lex_lt(a, c),
    decreases a.len(),
{
    if b.len() > 0 && c.len() > 0 && a.len() > 0 {
        if a[0] == b[0] && b[0] == c[0] {
            lemma_lex_lt_trans(a.drop_first(), b.drop_first(), c.drop_first());
        }
    }
}

/// Transitivity and irreflexivity together: the order never cycles.
pub proof fn lemma_lex_lt_asym(a: Seq<char>, b: Seq<char>)
    requires
        lex_lt(a, b),
    ensures
        !lex_lt(b, a),
        a != b,
{
    lemma_lex_lt_irrefl(a);
    if lex_lt(b, a) {
        lemma_lex_lt_trans(a, b, a);
    }
}

/// True when `a` comes strictly before `b` in lexicographic order.
pub fn str_lt(a: &str, b: &str) -> (r: bool)
    ensures
        r == lex_lt(a@, b@),
{
    let an = a.unicode_len();
    let bn = b.unicode_len();
    let n = if an < bn {
        an
    } else {
        bn
    };
    proof {
        assert(a@.skip(0) =~= a@);
        assert(b@.skip(0) =~= b@);
    }
    for i in 0..n
        invariant
            an == a@.len(),
            bn == b@.len(),
            n == if an < bn {
                an
            } else {
                bn
            },
            lex_lt(a@, b@) == lex_lt(a@.skip(i as int), b@.skip(i as int)),
            forall|j: int| 0 <= j < i ==> a@[j] == b@[j],
    {
        let ca = a.get_char(i);
        let cb = b.get_char(i);
        proof {
            assert(a@.skip(i as int)[0] == a@[i as int]);
            assert(b@.skip(i as int)[0] == b@[i as int]);
            assert(a@.skip(i as int).drop_first() =~= a@.skip(i + 1));
            assert(b@.skip(i as int).drop_first() =~= b@.skip(i + 1));
        }
        if ca != cb {
            return (ca as u32) < (cb as u32);
        }
    }
    proof {
        assert(a@.skip(n as int).len() == an - n);
        assert(b@.skip(n as int).len() == bn - n);
    }
    an < bn
}

/// True when the two string slices hold the same characters.
pub fn str_eq(a: &str, b: &str) -> (r: bool)
    ensures
        r == (a@ == b@),
{
    let an = a.unicode_len();
    let bn = b.unicode_len();
    if an != bn {
        return false;
    }
    for i in 0..an
        invariant
            an == a@.len(),
            bn == b@.len(),
            an == bn,
            forall|j: int| 0 <= j < i ==> a@[j] == b@[j],
    {
        if a.get_char(i) != b.get_char(i) {
            return false;
        }
    }
    assert(a@ =~= b@);
    true
}

/// The ignore-directive test of §discovery: whether the text, with all
/// whitespace removed, starts with the ignore directive.
pub fn is_ignored(text: &str) -> (r: bool)
    ensures
        r == is_ignored_text(text@),
{
    let norm = normalize(text);
    str_starts_with(norm.as_str(), "#:ignore")
}

/// The character of a single decimal digit.
pub open spec fn digit_char(d: nat) -> char {
    if d == 0 {
        '0'
    } else if d == 1 {
        '1'
    } else if d == 2 {
        '2'
    } else if d == 3 {
        '3'
    } else if d == 4 {
        '4'
    } else if d == 5 {
        '5'
    } else if d == 6 {
        '6'
    } else if d == 7 {
        '7'
    } else if d == 8 {
        '8'
    } else {
        '9'
    }
}

/// The decimal numeral of `n`, most significant digit first.
pub open spec fn dec_digits(n: nat) -> Seq<char>
    decreases n,
{
    if n < 10 {
        seq![digit_char(n)]
    } else {
        dec_digits(n / 10).push(digit_char(n % 10))
    }
}

fn digit_to_char(d: u64) -> (r: char)
    requires
        d < 10,
    ensures
        r == digit_char(d as nat),
{
    if d == 0 {
        '0'
    } else if d == 1 {
        '1'
    } else if d == 2 {
        '2'
    } else if d == 3 {
        '3'
    } else if d == 4 {
        '4'
    } else if d == 5 {
        '5'
    } else if d == 6 {
        '6'
    } else if d == 7 {
        '7'
    } else if d == 8 {
        '8'
    } else {
        '9'
    }
}

/// Renders `n` in decimal.
pub fn u64_to_string(n: u64) -> (r: String)
    ensures
        r@ == dec_digits(n as nat),
    decreases n,
{
    if n < 10 {
        let mut s = String::new();
        push_char(&mut s, digit_to_char(n));
        s
    } else {
        assert(n / 10 < n && n / 10 >= 1) by (nonlinear_arith)
            requires
                n >= 10,
        ;
        let mut s = u64_to_string(n / 10);
        push_char(&mut s, digit_to_char(n % 10));
        s
    }
}

/// `s` without leading whitespace.
pub open spec fn trim_front(s: Seq<char>) -> Seq<char>
    decreases s.len(),
{
    if s.len() > 0 && is_space_char(s[0]) {
        trim_front(s.drop_first())
    } else {
        s
    }
}

/// `s` without trailing whitespace.
pub open spec fn trim_back(s: Seq<char>) -> Seq<char>
    decreases s.len(),
{
    if s.len() > 0 && is_space_char(s.last()) {
        trim_back(s.drop_last())
    } else {
        s
    }
}

/// `s` without leading or trailing whitespace.
pub open spec fn trim_spaces(s: Seq<char>) -> Seq<char> {
    trim_back(trim_front(s))
}

/// The comma-separated segments of `s`, the text between consecutive commas;
/// always at least one segment.
pub open spec fn comma_segments(s: Seq<char>) -> Seq<Seq<char>>
    decreases s.len(),
{
    if s.len() == 0 {
        seq![Seq::empty()]
    } else {
        let p = comma_segments(s.drop_last());
        if s.last() == ',' {
            p.push(Seq::empty())
        } else {
            p.update(p.len() - 1, p.last().push(s.last()))
        }
    }
}

/// Each segment has at least one character somewhere before a comma.
pub proof fn lemma_comma_segments_nonempty(s: Seq<char>)
    ensures
        comma_segments(s).len() >= 1,
    decreases s.len(),
{
    if s.len() > 0 {
        lemma_comma_segments_nonempty(s.drop_last());
    }
}

/// The trimmed, non-empty segments, in order.
pub open spec fn kept_authors(segs: Seq<Seq<char>>) -> Seq<Seq<char>>
    decreases segs.len(),
{
    if segs.len() == 0 {
        Seq::empty()
    } else {
        let p = kept_authors(segs.drop_last());
        let t = trim_spaces(segs.last());
        if t.len() > 0 {
            p.push(t)
        } else {
            p
        }
    }
}

/// What an author prompt line names: the comma-separated entries, each
/// trimmed, the empty ones dropped.
pub open spec fn authors_view(s: Seq<char>) -> Seq<Seq<char>> {
    kept_authors(comma_segments(s))
}

/// Appends one string to a list, tracking the list of views.
fn push_string(out: &mut Vec<String>, x: String)
    ensures
        final(out)@ == old(out)@.push(x),
        final(out).deep_view() =~= old(out).deep_view().push(x@),
{
    let ghost prev = out@;
    let ghost prev_dv = out.deep_view();
    out.push(x);
    proof {
        assert forall|j: int| 0 <= j < out.deep_view().len() implies out.deep_view()[j]
            == prev_dv.push(x@)[j] by {
            assert(out.deep_view()[j] == out@[j]@);
            if j < prev.len() {
                assert(prev_dv[j] == prev[j]@);
                assert(out@[j] == prev[j]);
            }
        }
    }
}

/// Removes leading and trailing whitespace.
pub fn trim_str(s: &str) -> (r: String)
    ensures
        r@ == trim_spaces(s@),
{
    let n = s.unicode_len();
    proof {
        assert(s@.skip(0) =~= s@);
    }
    let mut a: usize = 0;
    while a < n && is_space(s.get_char(a))
        invariant
            n == s@.len(),
            0 <= a <= n,
            trim_front(s@) == trim_front(s@.skip(a as int)),
        decreases n - a,
    {
        proof {
            assert(s@.skip(a as int)[0] == s@[a as int]);
            assert(s@.skip(a as int).drop_first() =~= s@.skip(a + 1));
        }
        a += 1;
    }
    proof {
        if a < n {
            assert(s@.skip(a as int)[0] == s@[a as int]);
        }
        assert(trim_front(s@) == s@.skip(a as int));
    }
    let mut b: usize = n;
    while b > a && is_space(s.get_char(b - 1))
        invariant
            n == s@.len(),
            0 <= a <= b <= n,
            trim_front(s@) == s@.skip(a as int),
            trim_back(s@.skip(a as int)) == trim_back(s@.subrange(a as int, b as int)),
        decreases b,
    {
        proof {
            assert(s@.subrange(a as int, b as int).last() == s@[b - 1]);
            assert(s@.subrange(a as int, b as int).drop_last() =~= s@.subrange(
                a as int,
                b - 1,
            ));
        }
        b -= 1;
    }
    proof {
        let seg = s@.subrange(a as int, b as int);
        if seg.len() > 0 {
            assert(seg.last() == s@[b - 1]);
        }
        assert(trim_back(seg) == seg);
    }
    let r = s.substring_char(a, b);
    proof {
        assert(r@ =~= s@.subrange(a as int, b as int));
    }
    r.to_owned()
}

/// Splits an author prompt line on commas, trims each entry and drops the
/// empty ones.
pub fn parse_authors(input: &str) -> (r: Vec<String>)
    ensures
        r.deep_view() =~= authors_view(input@),
{
    let n = input.unicode_len();
    let mut out: Vec<String> = Vec::new();
    let mut cur = String::new();
    let ghost mut completed: Seq<Seq<char>> = Seq::empty();
    proof {
        assert(comma_segments(input@.subrange(0, 0)) =~= completed.push(cur@));
    }
    for i in 0..n
        invariant
            n == input@.len(),
            comma_segments(input@.subrange(0, i as int)) =~= completed.push(cur@),
            out.deep_view() =~= kept_authors(completed),
    {
        let c = input.get_char(i);
        proof {
            assert(input@.subrange(0, i + 1).drop_last() =~= input@.subrange(0, i as int));
            assert(input@.subrange(0, i + 1).last() == c);
            lemma_comma_segments_nonempty(input@.subrange(0, i as int));
        }
        if c == ',' {
            let t = trim_str(cur.as_str());
            let ghost prev_out = out.deep_view();
            let ghost tview = t@;
            if t.as_str().unicode_len() > 0 {
                push_string(&mut out, t);
            }
            proof {
                let segs = completed.push(cur@);
                assert(segs.drop_last() =~= completed);
                assert(segs.last() == cur@);
                assert(kept_authors(segs) == if trim_spaces(cur@).len() > 0 {
                    kept_authors(completed).push(trim_spaces(cur@))
                } else {
                    kept_authors(completed)
                });
                assert(out.deep_view() =~= kept_authors(segs));
                completed = segs;
                assert(comma_segments(input@.subrange(0, i + 1)) =~= completed.push(
                    Seq::<char>::empty(),
                ));
            }
            cur = String::new();
        } else {
            push_char(&mut cur, c);
            proof {
                let p = completed.push(cur@.drop_last());
                assert(p.last() == cur@.drop_last());
                assert(p.update(p.len() - 1, cur@) =~= completed.push(cur@));
                assert(comma_segments(input@.subrange(0, i + 1)) =~= completed.push(cur@));
            }
        }
    }
    proof {
        assert(input@.subrange(0, n as int) =~= input@);
    }
    let t = trim_str(cur.as_str());
    if t.as_str().unicode_len() > 0 {
        push_string(&mut out, t);
    }
    proof {
        let segs = completed.push(cur@);
        assert(segs.drop_last() =~= completed);
        assert(segs.last() == cur@);
        assert(kept_authors(segs) == if trim_spaces(cur@).len() > 0 {
            kept_authors(completed).push(trim_spaces(cur@))
        } else {
            kept_authors(completed)
        });
        assert(out.deep_view() =~= authors_view(input@));
    }
    out
}

/// The parts joined with `sep` between consecutive parts.
pub open spec fn join_seq(parts: Seq<Seq<char>>, sep: Seq<char>) -> Seq<char>
    decreases parts.len(),
{
    if parts.len() == 0 {
        Seq::empty()
    } else if parts.len() == 1 {
        parts[0]
    } else {
        join_seq(parts.drop_last(), sep) + sep + parts.last()
    }
}

/// Joins the strings with the separator, matching `join_seq` of the views.
pub fn join_strings(parts: &Vec<String>, sep: &str) -> (r: String)
    ensures
        r@ == join_seq(parts.deep_view(), sep@),
{
    let mut r = String::new();
    let n = parts.len();
    for i in 0..n
        invariant
            n == parts@.len(),
            parts.deep_view().len() == n,
            r@ == join_seq(parts.deep_view().subrange(0, i as int), sep@),
    {
        if i > 0 {
            r.append(sep);
        }
        r.append(parts[i].as_str());
        proof {
            let pv = parts.deep_view();
            assert(parts.deep_view()[i as int] == parts@[i as int]@);
            assert(pv.subrange(0, i + 1).drop_last() =~= pv.subrange(0, i as int));
            assert(pv.subrange(0, i + 1).last() == pv[i as int]);
            if i == 0 {
                assert(r@ =~= join_seq(pv.subrange(0, i + 1), sep@));
            } else {
                assert(r@ =~= join_seq(pv.subrange(0, i + 1), sep@));
            }
        }
    }
    proof {
        assert(parts.deep_view().subrange(0, n as int) =~= parts.deep_view());
    }
    r
}

} // verus!
