//! Checks that a translation keeps the game text's markers.
//!
//! A marker is a delimiter character, one or more other characters, and the
//! same delimiter again: `£icon£` (icons), `$var$` (variables) and `§Y§`
//! (colour codes). Markers are found from the left without overlapping.
use vstd::prelude::*;
use crate::text::{chars_of, chars_eq, push_all, push_str_chars, string_of};

verus! {

/// The first position at or after `i` that holds `d`, or the length of `s`.
pub open spec fn next_delim(s: Seq<char>, d: char, i: int) -> int
    decreases s.len() - i,
{
    if i >= s.len() {
        s.len() as int
    } else if s[i] == d {
        i
    } else {
        next_delim(s, d, i + 1)
    }
}

/// The markers delimited by `d` in `s` from position `i` on.
pub open spec fn markers_from(s: Seq<char>, d: char, i: int) -> Seq<Seq<char>>
    decreases s.len() - i,
{
    let j = next_delim(s, d, i);
    if i < 0 || j >= s.len() || j < i {
        Seq::<Seq<char>>::empty()
    } else {
        let k = next_delim(s, d, j + 1);
        if k >= s.len() || k <= j {
            Seq::<Seq<char>>::empty()
        } else if k == j + 1 {
            markers_from(s, d, k)
        } else {
            seq![s.subrange(j, k + 1)] + markers_from(s, d, k + 1)
        }
    }
}

/// The markers delimited by `d` in `s`, in order.
pub open spec fn markers(s: Seq<char>, d: char) -> Seq<Seq<char>> {
    markers_from(s, d, 0)
}

pub open spec fn icon_delim() -> char {
    '£'
}

pub open spec fn variable_delim() -> char {
    '$'
}

pub open spec fn color_delim() -> char {
    '§'
}

/// `ms` written as a list: `[a, b, c]`.
pub open spec fn list_text(ms: Seq<Seq<char>>) -> Seq<char> {
    seq!['['] + join_comma(ms) + seq![']']
}

pub open spec fn join_comma(ms: Seq<Seq<char>>) -> Seq<char>
    decreases ms.len(),
{
    if ms.len() == 0 {
        Seq::<char>::empty()
    } else if ms.len() == 1 {
        ms[0]
    } else {
        join_comma(ms.drop_last()) + seq![',', ' '] + ms.last()
    }
}

/// The issue reported for a family whose markers differ.
pub open spec fn issue_text(family: Seq<char>, o: Seq<Seq<char>>, t: Seq<Seq<char>>) -> Seq<char> {
    family + " markers mismatch. Original: "@ + list_text(o) + ", Translated: "@ + list_text(t)
}

/// The issue for one family, if its markers differ.
pub open spec fn family_issue(family: Seq<char>, d: char, original: Seq<char>, translated: Seq<char>) -> Seq<
    Seq<char>,
> {
    if markers(original, d) == markers(translated, d) {
        Seq::<Seq<char>>::empty()
    } else {
        seq![issue_text(family, markers(original, d), markers(translated, d))]
    }
}

/// The issues found between an original and its translation: one per
/// family (icons, variables, colour codes, in that order) whose markers differ.
pub open spec fn validation_issues(original: Seq<char>, translated: Seq<char>) -> Seq<Seq<char>> {
    family_issue("Icon"@, icon_delim(), original, translated) + family_issue(
        "Variable"@,
        variable_delim(),
        original,
        translated,
    ) + family_issue("Color"@, color_delim(), original, translated)
}

pub open spec fn string_views(v: Seq<String>) -> Seq<Seq<char>> {
    v.map_values(|s: String| s@)
}

pub open spec fn char_vec_views(v: Seq<Vec<char>>) -> Seq<Seq<char>> {
    v.map_values(|s: Vec<char>| s@)
}

proof fn lemma_next_delim_bounds(s: Seq<char>, d: char, i: int)
    ensures
        i <= s.len() ==> i <= next_delim(s, d, i) <= s.len(),
        i > s.len() ==> next_delim(s, d, i) == s.len(),
        next_delim(s, d, i) < s.len() ==> s[next_delim(s, d, i)] == d,
    decreases s.len() - i,
{
    if i < s.len() && s[i] != d {
        lemma_next_delim_bounds(s, d, i + 1);
    }
}

/// The first position at or after `i` that holds `d`, or the length.
fn find_delim(s: &[char], d: char, i: usize) -> (r: usize)
    requires
        i <= s@.len(),
    ensures
        r == next_delim(s@, d, i as int),
{
    let mut p = i;
    while p < s.len()
        invariant
            i <= p <= s@.len(),
            next_delim(s@, d, i as int) == next_delim(s@, d, p as int),
        decreases s@.len() - p,
    {
        if s[p] == d {
            return p;
        }
        p = p + 1;
    }
    p
}

/// The markers delimited by `d` in `s`.
fn markers_of(s: &[char], d: char) -> (r: Vec<Vec<char>>)
    ensures
        char_vec_views(r@) == markers(s@, d),
{
    let mut out: Vec<Vec<char>> = Vec::new();
    let mut i: usize = 0;
    while i <= s.len()
        invariant_except_break
            i <= s@.len(),
        invariant
            markers(s@, d) == char_vec_views(out@) + markers_from(s@, d, i as int),
        ensures
            markers_from(s@, d, i as int) == Seq::<Seq<char>>::empty(),
        decreases s@.len() + 1 - i,
    {
        proof {
            lemma_next_delim_bounds(s@, d, i as int);
        }
        if i == s.len() {
            break;
        }
        let j = find_delim(s, d, i);
        if j >= s.len() {
            break;
        }
        let k = find_delim(s, d, j + 1);
        proof {
            lemma_next_delim_bounds(s@, d, j + 1);
        }
        if k >= s.len() {
            break;
        }
        if k == j + 1 {
            i = k;
        } else {
            let mut m: Vec<char> = Vec::new();
            let mut t = j;
            while t <= k
                invariant
                    j <= t <= k + 1,
                    k < s@.len(),
                    m@ == s@.subrange(j as int, t as int),
                decreases k + 1 - t,
            {
                m.push(s[t]);
                t = t + 1;
                assert(m@ =~= s@.subrange(j as int, t as int));
            }
            let ghost before = char_vec_views(out@);
            out.push(m);
            assert(char_vec_views(out@) =~= before.push(s@.subrange(j as int, k + 1)));
            assert(before + markers_from(s@, d, i as int) =~= char_vec_views(out@) + markers_from(
                s@,
                d,
                k + 1,
            ));
            i = k + 1;
        }
    }
    assert(char_vec_views(out@) + Seq::<Seq<char>>::empty() =~= char_vec_views(out@));
    out
}

fn same_markers(a: &Vec<Vec<char>>, b: &Vec<Vec<char>>) -> (r: bool)
    ensures
        r == (char_vec_views(a@) == char_vec_views(b@)),
{
    if a.len() != b.len() {
        assert(char_vec_views(a@).len() != char_vec_views(b@).len());
        return false;
    }
    let mut i: usize = 0;
    while i < a.len()
        invariant
            a@.len() == b@.len(),
            i <= a@.len(),
            forall|k: int| 0 <= k < i ==> a@[k]@ == b@[k]@,
        decreases a@.len() - i,
    {
        if !chars_eq(a[i].as_slice(), b[i].as_slice()) {
            assert(char_vec_views(a@)[i as int] != char_vec_views(b@)[i as int]);
            return false;
        }
        i = i + 1;
    }
    assert(char_vec_views(a@) =~= char_vec_views(b@));
    true
}

fn list_chars(ms: &Vec<Vec<char>>) -> (r: Vec<char>)
    ensures
        r@ == list_text(char_vec_views(ms@)),
{
    let ghost v = char_vec_views(ms@);
    let mut out: Vec<char> = Vec::new();
    let mut i: usize = 0;
    while i < ms.len()
        invariant
            v == char_vec_views(ms@),
            i <= ms@.len(),
            out@ == join_comma(v.subrange(0, i as int)),
        decreases ms@.len() - i,
    {
        let ghost before = out@;
        if i > 0 {
            out.push(',');
            out.push(' ');
        }
        push_all(&mut out, ms[i].as_slice());
        let ghost r = v.subrange(0, i + 1);
        assert(r.drop_last() =~= v.subrange(0, i as int));
        assert(r.last() == ms@[i as int]@);
        if i == 0 {
            assert(out@ =~= join_comma(r));
        } else {
            assert(join_comma(r) == join_comma(r.drop_last()) + seq![',', ' '] + r.last());
            assert(out@ =~= join_comma(r));
        }
        i = i + 1;
    }
    assert(v.subrange(0, ms@.len() as int) =~= v);
    let mut res: Vec<char> = vec!['['];
    push_all(&mut res, out.as_slice());
    res.push(']');
    assert(res@ =~= list_text(v));
    res
}

/// Checks translations for lost or altered markers. Holds the delimiter of
/// each marker family.
pub struct FormatValidator {
    icon: char,
    variable: char,
    color: char,
}

impl FormatValidator {
    pub closed spec fn wf(&self) -> bool {
        self.icon == icon_delim() && self.variable == variable_delim() && self.color == color_delim()
    }

    pub fn new() -> (r: FormatValidator)
        ensures
            r.wf(),
    {
        FormatValidator { icon: '£', variable: '$', color: '§' }
    }

    fn check_family(
        family: &str,
        d: char,
        original: &[char],
        translated: &[char],
        issues: &mut Vec<String>,
    )
        ensures
            string_views(final(issues)@) == string_views(old(issues)@) + family_issue(
                family@,
                d,
                original@,
                translated@,
            ),
    {
        let o = markers_of(original, d);
        let t = markers_of(translated, d);
        if !same_markers(&o, &t) {
            let mut msg: Vec<char> = Vec::new();
            push_str_chars(&mut msg, family);
            push_str_chars(&mut msg, " markers mismatch. Original: ");
            let ol = list_chars(&o);
            push_all(&mut msg, ol.as_slice());
            push_str_chars(&mut msg, ", Translated: ");
            let tl = list_chars(&t);
            push_all(&mut msg, tl.as_slice());
            let ghost before = string_views(issues@);
            let s = string_of(msg.as_slice());
            issues.push(s);
            assert(msg@ =~= issue_text(family@, markers(original@, d), markers(translated@, d)));
            assert(string_views(issues@) =~= before.push(s@));
        } else {
            assert(family_issue(family@, d, original@, translated@) =~= Seq::<Seq<char>>::empty());
            assert(string_views(issues@) =~= string_views(issues@) + Seq::<Seq<char>>::empty());
        }
    }

    /// The issues between `original` and `translated`: one for each marker
    /// family whose markers differ in content, order or number. Empty when
    /// all markers are kept. The issues are advisory.
    pub fn validate(&self, original: &str, translated: &str) -> (r: Vec<String>)
        requires
            self.wf(),
        ensures
            string_views(r@) == validation_issues(original@, translated@),
    {
        let o = chars_of(original);
        let t = chars_of(translated);
        let mut issues: Vec<String> = Vec::new();
        assert(string_views(issues@) =~= Seq::<Seq<char>>::empty());
        Self::check_family("Icon", self.icon, o.as_slice(), t.as_slice(), &mut issues);
        Self::check_family("Variable", self.variable, o.as_slice(), t.as_slice(), &mut issues);
        Self::check_family("Color", self.color, o.as_slice(), t.as_slice(), &mut issues);
        assert(string_views(issues@) =~= validation_issues(original@, translated@));
        issues
    }

    /// All markers of `text`: its icons, then its variables, then its colour codes.
    pub fn extract_markers(&self, text: &str) -> (r: Vec<String>)
        requires
            self.wf(),
        ensures
            string_views(r@) == all_markers(text@),
    {
        extract_all_markers(text)
    }
}

/// Icons, then variables, then colour codes of `s`.
pub open spec fn all_markers(s: Seq<char>) -> Seq<Seq<char>> {
    markers(s, icon_delim()) + markers(s, variable_delim()) + markers(s, color_delim())
}

fn push_markers(out: &mut Vec<String>, ms: &Vec<Vec<char>>)
    ensures
        string_views(final(out)@) == string_views(old(out)@) + char_vec_views(ms@),
{
    let ghost start = string_views(out@);
    let mut i: usize = 0;
    while i < ms.len()
        invariant
            i <= ms@.len(),
            string_views(out@) == start + char_vec_views(ms@).subrange(0, i as int),
        decreases ms@.len() - i,
    {
        let ghost before = string_views(out@);
        let s = string_of(ms[i].as_slice());
        out.push(s);
        assert(string_views(out@) =~= before.push(s@));
        assert(char_vec_views(ms@).subrange(0, i + 1) =~= char_vec_views(ms@).subrange(0, i as int).push(
            ms@[i as int]@,
        ));
        i = i + 1;
    }
    assert(char_vec_views(ms@).subrange(0, ms@.len() as int) =~= char_vec_views(ms@));
}

/// All markers of `text`: its icons, then its variables, then its colour codes.
pub fn extract_all_markers(text: &str) -> (r: Vec<String>)
    ensures
        string_views(r@) == all_markers(text@),
{
    let cs = chars_of(text);
    let mut out: Vec<String> = Vec::new();
    assert(string_views(out@) =~= Seq::<Seq<char>>::empty());
    let a = markers_of(cs.as_slice(), '£');
    push_markers(&mut out, &a);
    let b = markers_of(cs.as_slice(), '$');
    push_markers(&mut out, &b);
    let c = markers_of(cs.as_slice(), '§');
    push_markers(&mut out, &c);
    assert(string_views(out@) =~= all_markers(text@));
    out
}

/// Whether `text` holds at least one marker of any family.
pub fn contains_markers(text: &str) -> (r: bool)
    ensures
        r == (all_markers(text@).len() > 0),
{
    let cs = chars_of(text);
    let a = markers_of(cs.as_slice(), '£');
    let b = markers_of(cs.as_slice(), '$');
    let c = markers_of(cs.as_slice(), '§');
    a.len() > 0 || b.len() > 0 || c.len() > 0
}

proof fn lemma_next_delim_at(s: Seq<char>, d: char, i: int, j: int)
    requires
        0 <= i <= j < s.len(),
        s[j] == d,
        forall|t: int| i <= t < j ==> s[t] != d,
    ensures
        next_delim(s, d, i) == j,
    decreases j - i,
{
    if i < j {
        lemma_next_delim_at(s, d, i + 1, j);
    }
}

proof fn lemma_next_delim_none(s: Seq<char>, d: char, i: int)
    requires
        0 <= i <= s.len(),
        forall|t: int| i <= t < s.len() ==> s[t] != d,
    ensures
        next_delim(s, d, i) == s.len(),
    decreases s.len() - i,
{
    if i < s.len() {
        lemma_next_delim_none(s, d, i + 1);
    }
}

/// Marker preservation on `Gain £icon£ 5 $var$`: a translation raises no
/// issue exactly when it holds the one icon `£icon£`, the one variable
/// `$var$` and no colour code, whatever prose surrounds them.
pub proof fn lemma_marker_preservation(translated: Seq<char>)
    ensures
        validation_issues("Gain £icon£ 5 $var$"@, translated).len() == 0 <==> (markers(
            translated,
            icon_delim(),
        ) == seq!["£icon£"@] && markers(translated, variable_delim()) == seq!["$var$"@]
            && markers(translated, color_delim()).len() == 0),
{
    reveal_strlit("Gain £icon£ 5 $var$");
    reveal_strlit("£icon£");
    reveal_strlit("$var$");
    let s = "Gain £icon£ 5 $var$"@;
    assert(s.len() == 19);
    lemma_next_delim_at(s, '£', 0, 5);
    lemma_next_delim_at(s, '£', 6, 10);
    lemma_next_delim_none(s, '£', 11);
    assert(s.subrange(5, 11) =~= "£icon£"@);
    assert(markers_from(s, '£', 11) == Seq::<Seq<char>>::empty());
    assert(markers_from(s, '£', 0) == seq![s.subrange(5, 11)] + markers_from(s, '£', 11));
    assert(markers(s, '£') =~= seq!["£icon£"@]);
    lemma_next_delim_at(s, '$', 0, 14);
    lemma_next_delim_at(s, '$', 15, 18);
    lemma_next_delim_none(s, '$', 19);
    assert(s.subrange(14, 19) =~= "$var$"@);
    assert(markers_from(s, '$', 19) == Seq::<Seq<char>>::empty());
    assert(markers_from(s, '$', 0) == seq![s.subrange(14, 19)] + markers_from(s, '$', 19));
    assert(markers(s, '$') =~= seq!["$var$"@]);
    lemma_next_delim_none(s, '§', 0);
    assert(markers(s, '§') =~= Seq::<Seq<char>>::empty());
    let t = translated;
    let a = family_issue("Icon"@, icon_delim(), s, t);
    let b = family_issue("Variable"@, variable_delim(), s, t);
    let c = family_issue("Color"@, color_delim(), s, t);
    assert(validation_issues(s, t) == a + b + c);
    assert((a + b + c).len() == a.len() + b.len() + c.len());
    if markers(t, color_delim()).len() == 0 {
        assert(markers(t, color_delim()) =~= markers(s, color_delim()));
    }
}

} // verus!
