//! Assembly of the system prompt for one chunk.
use vstd::prelude::*;
use crate::glossary::{csv_text, found_terms, lower_of, lowercase, EntryView, Glossary};
use crate::text::{chars_eq, chars_of, replace_all, replace_chars, string_of};
use crate::validator::string_views;

verus! {

/// The placeholder in a prompt template that the glossary table replaces.
pub const GLOSSARY_PLACEHOLDER: &'static str = "{{glossary_csv}}";

/// What replaces the placeholder when the chunk holds no glossary term.
pub const NO_TERMS_MARKER: &'static str = "（无相关术语）";

/// Lexicographic order of character sequences by code point (the order of
/// `String`'s `Ord`).
pub open spec fn seq_lt(a: Seq<char>, b: Seq<char>) -> bool
    decreases a.len(),
{
    if a.len() == 0 {
        b.len() > 0
    } else if b.len() == 0 {
        false
    } else if a[0] != b[0] {
        (a[0] as int) < (b[0] as int)
    } else {
        seq_lt(a.drop_first(), b.drop_first())
    }
}

/// Each term is less than the next: sorted, no term twice.
pub open spec fn strictly_sorted(s: Seq<Seq<char>>) -> bool {
    forall|i: int| 1 <= i < s.len() ==> seq_lt(#[trigger] s[i - 1], s[i])
}

/// `s` without the newlines at its end.
pub open spec fn trim_end_newlines(s: Seq<char>) -> Seq<char>
    decreases s.len(),
{
    if s.len() > 0 && s.last() == '\n' {
        trim_end_newlines(s.drop_last())
    } else {
        s
    }
}

/// The glossary table for `terms`: the header row and one row per term
/// that has both languages, without the newlines at its end.
pub open spec fn glossary_table(g: Seq<EntryView>, src: Seq<char>, tgt: Seq<char>, terms: Seq<Seq<char>>) -> Seq<
    char,
> {
    trim_end_newlines(csv_text(g, src, tgt, terms))
}

/// The template with the placeholder replaced by the table for `terms`, or
/// by the no-terms marker when there are no terms.
pub open spec fn prompt_text(
    template: Seq<char>,
    g: Seq<EntryView>,
    src: Seq<char>,
    tgt: Seq<char>,
    terms: Seq<Seq<char>>,
) -> Seq<char> {
    if terms.len() == 0 {
        replace_all(template, GLOSSARY_PLACEHOLDER@, NO_TERMS_MARKER@)
    } else {
        replace_all(template, GLOSSARY_PLACEHOLDER@, glossary_table(g, src, tgt, terms))
    }
}

proof fn lemma_lt_total(a: Seq<char>, b: Seq<char>)
    ensures
        a == b || seq_lt(a, b) || seq_lt(b, a),
    decreases a.len(),
{
    if a.len() > 0 && b.len() > 0 && a[0] != b[0] {
        assert((a[0] as int) != (b[0] as int));
    }
    if a.len() > 0 && b.len() > 0 && a[0] == b[0] {
        lemma_lt_total(a.drop_first(), b.drop_first());
        if a.drop_first() == b.drop_first() {
            assert(a =~= seq![a[0]] + a.drop_first());
            assert(b =~= seq![b[0]] + b.drop_first());
        }
    } else if a.len() == 0 && b.len() == 0 {
        assert(a =~= b);
    }
}

proof fn lemma_lt_asym(a: Seq<char>, b: Seq<char>)
    ensures
        !(seq_lt(a, b) && seq_lt(b, a)),
    decreases a.len(),
{
    if a.len() > 0 && b.len() > 0 && a[0] == b[0] {
        lemma_lt_asym(a.drop_first(), b.drop_first());
    }
}

/// Whether `a` comes before `b`.
fn chars_lt(a: &[char], b: &[char]) -> (r: bool)
    ensures
        r == seq_lt(a@, b@),
{
    let mut i: usize = 0;
    assert(a@.subrange(0, a@.len() as int) =~= a@);
    assert(b@.subrange(0, b@.len() as int) =~= b@);
    while i < a.len() && i < b.len()
        invariant
            i <= a@.len(),
            i <= b@.len(),
            seq_lt(a@, b@) == seq_lt(a@.subrange(i as int, a@.len() as int), b@.subrange(i as int, b@.len() as int)),
        decreases a@.len() - i,
    {
        if a[i] != b[i] {
            return a[i] < b[i];
        }
        let ghost x = a@.subrange(i as int, a@.len() as int);
        let ghost y = b@.subrange(i as int, b@.len() as int);
        assert(x.drop_first() =~= a@.subrange(i + 1, a@.len() as int));
        assert(y.drop_first() =~= b@.subrange(i + 1, b@.len() as int));
        i = i + 1;
    }
    i < b.len()
}

/// `terms` sorted, each distinct term once.
fn sort_dedup(terms: &Vec<String>) -> (r: Vec<String>)
    ensures
        strictly_sorted(string_views(r@)),
        string_views(r@).to_set() == string_views(terms@).to_set(),
{
    let ghost tv = string_views(terms@);
    let mut out: Vec<String> = Vec::new();
    let mut i: usize = 0;
    assert(string_views(out@).to_set() =~= tv.subrange(0, 0).to_set());
    while i < terms.len()
        invariant
            tv == string_views(terms@),
            i <= terms@.len(),
            strictly_sorted(string_views(out@)),
            string_views(out@).to_set() == tv.subrange(0, i as int).to_set(),
        decreases terms@.len() - i,
    {
        let ghost ov = string_views(out@);
        let t = chars_of(terms[i].as_str());
        let mut p: usize = 0;
        while p < out.len() && chars_lt(chars_of(out[p].as_str()).as_slice(), t.as_slice())
            invariant
                ov == string_views(out@),
                p <= out@.len(),
                forall|q: int| 0 <= q < p ==> seq_lt(#[trigger] ov[q], t@),
            decreases out@.len() - p,
        {
            p = p + 1;
        }
        assert(tv.subrange(0, i + 1) =~= tv.subrange(0, i as int).push(tv[i as int]));
        assert(tv[i as int] == t@);
        let dup = p < out.len() && chars_eq(chars_of(out[p].as_str()).as_slice(), t.as_slice());
        if dup {
            assert(ov[p as int] == t@);
            assert(ov.to_set().insert(t@) =~= ov.to_set());
        } else {
            proof {
                if p < ov.len() {
                    lemma_lt_total(ov[p as int], t@);
                }
                assert forall|a: int, b: int| 0 <= a < b < ov.len() implies seq_lt(ov[a], ov[b]) by {
                    lemma_sorted_pair(ov, a, b);
                }
            }
            let s = terms[i].clone();
            out.insert(p, s);
            let ghost nv = string_views(out@);
            assert(nv =~= ov.subrange(0, p as int).push(t@) + ov.subrange(p as int, ov.len() as int));
            assert forall|k: int| 1 <= k < nv.len() implies seq_lt(#[trigger] nv[k - 1], nv[k]) by {
                if k < p {
                    assert(nv[k - 1] == ov[k - 1] && nv[k] == ov[k]);
                } else if k == p {
                    assert(nv[k - 1] == ov[k - 1] && nv[k] == t@);
                } else if k == p + 1 {
                    assert(nv[k - 1] == t@ && nv[k] == ov[p as int]);
                    if ov[p as int] != t@ && !seq_lt(t@, ov[p as int]) {
                        lemma_lt_asym(t@, ov[p as int]);
                    }
                } else {
                    assert(nv[k - 1] == ov[k - 2] && nv[k] == ov[k - 1]);
                }
            }
            assert(nv.to_set() =~= ov.to_set().insert(t@)) by {
                assert forall|x: Seq<char>| #[trigger] nv.contains(x) implies ov.contains(x) || x == t@ by {
                    let k = choose|k: int| 0 <= k < nv.len() && nv[k] == x;
                    if k < p {
                        assert(ov[k] == x);
                    } else if k > p {
                        assert(ov[k - 1] == x);
                    }
                }
                assert forall|x: Seq<char>| #[trigger] ov.contains(x) implies nv.contains(x) by {
                    let k = choose|k: int| 0 <= k < ov.len() && ov[k] == x;
                    if k < p {
                        assert(nv[k] == x);
                    } else {
                        assert(nv[k + 1] == x);
                    }
                }
                assert(nv[p as int] == t@);
                assert(nv.contains(t@));
            }
        }
        proof {
            tv.subrange(0, i as int).lemma_push_to_set_commute(t@);
        }
        i = i + 1;
    }
    assert(tv.subrange(0, tv.len() as int) =~= tv);
    out
}

proof fn lemma_lt_trans(a: Seq<char>, b: Seq<char>, c: Seq<char>)
    requires
        seq_lt(a, b),
        seq_lt(b, c),
    ensures
        seq_lt(a, c),
    decreases a.len(),
{
    if a.len() > 0 && b.len() > 0 && c.len() > 0 && a[0] == b[0] && b[0] == c[0] {
        lemma_lt_trans(a.drop_first(), b.drop_first(), c.drop_first());
    }
}

proof fn lemma_sorted_pair(s: Seq<Seq<char>>, a: int, b: int)
    requires
        strictly_sorted(s),
        0 <= a < b < s.len(),
    ensures
        seq_lt(s[a], s[b]),
    decreases b - a,
{
    if b > a + 1 {
        lemma_sorted_pair(s, a, b - 1);
        assert(seq_lt(s[b - 1], s[b]));
        lemma_lt_trans(s[a], s[b - 1], s[b]);
    } else {
        assert(seq_lt(s[b - 1], s[b]));
    }
}

/// `p` is the prompt for a chunk whose lower-cased text is `lowered`: the
/// glossary terms found there, sorted and each once, rendered into the
/// template.
pub open spec fn is_system_prompt(
    p: Seq<char>,
    template: Seq<char>,
    g: Seq<EntryView>,
    src: Seq<char>,
    tgt: Seq<char>,
    lowered: Seq<char>,
) -> bool {
    exists|terms: Seq<Seq<char>>|
        strictly_sorted(terms) && terms.to_set() == found_terms(g, lowered, src).to_set() && p
            == prompt_text(template, g, src, tgt, terms)
}

/// The system prompt for a chunk whose text, lower-cased, is `lowered`:
/// the glossary terms found in it, sorted and each once, are rendered as a
/// table that replaces the template's placeholder; with no terms the
/// no-terms marker replaces it.
pub fn build_system_prompt_lowered(
    template: &str,
    glossary: &Glossary,
    source_lang: &str,
    target_lang: &str,
    lowered: &str,
) -> (r: String)
    requires
        glossary.wf(),
    ensures
        is_system_prompt(r@, template@, glossary@, source_lang@, target_lang@, lowered@),
{
    let found = glossary.find_terms_in_lowered(lowered, source_lang);
    let sorted = sort_dedup(&found);
    let ghost terms = string_views(sorted@);
    let tpl = chars_of(template);
    let ph = chars_of(GLOSSARY_PLACEHOLDER);
    if sorted.len() == 0 {
        let marker = chars_of(NO_TERMS_MARKER);
        let out = replace_chars(tpl.as_slice(), ph.as_slice(), marker.as_slice());
        let r = string_of(out.as_slice());
        assert(r@ == prompt_text(template@, glossary@, source_lang@, target_lang@, terms));
        return r;
    }
    let mut words: Vec<&str> = Vec::new();
    let mut i: usize = 0;
    while i < sorted.len()
        invariant
            terms == string_views(sorted@),
            i <= sorted@.len(),
            words@.map_values(|w: &str| w@) == terms.subrange(0, i as int),
        decreases sorted@.len() - i,
    {
        let w = sorted[i].as_str();
        let ghost before = words@;
        words.push(w);
        assert(words@ == before.push(w));
        assert(w@ == terms[i as int]);
        assert(terms.subrange(0, i + 1) =~= terms.subrange(0, i as int).push(terms[i as int]));
        assert(words@.map_values(|w: &str| w@) =~= before.map_values(|w: &str| w@).push(w@));
        i = i + 1;
    }
    assert(terms.subrange(0, terms.len() as int) =~= terms);
    let csv = glossary.to_csv(source_lang, target_lang, words.as_slice());
    let mut table = chars_of(csv.as_str());
    while table.len() > 0 && table[table.len() - 1] == '\n'
        invariant
            trim_end_newlines(table@) == glossary_table(glossary@, source_lang@, target_lang@, terms),
        decreases table@.len(),
    {
        let ghost before = table@;
        table.pop();
        assert(table@ =~= before.drop_last());
    }
    assert(trim_end_newlines(table@) == table@);
    let out = replace_chars(tpl.as_slice(), ph.as_slice(), table.as_slice());
    let r = string_of(out.as_slice());
    assert(r@ == prompt_text(template@, glossary@, source_lang@, target_lang@, terms));
    r
}

/// The system prompt for a chunk with text `source_text` (see
/// `build_system_prompt_lowered`; the text is lower-cased first).
pub fn build_system_prompt(
    template: &str,
    glossary: &Glossary,
    source_lang: &str,
    target_lang: &str,
    source_text: &str,
) -> (r: String)
    requires
        glossary.wf(),
    ensures
        is_system_prompt(r@, template@, glossary@, source_lang@, target_lang@, lower_of(source_text@)),
{
    let lowered = lowercase(source_text);
    build_system_prompt_lowered(template, glossary, source_lang, target_lang, lowered.as_str())
}

} // verus!
