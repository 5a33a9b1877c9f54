//! Multilingual term tables that steer translations toward agreed vocabulary.
use vstd::prelude::*;
use crate::text::{
    chars_of, contains_chars, contains_seq, push_all, push_str_chars, replace_all, replace_chars,
    str_eq, string_of,
};

verus! {

/// The text of each supported language in an entry, in the order english,
/// simp_chinese, spanish, french, braz_por, russian, german, japanese,
/// korean, polish.
pub type TermSlots = Seq<Option<Seq<char>>>;

/// An entry's id with its terms.
pub type EntryView = (Seq<char>, TermSlots);

/// The position of a supported language code among the slots, or -1.
pub open spec fn lang_slot(lang: Seq<char>) -> int {
    if lang == "english"@ {
        0
    } else if lang == "simp_chinese"@ {
        1
    } else if lang == "spanish"@ {
        2
    } else if lang == "french"@ {
        3
    } else if lang == "braz_por"@ {
        4
    } else if lang == "russian"@ {
        5
    } else if lang == "german"@ {
        6
    } else if lang == "japanese"@ {
        7
    } else if lang == "korean"@ {
        8
    } else if lang == "polish"@ {
        9
    } else {
        -1
    }
}

/// The language code of slot `i`.
pub open spec fn lang_name(i: int) -> Seq<char> {
    if i == 0 {
        "english"@
    } else if i == 1 {
        "simp_chinese"@
    } else if i == 2 {
        "spanish"@
    } else if i == 3 {
        "french"@
    } else if i == 4 {
        "braz_por"@
    } else if i == 5 {
        "russian"@
    } else if i == 6 {
        "german"@
    } else if i == 7 {
        "japanese"@
    } else if i == 8 {
        "korean"@
    } else {
        "polish"@
    }
}

/// The entry's text for language `lang`; none for an unsupported code.
pub open spec fn term(v: TermSlots, lang: Seq<char>) -> Option<Seq<char>> {
    let i = lang_slot(lang);
    if 0 <= i < v.len() {
        v[i]
    } else {
        None
    }
}

pub open spec fn opt_view(o: Option<String>) -> Option<Seq<char>> {
    match o {
        Some(s) => Some(s@),
        None => None,
    }
}

pub open spec fn opt_str_view(o: Option<&str>) -> Option<Seq<char>> {
    match o {
        Some(s) => Some(s@),
        None => None,
    }
}

/// The `(language, text)` pair of slot `i`, if it holds a text.
pub open spec fn slot_term(v: TermSlots, i: int) -> Seq<(Seq<char>, Seq<char>)> {
    match v[i] {
        Some(t) => seq![(lang_name(i), t)],
        None => Seq::empty(),
    }
}

/// Every language that has a text, with that text, in slot order.
pub open spec fn present_terms(v: TermSlots) -> Seq<(Seq<char>, Seq<char>)> {
    slot_term(v, 0) + slot_term(v, 1) + slot_term(v, 2) + slot_term(v, 3) + slot_term(v, 4)
        + slot_term(v, 5) + slot_term(v, 6) + slot_term(v, 7) + slot_term(v, 8) + slot_term(v, 9)
}

/// `s` with key `k` bound to `v`: the pair holding `k` is replaced in
/// place, or the pair is added at the end.
pub open spec fn assoc_insert<K, V>(s: Seq<(K, V)>, k: K, v: V) -> Seq<(K, V)> {
    if exists|i: int| 0 <= i < s.len() && s[i].0 == k {
        let i = choose|i: int| 0 <= i < s.len() && s[i].0 == k;
        s.update(i, (k, v))
    } else {
        s.push((k, v))
    }
}

/// No key occurs twice.
pub open spec fn keys_unique<K, V>(s: Seq<(K, V)>) -> bool {
    forall|i: int, j: int| 0 <= i < s.len() && 0 <= j < s.len() && i != j ==> s[i].0 != s[j].0
}

pub proof fn lemma_assoc_insert_at<K, V>(s: Seq<(K, V)>, k: K, v: V, i: int)
    requires
        keys_unique(s),
        0 <= i < s.len(),
        s[i].0 == k,
    ensures
        assoc_insert(s, k, v) == s.update(i, (k, v)),
{
    let j = choose|j: int| 0 <= j < s.len() && s[j].0 == k;
    assert(i == j);
}

pub proof fn lemma_assoc_insert_unique<K, V>(s: Seq<(K, V)>, k: K, v: V)
    requires
        keys_unique(s),
    ensures
        keys_unique(assoc_insert(s, k, v)),
{
}

/// The entries that result from inserting `es`, in order, into `acc`.
pub open spec fn insert_all(acc: Seq<EntryView>, es: Seq<EntryView>) -> Seq<EntryView>
    decreases es.len(),
{
    if es.len() == 0 {
        acc
    } else {
        assoc_insert(insert_all(acc, es.drop_last()), es.last().0, es.last().1)
    }
}

/// The union of the glossaries: on a shared id the later glossary's entry wins.
pub open spec fn merge_all(gs: Seq<Seq<EntryView>>) -> Seq<EntryView>
    decreases gs.len(),
{
    if gs.len() == 0 {
        Seq::empty()
    } else {
        insert_all(merge_all(gs.drop_last()), gs.last())
    }
}

/// Source term to target term for every entry that has both languages;
/// a later entry with the same source term wins.
pub open spec fn translation_pairs(g: Seq<EntryView>, src: Seq<char>, tgt: Seq<char>) -> Seq<
    (Seq<char>, Seq<char>),
>
    decreases g.len(),
{
    if g.len() == 0 {
        Seq::empty()
    } else {
        let p = translation_pairs(g.drop_last(), src, tgt);
        let v = g.last().1;
        if term(v, src) is Some && term(v, tgt) is Some {
            assoc_insert(p, term(v, src)->Some_0, term(v, tgt)->Some_0)
        } else {
            p
        }
    }
}

/// `text` with each pair's source term replaced by its target term, pair by pair.
pub open spec fn apply_pairs(text: Seq<char>, ps: Seq<(Seq<char>, Seq<char>)>) -> Seq<char>
    decreases ps.len(),
{
    if ps.len() == 0 {
        text
    } else {
        replace_all(apply_pairs(text, ps.drop_last()), ps.last().0, ps.last().1)
    }
}

/// The value bound to key `k` among the pairs, if any.
pub open spec fn pair_lookup(ps: Seq<(Seq<char>, Seq<char>)>, k: Seq<char>) -> Option<Seq<char>> {
    if exists|i: int| 0 <= i < ps.len() && ps[i].0 == k {
        let i = choose|i: int| 0 <= i < ps.len() && ps[i].0 == k;
        Some(ps[i].1)
    } else {
        None
    }
}

/// The table row for the source term `word`: `source,target` and a
/// newline, when an entry has `word` as its source-language text and a
/// target-language text (the translation map's pair for `word`).
pub open spec fn csv_row(g: Seq<EntryView>, src: Seq<char>, tgt: Seq<char>, word: Seq<char>) -> Seq<
    char,
> {
    match pair_lookup(translation_pairs(g, src, tgt), word) {
        Some(t) => word + seq![','] + t + seq!['\n'],
        None => Seq::empty(),
    }
}

pub open spec fn csv_rows(g: Seq<EntryView>, src: Seq<char>, tgt: Seq<char>, words: Seq<Seq<char>>) -> Seq<
    char,
>
    decreases words.len(),
{
    if words.len() == 0 {
        Seq::empty()
    } else {
        csv_rows(g, src, tgt, words.drop_last()) + csv_row(g, src, tgt, words.last())
    }
}

/// A header row naming the two languages, then one row per requested word.
pub open spec fn csv_text(g: Seq<EntryView>, src: Seq<char>, tgt: Seq<char>, words: Seq<Seq<char>>) -> Seq<
    char,
> {
    src + seq![','] + tgt + seq!['\n'] + csv_rows(g, src, tgt, words)
}

/// The source terms, in entry order and each once, whose lower-case form
/// occurs in `lowered`.
pub open spec fn found_terms(g: Seq<EntryView>, lowered: Seq<char>, src: Seq<char>) -> Seq<Seq<char>>
    decreases g.len(),
{
    if g.len() == 0 {
        Seq::empty()
    } else {
        let f = found_terms(g.drop_last(), lowered, src);
        match term(g.last().1, src) {
            Some(a) => if contains_seq(lowered, lower_of(a)) && !f.contains(a) {
                f.push(a)
            } else {
                f
            },
            None => f,
        }
    }
}

pub open spec fn string_pair_views(v: Seq<(String, String)>) -> Seq<(Seq<char>, Seq<char>)> {
    v.map_values(|p: (String, String)| (p.0@, p.1@))
}

pub open spec fn str_pair_views(v: Seq<(&str, &str)>) -> Seq<(Seq<char>, Seq<char>)> {
    v.map_values(|p: (&str, &str)| (p.0@, p.1@))
}

pub open spec fn entry_views(s: Seq<(String, GlossaryItem)>) -> Seq<EntryView> {
    s.map_values(|e: (String, GlossaryItem)| (e.0@, e.1@))
}

/// The lower-case form of a text, as `str::to_lowercase` gives it.
pub uninterp spec fn lower_of(s: Seq<char>) -> Seq<char>;

/// Relies on `str::to_lowercase`: the result depends on the characters alone.
#[verifier::external_body]
pub(crate) fn lowercase(s: &str) -> (r: String)
    ensures
        r@ == lower_of(s@),
{
    s.to_lowercase()
}

fn opt_str(o: &Option<String>) -> (r: Option<&str>)
    ensures
        opt_str_view(r) == opt_view(*o),
{
    match o {
        Some(s) => Some(s.as_str()),
        None => None,
    }
}

fn nonempty(o: &Option<String>) -> (r: bool)
    ensures
        r == (opt_view(*o) is Some && opt_view(*o)->Some_0.len() > 0),
{
    match o {
        Some(s) => !s.as_str().is_empty(),
        None => false,
    }
}

fn copy_opt(o: &Option<String>) -> (r: Option<String>)
    ensures
        opt_view(r) == opt_view(*o),
{
    match o {
        Some(s) => Some(s.clone()),
        None => None,
    }
}

/// The slot of a supported language code.
fn slot_of(lang: &str) -> (r: Option<usize>)
    ensures
        lang_slot(lang@) == -1 ==> r is None,
        lang_slot(lang@) != -1 ==> r == Some(lang_slot(lang@) as usize),
{
    if str_eq(lang, "english") {
        Some(0)
    } else if str_eq(lang, "simp_chinese") {
        Some(1)
    } else if str_eq(lang, "spanish") {
        Some(2)
    } else if str_eq(lang, "french") {
        Some(3)
    } else if str_eq(lang, "braz_por") {
        Some(4)
    } else if str_eq(lang, "russian") {
        Some(5)
    } else if str_eq(lang, "german") {
        Some(6)
    } else if str_eq(lang, "japanese") {
        Some(7)
    } else if str_eq(lang, "korean") {
        Some(8)
    } else if str_eq(lang, "polish") {
        Some(9)
    } else {
        None
    }
}

/// One glossary entry: the term in each supported language that has one.
#[derive(Debug, Clone)]
pub struct GlossaryItem {
    pub english: Option<String>,
    pub simp_chinese: Option<String>,
    pub spanish: Option<String>,
    pub french: Option<String>,
    pub braz_por: Option<String>,
    pub russian: Option<String>,
    pub german: Option<String>,
    pub japanese: Option<String>,
    pub korean: Option<String>,
    pub polish: Option<String>,
}

impl View for GlossaryItem {
    type V = TermSlots;

    open spec fn view(&self) -> TermSlots {
        seq![
            opt_view(self.english),
            opt_view(self.simp_chinese),
            opt_view(self.spanish),
            opt_view(self.french),
            opt_view(self.braz_por),
            opt_view(self.russian),
            opt_view(self.german),
            opt_view(self.japanese),
            opt_view(self.korean),
            opt_view(self.polish),
        ]
    }
}

fn push_term<'a>(out: &mut Vec<(&'static str, &'a str)>, name: &'static str, o: &'a Option<String>)
    ensures
        str_pair_views(final(out)@) == str_pair_views(old(out)@) + match opt_view(*o) {
            Some(t) => seq![(name@, t)],
            None => Seq::<(Seq<char>, Seq<char>)>::empty(),
        },
{
    let ghost before = str_pair_views(out@);
    match o {
        Some(t) => {
            out.push((name, t.as_str()));
            assert(str_pair_views(out@) =~= before + seq![(name@, t@)]);
        },
        None => {
            assert(str_pair_views(out@) =~= before + Seq::<(Seq<char>, Seq<char>)>::empty());
        },
    }
}

impl GlossaryItem {
    fn copy(&self) -> (r: GlossaryItem)
        ensures
            r@ == self@,
    {
        GlossaryItem {
            english: copy_opt(&self.english),
            simp_chinese: copy_opt(&self.simp_chinese),
            spanish: copy_opt(&self.spanish),
            french: copy_opt(&self.french),
            braz_por: copy_opt(&self.braz_por),
            russian: copy_opt(&self.russian),
            german: copy_opt(&self.german),
            japanese: copy_opt(&self.japanese),
            korean: copy_opt(&self.korean),
            polish: copy_opt(&self.polish),
        }
    }

    /// The term for language code `lang`; none when the entry has no text
    /// for it or the code is not a supported language.
    pub fn get(&self, lang: &str) -> (r: Option<&str>)
        ensures
            opt_str_view(r) == term(self@, lang@),
    {
        match slot_of(lang) {
            Some(0) => opt_str(&self.english),
            Some(1) => opt_str(&self.simp_chinese),
            Some(2) => opt_str(&self.spanish),
            Some(3) => opt_str(&self.french),
            Some(4) => opt_str(&self.braz_por),
            Some(5) => opt_str(&self.russian),
            Some(6) => opt_str(&self.german),
            Some(7) => opt_str(&self.japanese),
            Some(8) => opt_str(&self.korean),
            Some(9) => opt_str(&self.polish),
            _ => None,
        }
    }

    /// Whether the entry has a term for language code `lang`.
    pub fn has_language(&self, lang: &str) -> (r: bool)
        ensures
            r == term(self@, lang@) is Some,
    {
        self.get(lang).is_some()
    }

    /// Each language that has a term, with the term, in slot order.
    pub fn all_terms(&self) -> (r: Vec<(&'static str, &str)>)
        ensures
            str_pair_views(r@) == present_terms(self@),
    {
        let mut out: Vec<(&'static str, &str)> = Vec::new();
        assert(str_pair_views(out@) =~= Seq::<(Seq<char>, Seq<char>)>::empty());
        push_term(&mut out, "english", &self.english);
        push_term(&mut out, "simp_chinese", &self.simp_chinese);
        push_term(&mut out, "spanish", &self.spanish);
        push_term(&mut out, "french", &self.french);
        push_term(&mut out, "braz_por", &self.braz_por);
        push_term(&mut out, "russian", &self.russian);
        push_term(&mut out, "german", &self.german);
        push_term(&mut out, "japanese", &self.japanese);
        push_term(&mut out, "korean", &self.korean);
        push_term(&mut out, "polish", &self.polish);
        assert(str_pair_views(out@) =~= present_terms(self@));
        out
    }
}

/// A glossary: entries keyed by term id, each id at most once, in the
/// order they were first inserted.
#[derive(Debug, Clone)]
pub struct Glossary {
    entries: Vec<(String, GlossaryItem)>,
}

impl View for Glossary {
    type V = Seq<EntryView>;

    closed spec fn view(&self) -> Seq<EntryView> {
        entry_views(self.entries@)
    }
}

/// Binds `k` to `v` among unique keys.
fn insert_pair(out: &mut Vec<(String, String)>, k: String, v: String)
    requires
        keys_unique(string_pair_views(old(out)@)),
    ensures
        string_pair_views(final(out)@) == assoc_insert(string_pair_views(old(out)@), k@, v@),
        keys_unique(string_pair_views(final(out)@)),
{
    let ghost before = string_pair_views(out@);
    proof {
        lemma_assoc_insert_unique(before, k@, v@);
    }
    let mut i: usize = 0;
    while i < out.len()
        invariant
            before == string_pair_views(out@),
            before == string_pair_views(old(out)@),
            keys_unique(before),
            i <= out@.len(),
            forall|t: int| 0 <= t < i ==> before[t].0 != k@,
        decreases out@.len() - i,
    {
        if str_eq(out[i].0.as_str(), k.as_str()) {
            proof {
                lemma_assoc_insert_at(before, k@, v@, i as int);
            }
            let ghost kv = k@;
            let ghost vv = v@;
            out.set(i, (k, v));
            assert(string_pair_views(out@) =~= before.update(i as int, (kv, vv)));
            assert(string_pair_views(out@) == assoc_insert(before, kv, vv));
            return;
        }
        i = i + 1;
    }
    let ghost kv = k@;
    let ghost vv = v@;
    out.push((k, v));
    assert(string_pair_views(out@) =~= before.push((kv, vv)));
}

impl Glossary {
    /// Ids are unique.
    pub open spec fn wf(&self) -> bool {
        keys_unique(self@)
    }

    /// A glossary with no entries.
    pub fn new() -> (r: Glossary)
        ensures
            r@ == Seq::<EntryView>::empty(),
            r.wf(),
    {
        let r = Glossary { entries: Vec::new() };
        assert(r@ =~= Seq::<EntryView>::empty());
        r
    }

    /// Adds the entry `item` under `id`; an entry already under `id` is replaced in place.
    pub fn insert(&mut self, id: String, item: GlossaryItem)
        requires
            old(self).wf(),
        ensures
            final(self)@ == assoc_insert(old(self)@, id@, item@),
            final(self).wf(),
    {
        let ghost before = self@;
        proof {
            lemma_assoc_insert_unique(before, id@, item@);
        }
        let mut i: usize = 0;
        while i < self.entries.len()
            invariant
                before == entry_views(self.entries@),
                before == old(self)@,
                keys_unique(before),
                i <= self.entries@.len(),
                forall|t: int| 0 <= t < i ==> before[t].0 != id@,
            decreases self.entries@.len() - i,
        {
            if str_eq(self.entries[i].0.as_str(), id.as_str()) {
                proof {
                    lemma_assoc_insert_at(before, id@, item@, i as int);
                }
                let ghost kv = id@;
                let ghost vv = item@;
                self.entries.set(i, (id, item));
                assert(self@ =~= before.update(i as int, (kv, vv)));
                assert(self@ == assoc_insert(before, kv, vv));
                return;
            }
            i = i + 1;
        }
        let ghost kv = id@;
        let ghost vv = item@;
        self.entries.push((id, item));
        assert(self@ =~= before.push((kv, vv)));
    }

    /// Number of entries.
    pub fn len(&self) -> (r: usize)
        ensures
            r == self@.len(),
    {
        self.entries.len()
    }

    /// Whether there are no entries.
    pub fn is_empty(&self) -> (r: bool)
        ensures
            r == (self@.len() == 0),
    {
        self.entries.len() == 0
    }

    /// The entries, as `(id, item)` pairs.
    pub fn entries(&self) -> (r: &Vec<(String, GlossaryItem)>)
        ensures
            entry_views(r@) == self@,
    {
        &self.entries
    }

    /// Source term to target term for every entry that has both languages.
    pub fn get_translation_map(&self, source_lang: &str, target_lang: &str) -> (r: Vec<(String, String)>)
        ensures
            string_pair_views(r@) == translation_pairs(self@, source_lang@, target_lang@),
            keys_unique(string_pair_views(r@)),
    {
        let ghost g = self@;
        let mut out: Vec<(String, String)> = Vec::new();
        let mut i: usize = 0;
        assert(g.subrange(0, 0) =~= Seq::<EntryView>::empty());
        assert(string_pair_views(out@) =~= Seq::<(Seq<char>, Seq<char>)>::empty());
        while i < self.entries.len()
            invariant
                g == self@,
                g == entry_views(self.entries@),
                i <= self.entries@.len(),
                string_pair_views(out@) == translation_pairs(g.subrange(0, i as int), source_lang@, target_lang@),
                keys_unique(string_pair_views(out@)),
            decreases self.entries@.len() - i,
        {
            let item = &self.entries[i].1;
            assert(g.subrange(0, i + 1).drop_last() =~= g.subrange(0, i as int));
            assert(g.subrange(0, i + 1).last().1 == item@);
            match item.get(source_lang) {
                Some(a) => match item.get(target_lang) {
                    Some(b) => {
                        insert_pair(&mut out, a.to_owned(), b.to_owned());
                    },
                    None => {},
                },
                None => {},
            }
            i = i + 1;
        }
        assert(g.subrange(0, g.len() as int) =~= g);
        out
    }

    /// `text` with each source term of the translation map replaced by its
    /// target term, one pair after the other in the map's order.
    pub fn apply(&self, text: &str, source_lang: &str, target_lang: &str) -> (r: String)
        ensures
            r@ == apply_pairs(text@, translation_pairs(self@, source_lang@, target_lang@)),
    {
        let pairs = self.get_translation_map(source_lang, target_lang);
        let ghost ps = string_pair_views(pairs@);
        let mut cur = chars_of(text);
        let mut i: usize = 0;
        assert(ps.subrange(0, 0) =~= Seq::<(Seq<char>, Seq<char>)>::empty());
        while i < pairs.len()
            invariant
                ps == string_pair_views(pairs@),
                i <= pairs@.len(),
                cur@ == apply_pairs(text@, ps.subrange(0, i as int)),
            decreases pairs@.len() - i,
        {
            let from = chars_of(pairs[i].0.as_str());
            let to = chars_of(pairs[i].1.as_str());
            assert(ps.subrange(0, i + 1).drop_last() =~= ps.subrange(0, i as int));
            cur = replace_chars(cur.as_slice(), from.as_slice(), to.as_slice());
            i = i + 1;
        }
        assert(ps.subrange(0, ps.len() as int) =~= ps);
        string_of(cur.as_slice())
    }

    /// A table of the requested source terms for embedding in a prompt: a
    /// header row `source_lang,target_lang`, then `source,target` for each
    /// word that an entry has as its source-language text together with a
    /// target-language text (the translation map's pair), in the given
    /// order. Each row ends with a newline.
    pub fn to_csv(&self, source_lang: &str, target_lang: &str, source_words: &[&str]) -> (r: String)
        ensures
            r@ == csv_text(self@, source_lang@, target_lang@, source_words@.map_values(|w: &str| w@)),
    {
        let ghost words = source_words@.map_values(|w: &str| w@);
        let pairs = self.get_translation_map(source_lang, target_lang);
        let ghost ps = string_pair_views(pairs@);
        let mut out: Vec<char> = Vec::new();
        push_str_chars(&mut out, source_lang);
        out.push(',');
        push_str_chars(&mut out, target_lang);
        out.push('\n');
        let ghost head = out@;
        assert(words.subrange(0, 0) =~= Seq::<Seq<char>>::empty());
        assert(out@ =~= head + csv_rows(self@, source_lang@, target_lang@, words.subrange(0, 0)));
        let mut i: usize = 0;
        while i < source_words.len()
            invariant
                words == source_words@.map_values(|w: &str| w@),
                ps == string_pair_views(pairs@),
                ps == translation_pairs(self@, source_lang@, target_lang@),
                keys_unique(ps),
                head == source_lang@ + seq![','] + target_lang@ + seq!['\n'],
                i <= source_words@.len(),
                out@ == head + csv_rows(self@, source_lang@, target_lang@, words.subrange(0, i as int)),
            decreases source_words@.len() - i,
        {
            let w = source_words[i];
            let ghost before = out@;
            assert(words.subrange(0, i + 1).drop_last() =~= words.subrange(0, i as int));
            assert(words.subrange(0, i + 1).last() == w@);
            let mut j: usize = 0;
            let mut found = false;
            while j < pairs.len()
                invariant
                    ps == string_pair_views(pairs@),
                    keys_unique(ps),
                    j <= pairs@.len(),
                    !found ==> forall|t: int| 0 <= t < j ==> ps[t].0 != w@,
                    !found ==> out@ == before,
                    found ==> out@ == before + csv_row(self@, source_lang@, target_lang@, w@),
                    ps == translation_pairs(self@, source_lang@, target_lang@),
                decreases pairs@.len() - j,
            {
                if !found && str_eq(pairs[j].0.as_str(), w) {
                    proof {
                        let c = choose|c: int| 0 <= c < ps.len() && ps[c].0 == w@;
                        assert(ps[j as int].0 == w@);
                        assert(c == j);
                    }
                    push_str_chars(&mut out, w);
                    out.push(',');
                    push_str_chars(&mut out, pairs[j].1.as_str());
                    out.push('\n');
                    assert(out@ =~= before + csv_row(self@, source_lang@, target_lang@, w@));
                    found = true;
                }
                j = j + 1;
            }
            if !found {
                assert(pair_lookup(ps, w@) is None);
                assert(out@ =~= before + csv_row(self@, source_lang@, target_lang@, w@));
            }
            i = i + 1;
        }
        assert(words.subrange(0, words.len() as int) =~= words);
        string_of(out.as_slice())
    }

    /// The source-language terms, in entry order and each once, whose
    /// lower-case form occurs in the already lower-cased text `lowered`.
    pub fn find_terms_in_lowered(&self, lowered: &str, source_lang: &str) -> (r: Vec<String>)
        ensures
            crate::validator::string_views(r@) == found_terms(self@, lowered@, source_lang@),
    {
        let ghost g = self@;
        let low = chars_of(lowered);
        let mut out: Vec<String> = Vec::new();
        let mut i: usize = 0;
        assert(g.subrange(0, 0) =~= Seq::<EntryView>::empty());
        assert(crate::validator::string_views(out@) =~= Seq::<Seq<char>>::empty());
        while i < self.entries.len()
            invariant
                g == self@,
                g == entry_views(self.entries@),
                low@ == lowered@,
                i <= self.entries@.len(),
                crate::validator::string_views(out@) == found_terms(g.subrange(0, i as int), lowered@, source_lang@),
            decreases self.entries@.len() - i,
        {
            let item = &self.entries[i].1;
            assert(g.subrange(0, i + 1).drop_last() =~= g.subrange(0, i as int));
            assert(g.subrange(0, i + 1).last().1 == item@);
            let ghost before = crate::validator::string_views(out@);
            match item.get(source_lang) {
                Some(a) => {
                    let la = lowercase(a);
                    let ac = chars_of(la.as_str());
                    if contains_chars(low.as_slice(), ac.as_slice()) {
                        let mut k: usize = 0;
                        let mut seen = false;
                        while k < out.len()
                            invariant
                                before == crate::validator::string_views(out@),
                                k <= out@.len(),
                                seen <==> exists|t: int| 0 <= t < k && before[t] == a@,
                            decreases out@.len() - k,
                        {
                            assert(before[k as int] == out@[k as int]@);
                            if str_eq(out[k].as_str(), a) {
                                seen = true;
                            }
                            proof {
                                if !seen {
                                    assert forall|t: int| 0 <= t < k + 1 implies before[t] != a@ by {
                                        if t < k {
                                            if before[t] == a@ {
                                                assert(exists|t2: int| 0 <= t2 < k && before[t2] == a@);
                                            }
                                        }
                                    }
                                }
                            }
                            k = k + 1;
                        }
                        if !seen {
                            let s = a.to_owned();
                            out.push(s);
                            assert(crate::validator::string_views(out@) =~= before.push(a@));
                        } else {
                            assert(before.contains(a@));
                        }
                    }
                },
                None => {},
            }
            i = i + 1;
        }
        assert(g.subrange(0, g.len() as int) =~= g);
        out
    }

    /// The source-language terms, in entry order and each once, that occur
    /// in `text` ignoring case (both are lower-cased). No word boundary is
    /// required, so a term may match inside a longer word.
    pub fn find_terms_in_text(&self, text: &str, source_lang: &str) -> (r: Vec<String>)
        ensures
            crate::validator::string_views(r@) == found_terms(self@, lower_of(text@), source_lang@),
    {
        let lowered = lowercase(text);
        self.find_terms_in_lowered(lowered.as_str(), source_lang)
    }

    /// The union of the glossaries; where an id occurs in several, the
    /// entry of the later glossary wins.
    pub fn merge_glossaries(glossaries: &[Glossary]) -> (r: Glossary)
        ensures
            r@ == merge_all(glossaries@.map_values(|g: Glossary| g@)),
            r.wf(),
    {
        let ghost gs = glossaries@.map_values(|g: Glossary| g@);
        let mut out = Glossary::new();
        let mut gi: usize = 0;
        assert(gs.subrange(0, 0) =~= Seq::<Seq<EntryView>>::empty());
        while gi < glossaries.len()
            invariant
                gs == glossaries@.map_values(|g: Glossary| g@),
                gi <= glossaries@.len(),
                out.wf(),
                out@ == merge_all(gs.subrange(0, gi as int)),
            decreases glossaries@.len() - gi,
        {
            let g = &glossaries[gi];
            let ghost base = out@;
            let ghost es = g@;
            let mut ei: usize = 0;
            assert(es.subrange(0, 0) =~= Seq::<EntryView>::empty());
            while ei < g.entries.len()
                invariant
                    es == g@,
                    es == entry_views(g.entries@),
                    ei <= g.entries@.len(),
                    out.wf(),
                    out@ == insert_all(base, es.subrange(0, ei as int)),
                decreases g.entries@.len() - ei,
            {
                let id = g.entries[ei].0.clone();
                let item = g.entries[ei].1.copy();
                assert(es.subrange(0, ei + 1).drop_last() =~= es.subrange(0, ei as int));
                assert(es.subrange(0, ei + 1).last() == (id@, item@));
                out.insert(id, item);
                ei = ei + 1;
            }
            assert(es.subrange(0, es.len() as int) =~= es);
            assert(gs.subrange(0, gi + 1).drop_last() =~= gs.subrange(0, gi as int));
            assert(gs.subrange(0, gi + 1).last() == es);
            gi = gi + 1;
        }
        assert(gs.subrange(0, gs.len() as int) =~= gs);
        out
    }
}

/// Language-pair filter: every pair of the translation map comes from one
/// entry that has both languages, the source term in the source language
/// and the target term in the target language. So no source term comes
/// from an entry that lacks the target language, and no target term from
/// an entry that lacks the source language.
pub proof fn lemma_translation_map_filter(g: Seq<EntryView>, src: Seq<char>, tgt: Seq<char>)
    ensures
        forall|k: int|
            0 <= k < translation_pairs(g, src, tgt).len() ==> exists|i: int|
                0 <= i < g.len() && term(g[i].1, src) == Some(
                    (#[trigger] translation_pairs(g, src, tgt)[k]).0,
                ) && term(g[i].1, tgt) == Some(translation_pairs(g, src, tgt)[k].1),
    decreases g.len(),
{
    if g.len() > 0 {
        let d = g.drop_last();
        lemma_translation_map_filter(d, src, tgt);
        let p = translation_pairs(d, src, tgt);
        let r = translation_pairs(g, src, tgt);
        let v = g.last().1;
        lemma_assoc_insert_elems(p, term(v, src)->Some_0, term(v, tgt)->Some_0);
        assert forall|k: int| 0 <= k < r.len() implies exists|i: int|
            0 <= i < g.len() && term(g[i].1, src) == Some((#[trigger] r[k]).0) && term(g[i].1, tgt)
                == Some(r[k].1) by {
            if term(v, src) is Some && term(v, tgt) is Some && r[k] == (term(v, src)->Some_0, term(
                v,
                tgt,
            )->Some_0) {
                assert(g[g.len() - 1].1 == v);
            } else {
                assert(r[k] == p[k]);
                let i = choose|i: int|
                    0 <= i < d.len() && term(d[i].1, src) == Some(p[k].0) && term(d[i].1, tgt) == Some(
                        p[k].1,
                    );
                assert(g[i] == d[i]);
            }
        }
    }
}

proof fn lemma_assoc_insert_elems<K, V>(s: Seq<(K, V)>, k: K, v: V)
    ensures
        assoc_insert(s, k, v).len() >= s.len(),
        forall|m: int|
            0 <= m < assoc_insert(s, k, v).len() ==> #[trigger] assoc_insert(s, k, v)[m] == (k, v) || (m
                < s.len() && assoc_insert(s, k, v)[m] == s[m]),
{
}

/// The slot that a numbered key of a glossary file names ("1" is english,
/// ... "10" is polish), or -1 for any other key.
pub open spec fn key_slot(key: Seq<char>) -> int {
    if key == "1"@ {
        0
    } else if key == "2"@ {
        1
    } else if key == "3"@ {
        2
    } else if key == "4"@ {
        3
    } else if key == "5"@ {
        4
    } else if key == "6"@ {
        5
    } else if key == "7"@ {
        6
    } else if key == "8"@ {
        7
    } else if key == "9"@ {
        8
    } else if key == "10"@ {
        9
    } else {
        -1
    }
}

pub open spec fn no_terms() -> TermSlots {
    seq![None, None, None, None, None, None, None, None, None, None]
}

/// The terms that numbered fields give: each recognised key with a text
/// fills its language (a later field wins); other keys are ignored.
pub open spec fn decode_fields(fs: Seq<(Seq<char>, Option<Seq<char>>)>) -> TermSlots
    decreases fs.len(),
{
    if fs.len() == 0 {
        no_terms()
    } else {
        let d = decode_fields(fs.drop_last());
        let i = key_slot(fs.last().0);
        if 0 <= i < 10 && fs.last().1 is Some {
            d.update(i, fs.last().1)
        } else {
            d
        }
    }
}

/// Every recognised key holds a text (a value that is not a string, under
/// a recognised key, makes the record malformed).
pub open spec fn fields_ok(fs: Seq<(Seq<char>, Option<Seq<char>>)>) -> bool {
    forall|i: int| 0 <= i < fs.len() && 0 <= key_slot(#[trigger] fs[i].0) ==> fs[i].1 is Some
}

/// A record's fields are kept: well formed, with a non-empty text in some
/// language.
pub open spec fn fields_accepted(fs: Seq<(Seq<char>, Option<Seq<char>>)>) -> bool {
    fields_ok(fs) && slots_any(decode_fields(fs))
}

pub open spec fn field_views(v: Seq<(String, Option<String>)>) -> Seq<(Seq<char>, Option<Seq<char>>)> {
    v.map_values(|p: (String, Option<String>)| (p.0@, opt_view(p.1)))
}

/// Slot `i` holds a non-empty text.
pub open spec fn filled(v: TermSlots, i: int) -> bool {
    v[i] is Some && v[i]->Some_0.len() > 0
}

/// At least one language has a non-empty text.
pub open spec fn slots_any(v: TermSlots) -> bool {
    exists|i: int| 0 <= i < v.len() && #[trigger] filled(v, i)
}

/// One record of a glossary file: its term id and, when the record is an
/// object, its fields: each key with its text, or none for a value that is
/// not a string. Fields whose value is null are left out.
#[derive(Debug, Clone)]
pub struct RawGlossaryEntry {
    pub id: String,
    pub fields: Option<Vec<(String, Option<String>)>>,
}

pub open spec fn raw_fields_view(e: RawGlossaryEntry) -> Option<Seq<(Seq<char>, Option<Seq<char>>)>> {
    match e.fields {
        Some(fs) => Some(field_views(fs@)),
        None => None,
    }
}

/// The glossary that records give: a malformed record, or one with no
/// non-empty text in a recognised language, is skipped; the rest are inserted in order.
pub open spec fn loaded_entries(es: Seq<RawGlossaryEntry>) -> Seq<EntryView>
    decreases es.len(),
{
    if es.len() == 0 {
        Seq::empty()
    } else {
        let g = loaded_entries(es.drop_last());
        let e = es.last();
        match raw_fields_view(e) {
            Some(fs) => if fields_accepted(fs) {
                assoc_insert(g, e.id@, decode_fields(fs))
            } else {
                g
            },
            None => g,
        }
    }
}

fn key_slot_of(key: &str) -> (r: usize)
    ensures
        key_slot(key@) == -1 ==> r == 10,
        key_slot(key@) != -1 ==> r == key_slot(key@),
{
    if str_eq(key, "1") {
        0
    } else if str_eq(key, "2") {
        1
    } else if str_eq(key, "3") {
        2
    } else if str_eq(key, "4") {
        3
    } else if str_eq(key, "5") {
        4
    } else if str_eq(key, "6") {
        5
    } else if str_eq(key, "7") {
        6
    } else if str_eq(key, "8") {
        7
    } else if str_eq(key, "9") {
        8
    } else if str_eq(key, "10") {
        9
    } else {
        10
    }
}

impl GlossaryItem {
    /// An entry with no term in any language.
    pub fn empty() -> (r: GlossaryItem)
        ensures
            r@ == no_terms(),
    {
        let r = GlossaryItem {
            english: None,
            simp_chinese: None,
            spanish: None,
            french: None,
            braz_por: None,
            russian: None,
            german: None,
            japanese: None,
            korean: None,
            polish: None,
        };
        assert(r@ =~= no_terms());
        r
    }

    fn set_slot(&mut self, i: usize, t: String)
        requires
            i < 10,
        ensures
            final(self)@ == old(self)@.update(i as int, Some(t@)),
    {
        let ghost before = self@;
        let ghost tv = t@;
        if i == 0 {
            self.english = Some(t);
        } else if i == 1 {
            self.simp_chinese = Some(t);
        } else if i == 2 {
            self.spanish = Some(t);
        } else if i == 3 {
            self.french = Some(t);
        } else if i == 4 {
            self.braz_por = Some(t);
        } else if i == 5 {
            self.russian = Some(t);
        } else if i == 6 {
            self.german = Some(t);
        } else if i == 7 {
            self.japanese = Some(t);
        } else if i == 8 {
            self.korean = Some(t);
        } else {
            self.polish = Some(t);
        }
        assert(self@ =~= before.update(i as int, Some(tv)));
    }

    fn any_term(&self) -> (r: bool)
        ensures
            r == slots_any(self@),
    {
        let r = nonempty(&self.english) || nonempty(&self.simp_chinese) || nonempty(&self.spanish)
            || nonempty(&self.french) || nonempty(&self.braz_por) || nonempty(&self.russian)
            || nonempty(&self.german) || nonempty(&self.japanese) || nonempty(&self.korean)
            || nonempty(&self.polish);
        proof {
            let v = self@;
            if r {
                if filled(v, 0) {} else if filled(v, 1) {} else if filled(v, 2) {
                } else if filled(v, 3) {} else if filled(v, 4) {} else if filled(v, 5) {
                } else if filled(v, 6) {} else if filled(v, 7) {} else if filled(v, 8) {
                } else { assert(filled(v, 9)); }
            } else {
                assert forall|i: int| 0 <= i < v.len() implies !#[trigger] filled(v, i) by {
                    if i == 0 {} else if i == 1 {} else if i == 2 {} else if i == 3 {} else if i == 4 {
                    } else if i == 5 {} else if i == 6 {} else if i == 7 {} else if i == 8 {} else {}
                }
            }
        }
        r
    }

    /// Decodes the numbered fields of a glossary record ("1" english, "2"
    /// simp_chinese, ... "10" polish; other keys are ignored). None when no
    /// language has a non-empty text: such a record is rejected.
    pub fn from_numbered_fields(fields: &Vec<(String, Option<String>)>) -> (r: Option<GlossaryItem>)
        ensures
            fields_accepted(field_views(fields@)) ==> (r matches Some(item) && item@ == decode_fields(
                field_views(fields@),
            )),
            !fields_accepted(field_views(fields@)) ==> r is None,
    {
        let ghost fs = field_views(fields@);
        let mut item = GlossaryItem::empty();
        let mut ok = true;
        let mut i: usize = 0;
        assert(fs.subrange(0, 0) =~= Seq::<(Seq<char>, Option<Seq<char>>)>::empty());
        while i < fields.len()
            invariant
                fs == field_views(fields@),
                i <= fields@.len(),
                item@ == decode_fields(fs.subrange(0, i as int)),
                ok == fields_ok(fs.subrange(0, i as int)),
            decreases fields@.len() - i,
        {
            let slot = key_slot_of(fields[i].0.as_str());
            let ghost pre = fs.subrange(0, i as int);
            let ghost cur = fs.subrange(0, i + 1);
            assert(cur.drop_last() =~= pre);
            assert(cur.last() == (fields@[i as int].0@, opt_view(fields@[i as int].1)));
            if slot < 10 {
                match &fields[i].1 {
                    Some(t) => {
                        item.set_slot(slot, t.clone());
                    },
                    None => {
                        ok = false;
                        assert(!fields_ok(cur)) by {
                            assert(0 <= key_slot(cur[i as int].0));
                        }
                    },
                }
            }
            proof {
                if ok {
                    assert forall|t: int| 0 <= t < cur.len() && 0 <= key_slot(#[trigger] cur[t].0)
                        implies cur[t].1 is Some by {
                        if t < i {
                            assert(cur[t] == pre[t]);
                        }
                    }
                } else if fields_ok(cur) {
                    assert forall|t: int| 0 <= t < pre.len() && 0 <= key_slot(#[trigger] pre[t].0)
                        implies pre[t].1 is Some by {
                        assert(cur[t] == pre[t]);
                    }
                }
            }
            i = i + 1;
        }
        assert(fs.subrange(0, fs.len() as int) =~= fs);
        if ok && item.any_term() {
            Some(item)
        } else {
            None
        }
    }
}

impl Glossary {
    /// Builds a glossary from the records of a glossary file. A record that
    /// is not an object of strings, or that names no supported language, is
    /// skipped and the rest are kept; a repeated id keeps its first place
    /// and takes the later record's terms.
    pub fn from_raw_entries(records: &Vec<RawGlossaryEntry>) -> (r: Glossary)
        ensures
            r@ == loaded_entries(records@),
            r.wf(),
    {
        let mut g = Glossary::new();
        let mut i: usize = 0;
        assert(records@.subrange(0, 0) =~= Seq::<RawGlossaryEntry>::empty());
        while i < records.len()
            invariant
                i <= records@.len(),
                g.wf(),
                g@ == loaded_entries(records@.subrange(0, i as int)),
            decreases records@.len() - i,
        {
            let rec = &records[i];
            assert(records@.subrange(0, i + 1).drop_last() =~= records@.subrange(0, i as int));
            assert(records@.subrange(0, i + 1).last() == *rec);
            match &rec.fields {
                Some(fs) => {
                    match GlossaryItem::from_numbered_fields(fs) {
                        Some(item) => {
                            g.insert(rec.id.clone(), item);
                        },
                        None => {},
                    }
                },
                None => {},
            }
            i = i + 1;
        }
        assert(records@.subrange(0, records@.len() as int) =~= records@);
        g
    }
}

} // verus!
