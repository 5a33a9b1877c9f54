//! Output file names.
use vstd::prelude::*;
use crate::text::{chars_of, push_all, push_str_chars, replace_all, replace_chars, string_of};

verus! {

/// `"l_"` followed by `lang`.
pub open spec fn lang_tag(lang: Seq<char>) -> Seq<char> {
    seq!['l', '_'] + lang
}

/// `"_"`, `lang`, then `ext`.
pub open spec fn lang_suffix(lang: Seq<char>, ext: Seq<char>) -> Seq<char> {
    seq!['_'] + lang + ext
}

pub open spec fn yml_ext() -> Seq<char> {
    seq!['.', 'y', 'm', 'l']
}

pub open spec fn yaml_ext() -> Seq<char> {
    seq!['.', 'y', 'a', 'm', 'l']
}

/// The output name: `l_<source>` becomes `l_<target>`, then
/// `_<source>.yml` and `_<source>.yaml` take the target language.
pub open spec fn target_filename(name: Seq<char>, source: Seq<char>, target: Seq<char>) -> Seq<
    char,
> {
    let a = replace_all(name, lang_tag(source), lang_tag(target));
    let b = replace_all(a, lang_suffix(source, yml_ext()), lang_suffix(target, yml_ext()));
    replace_all(b, lang_suffix(source, yaml_ext()), lang_suffix(target, yaml_ext()))
}

/// Whether `name` ends with `.yml` or `.yaml`.
pub open spec fn is_yaml_name(name: Seq<char>) -> bool {
    (name.len() >= 4 && name.subrange(name.len() - 4, name.len() as int) == yml_ext()) || (
    name.len() >= 5 && name.subrange(name.len() - 5, name.len() as int) == yaml_ext())
}

fn tag_chars(lang: &str) -> (r: Vec<char>)
    ensures
        r@ == lang_tag(lang@),
{
    let mut v: Vec<char> = vec!['l', '_'];
    push_str_chars(&mut v, lang);
    assert(v@ =~= lang_tag(lang@));
    v
}

fn suffix_chars(lang: &str, yaml: bool) -> (r: Vec<char>)
    ensures
        r@ == lang_suffix(lang@, if yaml { yaml_ext() } else { yml_ext() }),
{
    let mut v: Vec<char> = vec!['_'];
    push_str_chars(&mut v, lang);
    let ext: Vec<char> = if yaml {
        vec!['.', 'y', 'a', 'm', 'l']
    } else {
        vec!['.', 'y', 'm', 'l']
    };
    push_all(&mut v, ext.as_slice());
    assert(v@ =~= lang_suffix(lang@, if yaml { yaml_ext() } else { yml_ext() }));
    v
}

/// The name of the translated file: the source language's tag in
/// `source_filename` is replaced by the target language's.
pub fn generate_target_filename(source_filename: &str, source_lang: &str, target_lang: &str) -> (r:
    String)
    ensures
        r@ == target_filename(source_filename@, source_lang@, target_lang@),
{
    let name = chars_of(source_filename);
    let a = replace_chars(name.as_slice(), tag_chars(source_lang).as_slice(), tag_chars(target_lang).as_slice());
    let b = replace_chars(
        a.as_slice(),
        suffix_chars(source_lang, false).as_slice(),
        suffix_chars(target_lang, false).as_slice(),
    );
    let c = replace_chars(
        b.as_slice(),
        suffix_chars(source_lang, true).as_slice(),
        suffix_chars(target_lang, true).as_slice(),
    );
    string_of(c.as_slice())
}

/// Whether `name` ends with `.yml` or `.yaml`.
pub fn has_yaml_extension(name: &str) -> (r: bool)
    ensures
        r == is_yaml_name(name@),
{
    let cs = chars_of(name);
    let n = cs.len();
    let yml: Vec<char> = vec!['.', 'y', 'm', 'l'];
    let yaml: Vec<char> = vec!['.', 'y', 'a', 'm', 'l'];
    assert(yml@ =~= yml_ext());
    assert(yaml@ =~= yaml_ext());
    let a = n >= 4 && crate::text::matches_at(cs.as_slice(), yml.as_slice(), n - 4);
    let b = n >= 5 && crate::text::matches_at(cs.as_slice(), yaml.as_slice(), n - 5);
    a || b
}

} // verus!
