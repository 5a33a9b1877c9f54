//! Preparation of a file's text before chunking: byte-order mark, language
//! header, and the formatting repairs of game localisation files.
use vstd::prelude::*;
use crate::chunker::{line_views, split_lines};
use crate::error::TranslationError;
use crate::text::{chars_of, join_lines, lines_of, push_all, push_str_chars, string_of};

verus! {

/// Whether `c` is white space in Unicode's sense (as `char::is_whitespace`).
pub open spec fn is_ws(c: char) -> bool {
    let u = c as u32;
    (9 <= u <= 13) || u == 0x20 || u == 0x85 || u == 0xA0 || u == 0x1680 || (0x2000 <= u <= 0x200A)
        || u == 0x2028 || u == 0x2029 || u == 0x202F || u == 0x205F || u == 0x3000
}

/// Bytes that `c` takes in UTF-8.
pub open spec fn utf8_len(c: char) -> nat {
    let u = c as u32;
    if u < 0x80 {
        1
    } else if u < 0x800 {
        2
    } else if u < 0x10000 {
        3
    } else {
        4
    }
}

/// Number of white-space characters that `s` starts with.
pub open spec fn leading_ws(s: Seq<char>) -> nat
    decreases s.len(),
{
    if s.len() > 0 && is_ws(s[0]) {
        1 + leading_ws(s.drop_first())
    } else {
        0
    }
}

/// UTF-8 bytes of the first `k` characters of `s`.
pub open spec fn prefix_bytes(s: Seq<char>, k: int) -> nat
    decreases k,
{
    if k <= 0 || s.len() == 0 {
        0
    } else {
        prefix_bytes(s, k - 1) + utf8_len(s[k - 1])
    }
}

/// `n` spaces.
pub open spec fn spaces(n: nat) -> Seq<char> {
    Seq::new(n, |i: int| ' ')
}

/// The line with its leading white space replaced by spaces: as many as
/// the UTF-8 bytes of that white space, rounded down to an even number.
pub open spec fn reindent(line: Seq<char>) -> Seq<char> {
    let k = leading_ws(line);
    spaces(prefix_bytes(line, k as int) / 2 * 2) + line.subrange(k as int, line.len() as int)
}

/// Every line of `s` re-indented, joined again by newlines.
pub open spec fn reindent_all(s: Seq<char>) -> Seq<char> {
    join_lines(lines_of(s).map_values(|l: Seq<char>| reindent(l)))
}

/// `s` without the byte-order marks it starts with.
pub open spec fn strip_bom_spec(s: Seq<char>) -> Seq<char>
    decreases s.len(),
{
    if s.len() > 0 && s[0] == '\u{FEFF}' {
        strip_bom_spec(s.drop_first())
    } else {
        s
    }
}

/// Whether `s` is only white space.
pub open spec fn all_ws(s: Seq<char>) -> bool {
    forall|i: int| 0 <= i < s.len() ==> is_ws(#[trigger] s[i])
}

/// The language header of a file in language `lang`: `l_<lang>:`.
pub open spec fn header_of(lang: Seq<char>) -> Seq<char> {
    seq!['l', '_'] + lang + seq![':']
}

/// `s` without white space at either end.
pub open spec fn trim_spec(s: Seq<char>) -> Seq<char> {
    let a = leading_ws(s) as int;
    let t = s.subrange(a, s.len() as int);
    t.subrange(0, t.len() - trailing_ws(t))
}

/// Number of white-space characters that `s` ends with.
pub open spec fn trailing_ws(s: Seq<char>) -> nat
    decreases s.len(),
{
    if s.len() > 0 && is_ws(s.last()) {
        1 + trailing_ws(s.drop_last())
    } else {
        0
    }
}

/// The text as `key:0 "value"` repaired to `key: "value"` (the pattern
/// `(\w+):0\s+"([^"]+)"` replaced by `$1: "$2"`).
pub uninterp spec fn key_zero_fixed(s: Seq<char>) -> Seq<char>;

/// The text with unquoted values quoted (the pattern
/// `(\w+):\s+([^"\s][^"\n]*)(?:\n|$)` replaced by `$1: "$2"`).
pub uninterp spec fn values_quoted(s: Seq<char>) -> Seq<char>;

/// Repairs `key:0 "value"` to `key: "value"`.
/// Relies on `regex::Regex::replace_all` with the pattern
/// `(\w+):0\s+"([^"]+)"` and the replacement `$1: "$2"`: the result depends
/// on the text alone. The pattern is a valid constant, so compiling it
/// does not fail.
#[verifier::external_body]
pub fn fix_key_zero_format(text: &str) -> (r: String)
    ensures
        r@ == key_zero_fixed(text@),
{
    let re = regex::Regex::new(r#"(\w+):0\s+"([^"]+)""#).unwrap();
    re.replace_all(text, r#"$1: "$2""#).into_owned()
}

/// Puts quotes round unquoted values.
/// Relies on `regex::Regex::replace_all` with the pattern
/// `(\w+):\s+([^"\s][^"\n]*)(?:\n|$)` and the replacement `$1: "$2"`: the
/// result depends on the text alone. The pattern is a valid constant, so
/// compiling it does not fail.
#[verifier::external_body]
pub fn quote_unquoted_values(text: &str) -> (r: String)
    ensures
        r@ == values_quoted(text@),
{
    let re = regex::Regex::new(r#"(\w+):\s+([^"\s][^"\n]*)(?:\n|$)"#).unwrap();
    re.replace_all(text, r#"$1: "$2""#).into_owned()
}

fn is_ws_char(c: char) -> (r: bool)
    ensures
        r == is_ws(c),
{
    let u = c as u32;
    (9 <= u && u <= 13) || u == 0x20 || u == 0x85 || u == 0xA0 || u == 0x1680 || (0x2000 <= u && u
        <= 0x200A) || u == 0x2028 || u == 0x2029 || u == 0x202F || u == 0x205F || u == 0x3000
}

fn utf8_len_of(c: char) -> (r: u8)
    ensures
        r == utf8_len(c),
{
    let u = c as u32;
    if u < 0x80 {
        1
    } else if u < 0x800 {
        2
    } else if u < 0x10000 {
        3
    } else {
        4
    }
}

proof fn lemma_leading_ws_step(s: Seq<char>, k: int)
    requires
        0 <= k <= s.len(),
        forall|t: int| 0 <= t < k ==> is_ws(#[trigger] s[t]),
    ensures
        leading_ws(s) == k + leading_ws(s.subrange(k, s.len() as int)),
    decreases k,
{
    if k > 0 {
        let d = s.drop_first();
        lemma_leading_ws_step(d, k - 1);
        assert(d.subrange(k - 1, d.len() as int) =~= s.subrange(k, s.len() as int));
    } else {
        assert(s.subrange(0, s.len() as int) =~= s);
    }
}

/// `line` re-indented.
fn reindent_line(line: &[char]) -> (r: Vec<char>)
    ensures
        r@ == reindent(line@),
{
    let mut k: usize = 0;
    let mut bytes: u128 = 0;
    while k < line.len() && is_ws_char(line[k])
        invariant
            k <= line@.len(),
            forall|t: int| 0 <= t < k ==> is_ws(#[trigger] line@[t]),
            bytes == prefix_bytes(line@, k as int),
            bytes <= 4 * k,
        decreases line@.len() - k,
    {
        bytes = bytes + utf8_len_of(line[k]) as u128;
        k = k + 1;
    }
    proof {
        lemma_leading_ws_step(line@, k as int);
        let rest = line@.subrange(k as int, line@.len() as int);
        if k < line@.len() {
            assert(rest[0] == line@[k as int]);
        }
        assert(leading_ws(rest) == 0);
    }
    let n = bytes / 2 * 2;
    let mut out: Vec<char> = Vec::new();
    let mut j: u128 = 0;
    while j < n
        invariant
            j <= n,
            out@ == spaces(j as nat),
        decreases n - j,
    {
        out.push(' ');
        j = j + 1;
        assert(out@ =~= spaces(j as nat));
    }
    let mut t = k;
    let ghost head = out@;
    while t < line.len()
        invariant
            k <= t <= line@.len(),
            out@ == head + line@.subrange(k as int, t as int),
        decreases line@.len() - t,
    {
        out.push(line[t]);
        t = t + 1;
        assert(out@ =~= head + line@.subrange(k as int, t as int));
    }
    out
}

/// Each line's leading white space replaced by an even number of spaces
/// (the UTF-8 bytes of that white space, rounded down to even).
pub fn normalize_indentation(text: &str) -> (r: String)
    ensures
        r@ == reindent_all(text@),
{
    let cs = chars_of(text);
    let ls = split_lines(cs.as_slice());
    let ghost lv = line_views(ls@);
    let ghost target = lv.map_values(|l: Seq<char>| reindent(l));
    let mut out: Vec<char> = Vec::new();
    let mut i: usize = 0;
    assert(target.subrange(0, 0) =~= Seq::<Seq<char>>::empty());
    while i < ls.len()
        invariant
            lv == line_views(ls@),
            target == lv.map_values(|l: Seq<char>| reindent(l)),
            i <= ls@.len(),
            out@ == join_lines(target.subrange(0, i as int)),
        decreases ls@.len() - i,
    {
        if i > 0 {
            out.push('\n');
        }
        let line = reindent_line(ls[i].as_slice());
        push_all(&mut out, line.as_slice());
        let ghost r = target.subrange(0, i + 1);
        assert(r.drop_last() =~= target.subrange(0, i as int));
        assert(r.last() == reindent(lv[i as int]));
        if i == 0 {
            assert(out@ =~= join_lines(r));
        } else {
            assert(join_lines(r) == join_lines(r.drop_last()) + seq!['\n'] + r.last());
            assert(out@ =~= join_lines(r));
        }
        i = i + 1;
    }
    assert(target.subrange(0, target.len() as int) =~= target);
    string_of(out.as_slice())
}

/// Repairs the formatting of a localisation file: `key:0 "value"` becomes
/// `key: "value"`, unquoted values are quoted, and each line's indentation
/// becomes an even number of spaces.
pub fn fix_yaml_content(content: &str) -> (r: Result<String, TranslationError>)
    ensures
        r matches Ok(s) && s@ == reindent_all(values_quoted(key_zero_fixed(content@))),
{
    let a = fix_key_zero_format(content);
    let b = quote_unquoted_values(a.as_str());
    Ok(normalize_indentation(b.as_str()))
}

/// Rejects content that is empty or only white space.
pub fn validate_yaml_content(content: &str) -> (r: Result<(), TranslationError>)
    ensures
        r is Ok <==> !all_ws(content@),
        r matches Err(e) ==> e is InvalidYaml,
{
    let cs = chars_of(content);
    let mut i: usize = 0;
    while i < cs.len()
        invariant
            cs@ == content@,
            i <= cs@.len(),
            forall|t: int| 0 <= t < i ==> is_ws(#[trigger] cs@[t]),
        decreases cs@.len() - i,
    {
        if !is_ws_char(cs[i]) {
            return Ok(());
        }
        i = i + 1;
    }
    Err(TranslationError::InvalidYaml("Empty content".to_owned()))
}

/// The text as it is: line endings and spacing are kept.
pub fn normalize_text(content: &str) -> (r: Result<String, TranslationError>)
    ensures
        r matches Ok(s) && s@ == content@,
{
    Ok(content.to_owned())
}

/// The text without the byte-order marks at its start.
pub fn strip_bom(content: &str) -> (r: String)
    ensures
        r@ == strip_bom_spec(content@),
{
    let cs = chars_of(content);
    let mut k: usize = 0;
    assert(cs@.subrange(0, cs@.len() as int) =~= cs@);
    while k < cs.len() && cs[k] == '\u{FEFF}'
        invariant
            k <= cs@.len(),
            strip_bom_spec(cs@) == strip_bom_spec(cs@.subrange(k as int, cs@.len() as int)),
        decreases cs@.len() - k,
    {
        let ghost x = cs@.subrange(k as int, cs@.len() as int);
        assert(x.drop_first() =~= cs@.subrange(k + 1, cs@.len() as int));
        k = k + 1;
    }
    proof {
        let x = cs@.subrange(k as int, cs@.len() as int);
        if k < cs@.len() {
            assert(x[0] == cs@[k as int]);
        }
        if k == 0 {
            assert(x =~= cs@);
        }
    }
    let mut out: Vec<char> = Vec::new();
    let mut t = k;
    while t < cs.len()
        invariant
            k <= t <= cs@.len(),
            out@ == cs@.subrange(k as int, t as int),
        decreases cs@.len() - t,
    {
        out.push(cs[t]);
        t = t + 1;
        assert(out@ =~= cs@.subrange(k as int, t as int));
    }
    string_of(out.as_slice())
}

/// The language header `l_<lang>:`.
pub fn lang_header(lang: &str) -> (r: String)
    ensures
        r@ == header_of(lang@),
{
    let mut v: Vec<char> = vec!['l', '_'];
    push_str_chars(&mut v, lang);
    v.push(':');
    assert(v@ =~= header_of(lang@));
    string_of(v.as_slice())
}

proof fn lemma_trailing_ws_step(s: Seq<char>, k: int)
    requires
        0 <= k <= s.len(),
        forall|t: int| s.len() - k <= t < s.len() ==> is_ws(#[trigger] s[t]),
    ensures
        trailing_ws(s) == k + trailing_ws(s.subrange(0, s.len() - k)),
    decreases k,
{
    if k > 0 {
        let d = s.drop_last();
        assert forall|t: int| d.len() - (k - 1) <= t < d.len() implies is_ws(#[trigger] d[t]) by {
            assert(d[t] == s[t]);
        }
        lemma_trailing_ws_step(d, k - 1);
        assert(d.subrange(0, d.len() - (k - 1)) =~= s.subrange(0, s.len() - k));
    } else {
        assert(s.subrange(0, s.len() as int) =~= s);
    }
}

/// `s` without white space at either end.
fn trim_chars(s: &[char]) -> (r: Vec<char>)
    ensures
        r@ == trim_spec(s@),
{
    let mut a: usize = 0;
    while a < s.len() && is_ws_char(s[a])
        invariant
            a <= s@.len(),
            forall|t: int| 0 <= t < a ==> is_ws(#[trigger] s@[t]),
        decreases s@.len() - a,
    {
        a = a + 1;
    }
    let ghost m = s@.subrange(a as int, s@.len() as int);
    proof {
        lemma_leading_ws_step(s@, a as int);
        if a < s@.len() {
            assert(m[0] == s@[a as int]);
        }
        assert(leading_ws(m) == 0);
    }
    let mut b: usize = s.len();
    while b > a && is_ws_char(s[b - 1])
        invariant
            a <= b <= s@.len(),
            m == s@.subrange(a as int, s@.len() as int),
            forall|t: int| b <= t < s@.len() ==> is_ws(#[trigger] s@[t]),
        decreases b - a,
    {
        b = b - 1;
    }
    proof {
        let k = s@.len() - b;
        assert forall|t: int| m.len() - k <= t < m.len() implies is_ws(#[trigger] m[t]) by {
            assert(m[t] == s@[a + t]);
        }
        lemma_trailing_ws_step(m, k);
        let inner = m.subrange(0, m.len() - k);
        if inner.len() > 0 {
            assert(inner.last() == s@[b - 1]);
        }
        assert(trailing_ws(inner) == 0);
    }
    let mut out: Vec<char> = Vec::new();
    let mut t = a;
    while t < b
        invariant
            a <= t <= b,
            b <= s@.len(),
            out@ == s@.subrange(a as int, t as int),
        decreases b - t,
    {
        out.push(s[t]);
        t = t + 1;
        assert(out@ =~= s@.subrange(a as int, t as int));
    }
    assert(out@ =~= m.subrange(0, m.len() - (s@.len() - b)));
    out
}

/// Splits off the language header. When the first line, without white
/// space at its ends, is `l_<lang>:`, gives that line and the lines after
/// it; else an empty header and the text unchanged.
pub fn trim_lang_header(lang: &str, content: &str) -> (r: (String, String))
    ensures
        ({
            let ls = lines_of(content@);
            if ls.len() > 0 && trim_spec(ls[0]) == header_of(lang@) {
                r.0@ == ls[0] && r.1@ == join_lines(ls.drop_first())
            } else {
                r.0@ == Seq::<char>::empty() && r.1@ == content@
            }
        }),
{
    let cs = chars_of(content);
    let ls = split_lines(cs.as_slice());
    let ghost lv = line_views(ls@);
    let head = lang_header(lang);
    let hc = chars_of(head.as_str());
    if ls.len() == 0 {
        return (String::new(), content.to_owned());
    }
    let first = trim_chars(ls[0].as_slice());
    assert(ls@[0]@ == lv[0]);
    if !crate::text::chars_eq(first.as_slice(), hc.as_slice()) {
        return (String::new(), content.to_owned());
    }
    let ghost rest = lv.drop_first();
    let mut out: Vec<char> = Vec::new();
    let mut i: usize = 1;
    assert(lv.subrange(1, 1) =~= Seq::<Seq<char>>::empty());
    while i < ls.len()
        invariant
            lv == line_views(ls@),
            1 <= i <= ls@.len(),
            out@ == join_lines(lv.subrange(1, i as int)),
        decreases ls@.len() - i,
    {
        if i > 1 {
            out.push('\n');
        }
        push_all(&mut out, ls[i].as_slice());
        let ghost r = lv.subrange(1, i + 1);
        assert(r.drop_last() =~= lv.subrange(1, i as int));
        assert(r.last() == lv[i as int]);
        if i == 1 {
            assert(out@ =~= join_lines(r));
        } else {
            assert(join_lines(r) == join_lines(r.drop_last()) + seq!['\n'] + r.last());
            assert(out@ =~= join_lines(r));
        }
        i = i + 1;
    }
    assert(lv.subrange(1, lv.len() as int) =~= rest);
    (string_of(ls[0].as_slice()), string_of(out.as_slice()))
}

} // verus!
