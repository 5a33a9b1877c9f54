//! Estimates of how many backend tokens a text costs.
//!
//! Text with no CJK character costs one token per four characters. Text
//! with at least one CJK character costs 1.5 tokens per CJK character and
//! 0.25 tokens per other character. Both are rounded up.
use vstd::prelude::*;

verus! {

/// Whether `c` lies in one of the CJK ideograph blocks.
pub open spec fn is_cjk(c: char) -> bool {
    let u = c as u32;
    (0x4E00 <= u <= 0x9FFF) || (0x3400 <= u <= 0x4DBF) || (0x20000 <= u <= 0x2A6DF) || (
    0x2A700 <= u <= 0x2B73F) || (0x2B740 <= u <= 0x2B81F) || (0x2B820 <= u <= 0x2CEAF) || (
    0xF900 <= u <= 0xFAFF) || (0x2F800 <= u <= 0x2FA1F)
}

/// Number of CJK characters in `s`.
pub open spec fn cjk_count(s: Seq<char>) -> nat
    decreases s.len(),
{
    if s.len() == 0 {
        0
    } else {
        cjk_count(s.drop_last()) + if is_cjk(s.last()) {
            1nat
        } else {
            0nat
        }
    }
}

/// `a / b` rounded up.
pub open spec fn ceil_div(a: nat, b: nat) -> nat
    recommends
        b > 0,
{
    ((a + b - 1) as nat) / b
}

/// One token per four characters, rounded up.
pub open spec fn english_tokens(s: Seq<char>) -> nat {
    ceil_div(s.len(), 4)
}

/// 1.5 tokens per CJK character plus 0.25 per other character, rounded up
/// (counted in quarter tokens: six per CJK character, one per other).
pub open spec fn chinese_tokens(s: Seq<char>) -> nat {
    ceil_div(6 * cjk_count(s) + (s.len() - cjk_count(s)) as nat, 4)
}

/// The blended rate when `s` holds a CJK character, else the plain rate.
pub open spec fn mixed_tokens(s: Seq<char>) -> nat {
    if cjk_count(s) > 0 {
        chinese_tokens(s)
    } else {
        english_tokens(s)
    }
}

/// 0.67 characters per token when `is_chinese`, else four, rounded up.
pub open spec fn chars_for_tokens(max_tokens: nat, is_chinese: bool) -> nat {
    if is_chinese {
        ceil_div(67 * max_tokens, 100)
    } else {
        4 * max_tokens
    }
}

pub proof fn lemma_cjk_count_bound(s: Seq<char>)
    ensures
        cjk_count(s) <= s.len(),
    decreases s.len(),
{
    if s.len() > 0 {
        lemma_cjk_count_bound(s.drop_last());
    }
}

/// Whether `c` lies in one of the CJK ideograph blocks.
pub fn is_cjk_character(c: char) -> (r: bool)
    ensures
        r == is_cjk(c),
{
    let u = c as u32;
    (0x4E00 <= u && u <= 0x9FFF) || (0x3400 <= u && u <= 0x4DBF) || (0x20000 <= u && u <= 0x2A6DF)
        || (0x2A700 <= u && u <= 0x2B73F) || (0x2B740 <= u && u <= 0x2B81F) || (0x2B820 <= u && u
        <= 0x2CEAF) || (0xF900 <= u && u <= 0xFAFF) || (0x2F800 <= u && u <= 0x2FA1F)
}

/// Number of CJK characters in `s`.
pub(crate) fn count_cjk(s: &[char]) -> (r: usize)
    ensures
        r == cjk_count(s@),
{
    let mut n: usize = 0;
    let mut i: usize = 0;
    while i < s.len()
        invariant
            i <= s@.len(),
            n == cjk_count(s@.subrange(0, i as int)),
            n <= i,
        decreases s@.len() - i,
    {
        assert(s@.subrange(0, i as int + 1).drop_last() == s@.subrange(0, i as int));
        if is_cjk_character(s[i]) {
            n = n + 1;
        }
        i = i + 1;
    }
    assert(s@.subrange(0, s@.len() as int) == s@);
    n
}

/// `a / 4` rounded up, without overflow.
fn ceil_quarter(a: usize) -> (r: usize)
    ensures
        r == ceil_div(a as nat, 4),
{
    if a % 4 == 0 {
        a / 4
    } else {
        a / 4 + 1
    }
}

/// Token estimate of a character sequence at the plain rate.
pub(crate) fn english_tokens_of(s: &[char]) -> (r: usize)
    ensures
        r == english_tokens(s@),
{
    ceil_quarter(s.len())
}

/// Token estimate of a character sequence at the blended rate.
pub(crate) fn chinese_tokens_of(s: &[char]) -> (r: usize)
    requires
        s@.len() <= usize::MAX / 2,
    ensures
        r == chinese_tokens(s@),
{
    let c = count_cjk(s);
    proof {
        lemma_cjk_count_bound(s@);
    }
    let n = s.len();
    // six quarters per CJK character and one per other: c + (c + n) / 4
    let r = c + ceil_quarter(c + n);
    assert(6 * c + (n - c) == 4 * c + (c + n));
    r
}

/// Token estimate of a character sequence: blended rate if it holds a CJK
/// character, else the plain rate.
pub(crate) fn mixed_tokens_of(s: &[char]) -> (r: usize)
    requires
        s@.len() <= usize::MAX / 2,
    ensures
        r == mixed_tokens(s@),
{
    let c = count_cjk(s);
    if c > 0 {
        chinese_tokens_of(s)
    } else {
        english_tokens_of(s)
    }
}

/// Token estimate of English text: one token per four characters, rounded up.
pub fn estimate_english_tokens(text: &str) -> (r: usize)
    ensures
        r == english_tokens(text@),
{
    let cs = crate::text::chars_of(text);
    english_tokens_of(cs.as_slice())
}

/// Token estimate at the blended rate: 1.5 per CJK character and 0.25 per
/// other character, rounded up.
pub fn estimate_chinese_tokens(text: &str) -> (r: usize)
    requires
        text@.len() <= usize::MAX / 2,
    ensures
        r == chinese_tokens(text@),
{
    let cs = crate::text::chars_of(text);
    chinese_tokens_of(cs.as_slice())
}

/// Token estimate of text in any script.
pub fn estimate_mixed_tokens(text: &str) -> (r: usize)
    requires
        text@.len() <= usize::MAX / 2,
    ensures
        r == mixed_tokens(text@),
{
    let cs = crate::text::chars_of(text);
    mixed_tokens_of(cs.as_slice())
}

/// The number of characters that fit in `max_tokens` tokens.
pub fn max_chars_for_tokens(max_tokens: usize, is_chinese: bool) -> (r: usize)
    requires
        is_chinese || max_tokens <= usize::MAX / 4,
    ensures
        r == chars_for_tokens(max_tokens as nat, is_chinese),
{
    if is_chinese {
        let q = max_tokens / 100;
        let rem = max_tokens % 100;
        let t = 67 * rem;
        let extra = if t % 100 == 0 {
            t / 100
        } else {
            t / 100 + 1
        };
        assert(67 * max_tokens == 100 * (67 * q) + t) by (nonlinear_arith)
            requires
                max_tokens == 100 * q + rem,
                t == 67 * rem,
        ;
        assert(67 * q <= max_tokens) by (nonlinear_arith)
            requires
                max_tokens == 100 * q + rem,
        ;
        assert(ceil_div((67 * max_tokens) as nat, 100) == 67 * q + extra) by (nonlinear_arith)
            requires
                67 * max_tokens == 100 * (67 * q) + t,
                0 <= t < 6700,
                (t % 100 == 0 ==> extra == t / 100),
                (t % 100 != 0 ==> extra == t / 100 + 1),
        ;
        67 * q + extra
    } else {
        4 * max_tokens
    }
}

} // verus!
