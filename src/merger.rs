//! Reassembling translated slices into one file.
use vstd::prelude::*;
use crate::chunker::{chunks_tile, is_chunking, FileChunk};
use crate::error::{PostprocessError, TranslationError};
use crate::text::{
    chars_of, contains_chars, contains_seq, join_lines, lemma_join_split,
    lines_of, push_all, string_of,
};

verus! {

/// A translated chunk, carrying the line range of the chunk it came from.
#[derive(Debug)]
pub struct TranslationSlice {
    pub content: String,
    pub start_line: usize,
    pub end_line: usize,
}

/// What merging looks at in a slice: its text and its line range.
pub struct SliceView {
    pub content: Seq<char>,
    pub start: int,
    pub end: int,
}

impl View for TranslationSlice {
    type V = SliceView;

    open spec fn view(&self) -> SliceView {
        SliceView { content: self.content@, start: self.start_line as int, end: self.end_line as int }
    }
}

pub open spec fn slice_views(v: Seq<TranslationSlice>) -> Seq<SliceView> {
    v.map_values(|s: TranslationSlice| s@)
}

/// `x` placed into `s` after every element whose start is not greater.
pub open spec fn insert_by_start(s: Seq<SliceView>, x: SliceView) -> Seq<SliceView>
    decreases s.len(),
{
    if s.len() == 0 {
        seq![x]
    } else if s.last().start <= x.start {
        s.push(x)
    } else {
        insert_by_start(s.drop_last(), x).push(s.last())
    }
}

/// `s` ordered by start line; slices with equal starts keep their order.
pub open spec fn sort_by_start(s: Seq<SliceView>) -> Seq<SliceView>
    decreases s.len(),
{
    if s.len() == 0 {
        s
    } else {
        insert_by_start(sort_by_start(s.drop_last()), s.last())
    }
}

/// Each slice starts on the line after the previous one ends.
pub open spec fn slices_contiguous(s: Seq<SliceView>) -> bool {
    forall|i: int| 1 <= i < s.len() ==> #[trigger] s[i].start == s[i - 1].end + 1
}

/// The texts of the slices, in order, joined by newlines.
pub open spec fn merged_text(s: Seq<SliceView>) -> Seq<char> {
    join_lines(s.map_values(|x: SliceView| x.content))
}

/// What merging gives: an error for no slices, an error for slices that
/// are not contiguous once ordered by start line, else their texts joined.
pub open spec fn merge_outcome(s: Seq<SliceView>) -> Option<Seq<char>> {
    if s.len() == 0 || !slices_contiguous(sort_by_start(s)) {
        None
    } else {
        Some(merged_text(sort_by_start(s)))
    }
}

/// The message of the error for slices that are not contiguous.
pub open spec fn not_contiguous_message() -> Seq<char> {
    "slices are not contiguous"@
}

/// The language header that precedes a merged body, if one is due.
pub open spec fn with_header(body: Seq<char>, header: Seq<char>) -> Seq<char> {
    if !contains_seq(body, seq!['l', '_']) && header.len() > 0 {
        header + seq!['\n'] + body
    } else {
        body
    }
}

proof fn lemma_insert_at(s: Seq<SliceView>, x: SliceView, p: int)
    requires
        0 <= p <= s.len(),
        forall|j: int| p <= j < s.len() ==> #[trigger] s[j].start > x.start,
        p > 0 ==> s[p - 1].start <= x.start,
    ensures
        insert_by_start(s, x) == s.subrange(0, p).push(x) + s.subrange(p, s.len() as int),
    decreases s.len(),
{
    if s.len() == 0 {
        assert(s.subrange(0, p).push(x) + s.subrange(p, s.len() as int) =~= seq![x]);
    } else if s.last().start <= x.start {
        assert(p == s.len());
        assert(s.subrange(0, p).push(x) + s.subrange(p, s.len() as int) =~= s.push(x));
    } else {
        let d = s.drop_last();
        lemma_insert_at(d, x, p);
        assert(insert_by_start(s, x) == insert_by_start(d, x).push(s.last()));
        assert(d.subrange(0, p).push(x) + d.subrange(p, d.len() as int) + seq![s.last()]
            =~= s.subrange(0, p).push(x) + s.subrange(p, s.len() as int));
        assert(d.subrange(0, p).push(x) + d.subrange(p, d.len() as int) + seq![s.last()]
            =~= (d.subrange(0, p).push(x) + d.subrange(p, d.len() as int)).push(s.last()));
    }
}

/// Stable ordering of `slices` by start line, as positions into `slices`.
fn order_by_start(slices: &Vec<TranslationSlice>) -> (r: Vec<usize>)
    ensures
        r@.len() == slices@.len(),
        forall|i: int| 0 <= i < r@.len() ==> #[trigger] r@[i] < slices@.len(),
        r@.map_values(|j: usize| slices@[j as int]@) == sort_by_start(slice_views(slices@)),
{
    let ghost sv = slice_views(slices@);
    let mut idx: Vec<usize> = Vec::new();
    let mut i: usize = 0;
    assert(sv.subrange(0, 0) =~= Seq::<SliceView>::empty());
    assert(idx@.map_values(|j: usize| slices@[j as int]@) =~= sort_by_start(sv.subrange(0, 0)));
    while i < slices.len()
        invariant
            sv == slice_views(slices@),
            i <= slices@.len(),
            idx@.len() == i,
            forall|t: int| 0 <= t < idx@.len() ==> #[trigger] idx@[t] < slices@.len(),
            idx@.map_values(|j: usize| slices@[j as int]@) == sort_by_start(sv.subrange(0, i as int)),
        decreases slices@.len() - i,
    {
        let ghost cur = idx@.map_values(|j: usize| slices@[j as int]@);
        let x = slices[i].start_line;
        let mut p: usize = idx.len();
        while p > 0 && slices[idx[p - 1]].start_line > x
            invariant
                p <= idx@.len(),
                cur == idx@.map_values(|j: usize| slices@[j as int]@),
                forall|t: int| 0 <= t < idx@.len() ==> #[trigger] idx@[t] < slices@.len(),
                forall|j: int| p <= j < cur.len() ==> #[trigger] cur[j].start > x,
            decreases p,
        {
            p = p - 1;
        }
        assert(sv[i as int] == slices@[i as int]@);
        proof {
            lemma_insert_at(cur, sv[i as int], p as int);
        }
        let ghost before = idx@;
        idx.insert(p, i);
        assert(idx@ == before.subrange(0, p as int).push(i) + before.subrange(p as int, before.len() as int));
        assert(sv.subrange(0, i + 1).drop_last() =~= sv.subrange(0, i as int));
        assert(sv.subrange(0, i + 1).last() == sv[i as int]);
        assert(idx@.map_values(|j: usize| slices@[j as int]@) =~= cur.subrange(0, p as int).push(
            sv[i as int],
        ) + cur.subrange(p as int, cur.len() as int));
        i = i + 1;
    }
    assert(sv.subrange(0, slices@.len() as int) =~= sv);
    idx
}

/// Joins the slices' texts with newlines, in order of their start lines.
/// Fails when there are no slices, and when the ordered slices are not
/// contiguous (a slice does not start on the line after the previous end).
pub fn merge_slices(slices: Vec<TranslationSlice>) -> (r: Result<String, TranslationError>)
    ensures
        slices@.len() == 0 ==> r == Err::<String, TranslationError>(
            TranslationError::Postprocess(PostprocessError::InconsistentSlices),
        ),
        slices@.len() > 0 && !slices_contiguous(sort_by_start(slice_views(slices@))) ==> (r matches Err(
            TranslationError::Postprocess(PostprocessError::MergeFailed(m)),
        ) && m@ == not_contiguous_message()),
        r is Ok <==> merge_outcome(slice_views(slices@)) is Some,
        r matches Ok(s) ==> Some(s@) == merge_outcome(slice_views(slices@)),
{
    if slices.len() == 0 {
        return Err(TranslationError::Postprocess(PostprocessError::InconsistentSlices));
    }
    let idx = order_by_start(&slices);
    let ghost sorted = sort_by_start(slice_views(slices@));
    assert(sorted.len() == idx@.len());
    let mut i: usize = 1;
    while i < idx.len()
        invariant
            sorted == sort_by_start(slice_views(slices@)),
            sorted == idx@.map_values(|j: usize| slices@[j as int]@),
            forall|t: int| 0 <= t < idx@.len() ==> #[trigger] idx@[t] < slices@.len(),
            1 <= i <= idx@.len(),
            forall|t: int| 1 <= t < i ==> #[trigger] sorted[t].start == sorted[t - 1].end + 1,
        decreases idx@.len() - i,
    {
        let prev = &slices[idx[i - 1]];
        let cur = &slices[idx[i]];
        assert(sorted[i as int] == cur@);
        assert(sorted[i - 1] == prev@);
        if prev.end_line == usize::MAX || cur.start_line != prev.end_line + 1 {
            assert(sorted[i as int].start != sorted[i - 1].end + 1);
            assert(!slices_contiguous(sorted));
            return Err(
                TranslationError::Postprocess(
                    PostprocessError::MergeFailed("slices are not contiguous".to_owned()),
                ),
            );
        }
        i = i + 1;
    }
    let ghost texts = sorted.map_values(|x: SliceView| x.content);
    let mut out: Vec<char> = Vec::new();
    let mut k: usize = 0;
    while k < idx.len()
        invariant
            sorted == sort_by_start(slice_views(slices@)),
            sorted == idx@.map_values(|j: usize| slices@[j as int]@),
            texts == sorted.map_values(|x: SliceView| x.content),
            forall|t: int| 0 <= t < idx@.len() ==> #[trigger] idx@[t] < slices@.len(),
            k <= idx@.len(),
            out@ == join_lines(texts.subrange(0, k as int)),
        decreases idx@.len() - k,
    {
        let ghost before = out@;
        if k > 0 {
            out.push('\n');
        }
        let cs = chars_of(slices[idx[k]].content.as_str());
        push_all(&mut out, cs.as_slice());
        let ghost r = texts.subrange(0, k + 1);
        assert(r.drop_last() =~= texts.subrange(0, k as int));
        assert(r.last() == texts[k as int]);
        if k == 0 {
            assert(out@ =~= join_lines(r));
        } else {
            assert(join_lines(r) == join_lines(r.drop_last()) + seq!['\n'] + r.last());
            assert(out@ =~= join_lines(r));
        }
        k = k + 1;
    }
    assert(texts.subrange(0, idx@.len() as int) =~= texts);
    Ok(string_of(out.as_slice()))
}

/// Merges the slices and puts `original_header` and a newline before the
/// body, unless the body already holds a language tag (`l_`) or the header
/// is empty.
pub fn reconstruct_yaml_file(slices: Vec<TranslationSlice>, original_header: &str) -> (r: Result<
    String,
    TranslationError,
>)
    ensures
        r is Ok <==> merge_outcome(slice_views(slices@)) is Some,
        r matches Ok(s) ==> s@ == with_header(
            merge_outcome(slice_views(slices@))->Some_0,
            original_header@,
        ),
        slices@.len() == 0 ==> r == Err::<String, TranslationError>(
            TranslationError::Postprocess(PostprocessError::InconsistentSlices),
        ),
        slices@.len() > 0 && !slices_contiguous(sort_by_start(slice_views(slices@))) ==> (r matches Err(
            TranslationError::Postprocess(PostprocessError::MergeFailed(m)),
        ) && m@ == not_contiguous_message()),
{
    let merged = match merge_slices(slices) {
        Ok(m) => m,
        Err(e) => {
            return Err(e);
        },
    };
    let body = chars_of(merged.as_str());
    let tag: Vec<char> = vec!['l', '_'];
    assert(tag@ =~= seq!['l', '_']);
    let head = chars_of(original_header);
    if !contains_chars(body.as_slice(), tag.as_slice()) && head.len() > 0 {
        let mut out: Vec<char> = Vec::new();
        push_all(&mut out, head.as_slice());
        out.push('\n');
        push_all(&mut out, body.as_slice());
        Ok(string_of(out.as_slice()))
    } else {
        Ok(merged)
    }
}

/// The slices that carry each chunk's text and line range unchanged.
pub open spec fn chunk_slice_views(cs: Seq<FileChunk>) -> Seq<SliceView> {
    cs.map_values(
        |c: FileChunk|
            SliceView { content: c.content@, start: c.start_line as int, end: c.end_line as int },
    )
}

proof fn lemma_sort_ordered(v: Seq<SliceView>)
    requires
        forall|i: int| 1 <= i < v.len() ==> #[trigger] v[i].start >= v[i - 1].start,
    ensures
        sort_by_start(v) == v,
    decreases v.len(),
{
    if v.len() > 0 {
        let d = v.drop_last();
        lemma_sort_ordered(d);
        if d.len() > 0 {
            assert(d.last() == v[v.len() - 2]);
        }
        assert(d.push(v.last()) =~= v);
    }
}

proof fn lemma_ends_ordered(cs: Seq<FileChunk>, i: int, j: int)
    requires
        chunks_tile(cs, cs.last().end_line as nat),
        0 <= i <= j < cs.len(),
    ensures
        cs[i].end_line <= cs[j].end_line,
    decreases j - i,
{
    if i < j {
        lemma_ends_ordered(cs, i, j - 1);
        assert(cs[j].start_line == cs[j - 1].end_line + 1);
    }
}

proof fn lemma_join_chunks(cs: Seq<FileChunk>, ls: Seq<Seq<char>>, m: int)
    requires
        chunks_tile(cs, ls.len()),
        cs.len() > 0,
        forall|i: int|
            0 <= i < cs.len() ==> (#[trigger] cs[i]).content@ == join_lines(
                ls.subrange(cs[i].start_line - 1, cs[i].end_line as int),
            ),
        1 <= m <= cs.len(),
    ensures
        join_lines(chunk_slice_views(cs).map_values(|x: SliceView| x.content).subrange(0, m))
            == join_lines(ls.subrange(0, cs[m - 1].end_line as int)),
    decreases m,
{
    let texts = chunk_slice_views(cs).map_values(|x: SliceView| x.content);
    assert(cs[m - 1].end_line <= ls.len()) by {
        lemma_ends_ordered(cs, m - 1, cs.len() - 1);
    }
    if m == 1 {
        assert(texts.subrange(0, 1).len() == 1);
        assert(texts[0] == cs[0].content@);
    } else {
        lemma_join_chunks(cs, ls, m - 1);
        let r = texts.subrange(0, m);
        assert(r.drop_last() =~= texts.subrange(0, m - 1));
        assert(r.last() == cs[m - 1].content@);
        assert(cs[m - 1].start_line == cs[m - 2].end_line + 1);
        assert(join_lines(r) == join_lines(r.drop_last()) + seq!['\n'] + r.last());
        lemma_join_split(ls, 0, cs[m - 2].end_line as int, cs[m - 1].end_line as int);
    }
}

/// Round trip: the chunks of a text with at least one line, handed to
/// merging with their texts and line ranges unchanged, merge back into the
/// text's lines joined by newlines: no line added, removed or reordered.
pub proof fn lemma_merge_split_round_trip(
    cs: Seq<FileChunk>,
    name: Seq<char>,
    text: Seq<char>,
    budget: nat,
)
    requires
        lines_of(text).len() > 0,
        is_chunking(cs, name, text, budget),
    ensures
        merge_outcome(chunk_slice_views(cs)) == Some(join_lines(lines_of(text))),
{
    let ls = lines_of(text);
    let v = chunk_slice_views(cs);
    assert(cs.len() > 0);
    assert forall|i: int| 1 <= i < v.len() implies #[trigger] v[i].start >= v[i - 1].start by {
        assert(cs[i].start_line == cs[i - 1].end_line + 1);
    }
    lemma_sort_ordered(v);
    assert forall|i: int| 1 <= i < v.len() implies #[trigger] v[i].start == v[i - 1].end + 1 by {
        assert(cs[i].start_line == cs[i - 1].end_line + 1);
    }
    lemma_join_chunks(cs, ls, cs.len() as int);
    let texts = v.map_values(|x: SliceView| x.content);
    assert(texts.subrange(0, cs.len() as int) =~= texts);
    assert(ls.subrange(0, ls.len() as int) =~= ls);
}

/// Contiguity: the chunks of any text start each on the line after the
/// previous chunk ends.
pub proof fn lemma_split_contiguous(cs: Seq<FileChunk>, name: Seq<char>, text: Seq<char>, budget: nat)
    requires
        is_chunking(cs, name, text, budget),
    ensures
        forall|i: int| 0 <= i < cs.len() - 1 ==> #[trigger] cs[i + 1].start_line == cs[i].end_line + 1,
{
    assert forall|i: int| 0 <= i < cs.len() - 1 implies #[trigger] cs[i + 1].start_line == cs[i].end_line
        + 1 by {
        assert(cs[(i + 1)].start_line == cs[(i + 1) - 1].end_line + 1);
    }
}

} // verus!
