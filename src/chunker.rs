//! Splitting a file's content into line-aligned chunks within a token budget.
use vstd::prelude::*;
use crate::error::TranslationError;
use crate::text::{chars_of, join_lines, lines_of, pieces, push_all, string_of, strip_cr};
use crate::tokens::{mixed_tokens, mixed_tokens_of};

verus! {

/// One line-aligned piece of a file, with its 1-based line range.
#[derive(Debug)]
pub struct FileChunk {
    pub content: String,
    pub start_line: usize,
    pub end_line: usize,
    pub target_filename: String,
}

/// The views of a sequence of lines held as vectors.
pub open spec fn line_views(v: Seq<Vec<char>>) -> Seq<Seq<char>> {
    v.map_values(|l: Vec<char>| l@)
}

/// Sum of the token estimates of lines `a .. b` (0-based, `b` excluded).
pub open spec fn line_tokens(ls: Seq<Seq<char>>, a: int, b: int) -> nat
    decreases b - a,
{
    if b <= a {
        0
    } else {
        line_tokens(ls, a, b - 1) + mixed_tokens(ls[b - 1])
    }
}

/// Consecutive chunks are adjacent: each starts on the line after the
/// previous one ends.
pub open spec fn chunks_contiguous(cs: Seq<FileChunk>) -> bool {
    forall|i: int| 1 <= i < cs.len() ==> #[trigger] cs[i].start_line == cs[i - 1].end_line + 1
}

/// The chunks cover lines `1 ..= n` in order, each at least one line long.
pub open spec fn chunks_tile(cs: Seq<FileChunk>, n: nat) -> bool {
    &&& (cs.len() == 0 <==> n == 0)
    &&& cs.len() > 0 ==> cs[0].start_line == 1 && cs.last().end_line == n
    &&& forall|i: int| 0 <= i < cs.len() ==> 1 <= #[trigger] cs[i].start_line <= cs[i].end_line
    &&& chunks_contiguous(cs)
}

/// Every chunk of two or more lines keeps the sum of its lines' estimates
/// within `budget`; only a chunk of one line may exceed it.
pub open spec fn chunks_within_budget(cs: Seq<FileChunk>, ls: Seq<Seq<char>>, budget: nat) -> bool {
    forall|i: int|
        0 <= i < cs.len() && #[trigger] cs[i].end_line > cs[i].start_line ==> line_tokens(
            ls,
            cs[i].start_line - 1,
            cs[i].end_line as int,
        ) <= budget
}

/// No chunk but the last could have taken the next line within `budget`.
pub open spec fn chunks_greedy(cs: Seq<FileChunk>, ls: Seq<Seq<char>>, budget: nat) -> bool {
    forall|i: int|
        0 <= i < cs.len() - 1 ==> line_tokens(ls, #[trigger] cs[i].start_line - 1, cs[i].end_line + 1)
            > budget
}

/// The chunking of `text` into `cs` for `budget`: chunks tile the lines in
/// order, hold exactly their lines joined by newlines, keep within the
/// budget and are as long as the budget allows.
pub open spec fn is_chunking(cs: Seq<FileChunk>, name: Seq<char>, text: Seq<char>, budget: nat) -> bool {
    is_line_chunking(cs, name, lines_of(text), budget)
}

/// The chunking of the lines `ls` into `cs` for `budget`.
pub open spec fn is_line_chunking(cs: Seq<FileChunk>, name: Seq<char>, ls: Seq<Seq<char>>, budget: nat) -> bool {
    &&& chunks_tile(cs, ls.len())
    &&& forall|i: int|
        0 <= i < cs.len() ==> (#[trigger] cs[i]).content@ == join_lines(
            ls.subrange(cs[i].start_line - 1, cs[i].end_line as int),
        ) && cs[i].target_filename@ == name
    &&& chunks_within_budget(cs, ls, budget)
    &&& chunks_greedy(cs, ls, budget)
}

/// The pieces of `cs` between newline characters.
fn split_pieces(cs: &[char]) -> (r: Vec<Vec<char>>)
    ensures
        line_views(r@) == pieces(cs@),
{
    let mut out: Vec<Vec<char>> = Vec::new();
    let mut cur: Vec<char> = Vec::new();
    let mut i: usize = 0;
    assert(cs@.subrange(0, 0) =~= Seq::<char>::empty());
    assert(line_views(out@).push(cur@) =~= pieces(cs@.subrange(0, 0)));
    while i < cs.len()
        invariant
            i <= cs@.len(),
            line_views(out@).push(cur@) == pieces(cs@.subrange(0, i as int)),
        decreases cs@.len() - i,
    {
        let c = cs[i];
        let ghost pre = cs@.subrange(0, i as int);
        assert(cs@.subrange(0, i as int + 1).drop_last() =~= pre);
        assert(cs@.subrange(0, i as int + 1).last() == c);
        if c == '\n' {
            let ghost old_views = line_views(out@);
            let ghost done_view = cur@;
            out.push(cur);
            cur = Vec::new();
            assert(line_views(out@) =~= old_views.push(done_view));
        } else {
            let ghost before = cur@;
            cur.push(c);
            let ghost p = pieces(pre);
            assert(p.last() == before);
            assert(line_views(out@).push(cur@) =~= p.update(p.len() - 1, p.last().push(c)));
        }
        i = i + 1;
    }
    assert(cs@.subrange(0, cs@.len() as int) =~= cs@);
    let ghost v = line_views(out@).push(cur@);
    out.push(cur);
    assert(line_views(out@) =~= v);
    out
}

/// The lines of `cs`, as `str::lines` gives them.
pub(crate) fn split_lines(cs: &[char]) -> (r: Vec<Vec<char>>)
    ensures
        line_views(r@) == lines_of(cs@),
{
    let ps = split_pieces(cs);
    let ghost pv = pieces(cs@);
    proof {
        crate::text::lemma_pieces_nonempty(cs@);
    }
    let last = ps.len() - 1;
    let ghost body = pv.drop_last().map_values(|l: Seq<char>| strip_cr(l));
    let mut out: Vec<Vec<char>> = Vec::new();
    let mut i: usize = 0;
    while i < last
        invariant
            pv == line_views(ps@),
            last == pv.len() - 1,
            body == pv.drop_last().map_values(|l: Seq<char>| strip_cr(l)),
            i <= last,
            line_views(out@) == body.subrange(0, i as int),
        decreases last - i,
    {
        let mut line: Vec<char> = Vec::new();
        push_all(&mut line, ps[i].as_slice());
        assert(line@ == pv[i as int]);
        let n = line.len();
        if n > 0 && line[n - 1] == '\r' {
            line.pop();
        }
        assert(line@ =~= strip_cr(pv[i as int]));
        let ghost before = line_views(out@);
        out.push(line);
        assert(line_views(out@) =~= before.push(strip_cr(pv[i as int])));
        assert(body.subrange(0, i + 1) =~= body.subrange(0, i as int).push(body[i as int]));
        i = i + 1;
    }
    assert(body.subrange(0, last as int) =~= body);
    if ps[last].len() > 0 {
        let mut line: Vec<char> = Vec::new();
        push_all(&mut line, ps[last].as_slice());
        let ghost before = line_views(out@);
        out.push(line);
        assert(line_views(out@) =~= before.push(pv.last()));
    }
    out
}

/// Splits `content` into chunks of whole lines. A chunk is closed before a
/// line that would take the sum of its lines' token estimates over
/// `max_chunk_tokens`; a line over the budget on its own is a chunk alone.
/// Empty content gives no chunks.
pub fn split_yaml_content(target_filename: &str, content: &str, max_chunk_tokens: usize) -> (r:
    Result<Vec<FileChunk>, TranslationError>)
    requires
        content@.len() <= usize::MAX / 2,
    ensures
        r is Ok,
        r matches Ok(cs) ==> is_chunking(cs@, target_filename@, content@, max_chunk_tokens as nat),
{
    let cs = chars_of(content);
    let ls = split_lines(cs.as_slice());
    proof {
        crate::text::lemma_lines_len(content@);
    }
    Ok(chunk_lines(target_filename, &ls, max_chunk_tokens))
}

/// Greedy chunking of the lines `ls`.
#[verifier::rlimit(100)]
fn chunk_lines(target_filename: &str, ls: &Vec<Vec<char>>, max_chunk_tokens: usize) -> (r: Vec<FileChunk>)
    requires
        forall|j: int| 0 <= j < ls@.len() ==> (#[trigger] line_views(ls@)[j]).len() <= usize::MAX / 2,
    ensures
        is_line_chunking(r@, target_filename@, line_views(ls@), max_chunk_tokens as nat),
{
    let ghost lv = line_views(ls@);
    let n = ls.len();
    let mut chunks: Vec<FileChunk> = Vec::new();
    if n == 0 {
        return chunks;
    }
    let budget = max_chunk_tokens;
    let mut buf: Vec<char> = Vec::new();
    let mut count: usize = 0;
    let mut a: usize = 0;
    let mut k: usize = 0;
    while k < n
        invariant
            lv == line_views(ls@),
            n == lv.len(),
            0 < n,
            forall|j: int| 0 <= j < lv.len() ==> (#[trigger] lv[j]).len() <= usize::MAX / 2,
            a <= k <= n,
            k > 0 ==> a < k,
            count == line_tokens(lv, a as int, k as int),
            k > a ==> buf@ == join_lines(lv.subrange(a as int, k as int)),
            k == a ==> buf@ == Seq::<char>::empty(),
            forall|i: int| 0 <= i < chunks@.len() ==> #[trigger] chunks@[i].end_line <= a,
            k >= a + 2 ==> count <= budget,
            (chunks@.len() == 0 <==> a == 0),
            chunks@.len() > 0 ==> chunks@[0].start_line == 1 && chunks@.last().end_line == a,
            forall|i: int|
                0 <= i < chunks@.len() ==> 1 <= #[trigger] chunks@[i].start_line
                    <= chunks@[i].end_line,
            chunks_contiguous(chunks@),
            forall|i: int|
                0 <= i < chunks@.len() ==> (#[trigger] chunks@[i]).content@ == join_lines(
                    lv.subrange(chunks@[i].start_line - 1, chunks@[i].end_line as int),
                ) && chunks@[i].target_filename@ == target_filename@,
            chunks_within_budget(chunks@, lv, budget as nat),
            forall|i: int|
                0 <= i < chunks@.len() ==> line_tokens(
                    lv,
                    #[trigger] chunks@[i].start_line - 1,
                    chunks@[i].end_line + 1,
                ) > budget,
        decreases n - k,
    {
        let line = &ls[k];
        assert(line@ == lv[k as int]);
        let e = mixed_tokens_of(line.as_slice());
        if k > a && (count > budget || e > budget - count) {
            let ghost old_chunks = chunks@;
            let chunk = FileChunk {
                content: string_of(buf.as_slice()),
                start_line: a + 1,
                end_line: k,
                target_filename: target_filename.to_owned(),
            };
            chunks.push(chunk);
            assert(chunks@ == old_chunks.push(chunk));
            assert(chunks@[chunks@.len() - 1] == chunk);
            assert(line_tokens(lv, a as int, k + 1) == count + e);
            assert forall|i: int| 1 <= i < chunks@.len() implies #[trigger] chunks@[i].start_line
                == chunks@[i - 1].end_line + 1 by {
                if i < old_chunks.len() {
                    assert(chunks@[i] == old_chunks[i]);
                    assert(chunks@[i - 1] == old_chunks[i - 1]);
                }
            }
            buf = Vec::new();
            push_all(&mut buf, line.as_slice());
            assert(lv.subrange(k as int, k + 1) =~= seq![lv[k as int]]);
            count = e;
            a = k;
            assert(line_tokens(lv, a as int, a as int) == 0);
        } else {
            let ghost old_buf = buf@;
            if k > a {
                buf.push('\n');
            }
            push_all(&mut buf, line.as_slice());
            assert(k > a ==> buf@ == old_buf + seq!['\n'] + line@);
            let ghost r = lv.subrange(a as int, k + 1);
            assert(r.drop_last() =~= lv.subrange(a as int, k as int));
            assert(r.last() == lv[k as int]);
            if k == a {
                assert(r.len() == 1);
                assert(buf@ =~= join_lines(r));
            } else {
                assert(r.len() == k + 1 - a);
                assert(join_lines(r) == join_lines(r.drop_last()) + seq!['\n'] + r.last());
                assert(buf@ =~= join_lines(r));
            }
            count = count + e;
        }
        k = k + 1;
    }
    let ghost old_chunks = chunks@;
    let last = FileChunk {
        content: string_of(buf.as_slice()),
        start_line: a + 1,
        end_line: n,
        target_filename: target_filename.to_owned(),
    };
    chunks.push(last);
    assert(chunks@ == old_chunks.push(last));
    assert forall|i: int| 1 <= i < chunks@.len() implies #[trigger] chunks@[i].start_line
        == chunks@[i - 1].end_line + 1 by {
        if i < old_chunks.len() {
            assert(chunks@[i] == old_chunks[i]);
            assert(chunks@[i - 1] == old_chunks[i - 1]);
        }
    }
    assert forall|i: int| 0 <= i < chunks@.len() implies (#[trigger] chunks@[i]).content@
        == join_lines(lv.subrange(chunks@[i].start_line - 1, chunks@[i].end_line as int))
        && chunks@[i].target_filename@ == target_filename@ by {
        if i < old_chunks.len() {
            assert(chunks@[i] == old_chunks[i]);
        }
    }
    assert forall|i: int| 0 <= i < chunks@.len() implies 1 <= #[trigger] chunks@[i].start_line
        <= chunks@[i].end_line by {
        if i < old_chunks.len() {
            assert(chunks@[i] == old_chunks[i]);
        }
    }
    assert forall|i: int| 0 <= i < chunks@.len() - 1 implies line_tokens(
        lv,
        #[trigger] chunks@[i].start_line - 1,
        chunks@[i].end_line + 1,
    ) > budget by {
        assert(chunks@[i] == old_chunks[i]);
    }
    assert(chunks_within_budget(chunks@, lv, budget as nat)) by {
        assert forall|i: int|
            0 <= i < chunks@.len() && #[trigger] chunks@[i].end_line > chunks@[i].start_line
            implies line_tokens(lv, chunks@[i].start_line - 1, chunks@[i].end_line as int)
            <= budget by {
            if i < old_chunks.len() {
                assert(chunks@[i] == old_chunks[i]);
            }
        }
    }
    chunks
}

} // verus!
