//! Decisions of the translation orchestrator: what to send for a chunk,
//! what a response gives, when to retry, and how a batch's outcomes combine.
//! Sending requests and waiting belong to the caller.
use vstd::prelude::*;
use crate::chunker::FileChunk;
use crate::error::{error_text, TranslateError, TranslationError};
use crate::glossary::{lower_of, EntryView, Glossary};
use crate::merger::TranslationSlice;
use crate::models::{system_message, user_message, ChatCompletionResponse, ChatMessage};
use crate::prompt::{build_system_prompt, is_system_prompt};
use crate::text::{chars_of, join_sep, join_strings, push_all, string_of};
use crate::validator::{string_views, validation_issues, FormatValidator};

verus! {

/// Delay before the first retry, in milliseconds.
pub const RETRY_BASE_DELAY_MS: u64 = 500;

/// Attempts after which the delay stops doubling and grows linearly.
pub const RETRY_MAX_DOUBLINGS: u32 = 20;

pub open spec fn pow2(n: nat) -> nat
    decreases n,
{
    if n == 0 {
        1
    } else {
        2 * pow2((n - 1) as nat)
    }
}

/// Delay before retry number `attempt + 1`: the base delay doubled per
/// attempt (up to the cap), plus one second per attempt.
pub open spec fn backoff_ms(attempt: nat) -> nat {
    let e = if attempt < RETRY_MAX_DOUBLINGS { attempt } else { RETRY_MAX_DOUBLINGS as nat };
    (RETRY_BASE_DELAY_MS as nat) * pow2(e) + 1000 * attempt
}

/// Failures that a retry may cure: a failed transport or a rate limit.
pub open spec fn is_retryable(e: TranslateError) -> bool {
    e is ApiRequest || e is RateLimited
}

proof fn lemma_pow2_mono(a: nat, b: nat)
    requires
        a <= b,
    ensures
        pow2(a) <= pow2(b),
        pow2(a) >= 1,
    decreases b,
{
    if b > 0 && a < b {
        lemma_pow2_mono(a, (b - 1) as nat);
    }
    if a > 0 {
        lemma_pow2_mono((a - 1) as nat, (a - 1) as nat);
    }
}

/// Backoff grows strictly from one attempt to the next.
pub proof fn lemma_backoff_increasing(a: nat, b: nat)
    requires
        a < b,
    ensures
        backoff_ms(a) < backoff_ms(b),
{
    let ea = if a < RETRY_MAX_DOUBLINGS { a } else { RETRY_MAX_DOUBLINGS as nat };
    let eb = if b < RETRY_MAX_DOUBLINGS { b } else { RETRY_MAX_DOUBLINGS as nat };
    lemma_pow2_mono(ea, eb);
    assert(500 * pow2(ea) <= 500 * pow2(eb)) by (nonlinear_arith)
        requires
            pow2(ea) <= pow2(eb),
    ;
}

/// The delay before the retry that follows failed attempt `attempt`
/// (0 for the first request).
pub fn retry_delay_ms(attempt: u32) -> (r: u64)
    ensures
        r == backoff_ms(attempt as nat),
{
    let e = if attempt < RETRY_MAX_DOUBLINGS { attempt } else { RETRY_MAX_DOUBLINGS };
    let mut p: u64 = 1;
    let mut i: u32 = 0;
    while i < e
        invariant
            i <= e <= 20,
            p == pow2(i as nat),
            p <= 1048576,
        decreases e - i,
    {
        proof {
            lemma_pow2_mono(i as nat + 1, 20);
            reveal_with_fuel(pow2, 21);
            assert(pow2(20) == 1048576);
        }
        p = p * 2;
        i = i + 1;
    }
    RETRY_BASE_DELAY_MS * p + 1000 * (attempt as u64)
}

/// Whether to retry after attempt `attempt` (0 for the first request)
/// failed with `error`, and after what delay: only a transport failure or
/// a rate limit is retried, at most `max_retries` times.
pub fn retry_decision(error: &TranslateError, attempt: u32, max_retries: u32) -> (r: Option<u64>)
    ensures
        r is Some <==> is_retryable(*error) && attempt < max_retries,
        r matches Some(d) ==> d == backoff_ms(attempt as nat),
{
    let retryable = match error {
        TranslateError::ApiRequest(_) => true,
        TranslateError::RateLimited => true,
        _ => false,
    };
    if retryable && attempt < max_retries {
        Some(retry_delay_ms(attempt))
    } else {
        None
    }
}

/// What an HTTP status of the backend means for a request.
#[derive(Debug, Clone, Copy, PartialEq, Eq)]
pub enum StatusClass {
    Success,
    AuthenticationFailed,
    RateLimited,
    Failed,
}

/// Sorts an HTTP status: 2xx succeeds; 401 and 403 are authentication
/// failures; 429 is a rate limit; anything else fails.
pub fn classify_status(status: u16) -> (r: StatusClass)
    ensures
        200 <= status < 300 <==> r == StatusClass::Success,
        (status == 401 || status == 403) <==> r == StatusClass::AuthenticationFailed,
        status == 429 <==> r == StatusClass::RateLimited,
{
    if 200 <= status && status < 300 {
        StatusClass::Success
    } else if status == 401 || status == 403 {
        StatusClass::AuthenticationFailed
    } else if status == 429 {
        StatusClass::RateLimited
    } else {
        StatusClass::Failed
    }
}

/// The translator's read-only state, shared by every chunk of a run: the
/// merged glossary, the marker validator and the prompt template.
pub struct Translator {
    glossary: Glossary,
    validator: FormatValidator,
    template: String,
}

impl Translator {
    pub closed spec fn wf(&self) -> bool {
        self.glossary.wf() && self.validator.wf()
    }

    pub closed spec fn glossary_view(&self) -> Seq<EntryView> {
        self.glossary@
    }

    pub closed spec fn template_view(&self) -> Seq<char> {
        self.template@
    }

    /// A translator over `glossary` with prompt template `template`.
    pub fn new(glossary: Glossary, template: String) -> (r: Translator)
        requires
            glossary.wf(),
        ensures
            r.wf(),
            r.glossary_view() == glossary@,
            r.template_view() == template@,
    {
        Translator { glossary, validator: FormatValidator::new(), template }
    }

    /// The system prompt for `source_text`.
    pub fn build_prompt(&self, source_lang: &str, target_lang: &str, source_text: &str) -> (r: String)
        requires
            self.wf(),
        ensures
            is_system_prompt(
                r@,
                self.template_view(),
                self.glossary_view(),
                source_lang@,
                target_lang@,
                lower_of(source_text@),
            ),
    {
        build_system_prompt(self.template.as_str(), &self.glossary, source_lang, target_lang, source_text)
    }

    /// The two messages to send for `chunk`: the system prompt, then the
    /// chunk's text as the user message.
    pub fn chunk_messages(&self, chunk: &FileChunk, source_lang: &str, target_lang: &str) -> (r: Vec<
        ChatMessage,
    >)
        requires
            self.wf(),
        ensures
            r@.len() == 2,
            r@[0].role@ == "system"@,
            is_system_prompt(
                r@[0].content@,
                self.template_view(),
                self.glossary_view(),
                source_lang@,
                target_lang@,
                lower_of(chunk.content@),
            ),
            r@[1].role@ == "user"@,
            r@[1].content@ == chunk.content@,
    {
        let prompt = self.build_prompt(source_lang, target_lang, chunk.content.as_str());
        let text = chunk.content.clone();
        vec![system_message(prompt), user_message(text)]
    }

    /// What a response gives for `chunk`: the first choice's text as a
    /// slice with the chunk's line range, with the marker issues between
    /// the chunk and that text. Fails when the response has no choice.
    pub fn finish_chunk(&self, chunk: &FileChunk, response: &ChatCompletionResponse) -> (r: Result<
        (TranslationSlice, Vec<String>),
        TranslationError,
    >)
        requires
            self.wf(),
        ensures
            response.choices@.len() == 0 <==> r is Err,
            r matches Err(e) ==> e is Translate && e->Translate_0 is InvalidResponse,
            r matches Ok((s, issues)) ==> s.content@ == response.choices@[0].message.content@
                && s.start_line == chunk.start_line && s.end_line == chunk.end_line && string_views(
                issues@,
            ) == validation_issues(chunk.content@, s.content@),
    {
        if response.choices.len() == 0 {
            return Err(
                TranslationError::Translate(
                    TranslateError::InvalidResponse("No choices in API response".to_owned()),
                ),
            );
        }
        let text = response.choices[0].message.content.clone();
        let issues = self.validator.validate(chunk.content.as_str(), text.as_str());
        let slice = TranslationSlice { content: text, start_line: chunk.start_line, end_line: chunk.end_line };
        Ok((slice, issues))
    }
}

/// The slices of the outcomes that succeeded, in order.
pub open spec fn ok_slices(rs: Seq<Result<TranslationSlice, TranslationError>>) -> Seq<TranslationSlice>
    decreases rs.len(),
{
    if rs.len() == 0 {
        Seq::empty()
    } else {
        match rs.last() {
            Ok(s) => ok_slices(rs.drop_last()).push(s),
            Err(_) => ok_slices(rs.drop_last()),
        }
    }
}

/// The texts of the outcomes that failed, in order.
pub open spec fn failure_messages(rs: Seq<Result<TranslationSlice, TranslationError>>) -> Seq<Seq<char>>
    decreases rs.len(),
{
    if rs.len() == 0 {
        Seq::empty()
    } else {
        match rs.last() {
            Ok(_) => failure_messages(rs.drop_last()),
            Err(e) => failure_messages(rs.drop_last()).push(error_text(e)),
        }
    }
}

/// The error of a refused API key.
pub open spec fn is_auth_failure<T>(r: Result<T, TranslationError>) -> bool {
    r matches Err(TranslationError::Translate(TranslateError::AuthenticationFailed))
}

/// Some outcome is a refused API key.
pub open spec fn any_auth_failure(rs: Seq<Result<TranslationSlice, TranslationError>>) -> bool {
    exists|i: int| 0 <= i < rs.len() && is_auth_failure(#[trigger] rs[i])
}

/// Combines the outcomes of a batch, one per chunk in chunk order. A
/// refused API key fails the batch with that error, since no retry can
/// help. Otherwise: the slices in chunk order when every chunk succeeded,
/// else one error that lists the text of every failure, separated by spaces.
pub fn collect_batch(results: Vec<Result<TranslationSlice, TranslationError>>) -> (r: Result<
    Vec<TranslationSlice>,
    TranslationError,
>)
    ensures
        any_auth_failure(results@) ==> r == Err::<Vec<TranslationSlice>, TranslationError>(
            TranslationError::Translate(TranslateError::AuthenticationFailed),
        ),
        !any_auth_failure(results@) ==> (r is Ok <==> failure_messages(results@).len() == 0),
        r matches Ok(v) ==> v@ == ok_slices(results@),
        !any_auth_failure(results@) && r is Err ==> (r matches Err(TranslationError::AsyncError(m))
            && m@ == join_sep(failure_messages(results@), seq![' '])),
{
    let ghost rs = results@;
    let mut a: usize = 0;
    while a < results.len()
        invariant
            rs == results@,
            a <= rs.len(),
            forall|t: int| 0 <= t < a ==> !is_auth_failure(#[trigger] rs[t]),
        decreases rs.len() - a,
    {
        match &results[a] {
            Err(TranslationError::Translate(TranslateError::AuthenticationFailed)) => {
                assert(is_auth_failure(rs[a as int]));
                return Err(TranslationError::Translate(TranslateError::AuthenticationFailed));
            },
            _ => {},
        }
        a = a + 1;
    }
    let mut oks: Vec<TranslationSlice> = Vec::new();
    let mut msg: Vec<char> = Vec::new();
    let mut n_failed: usize = 0;
    let mut i: usize = 0;
    assert(rs.subrange(0, 0) =~= Seq::<Result<TranslationSlice, TranslationError>>::empty());
    while i < results.len()
        invariant
            rs == results@,
            !any_auth_failure(rs),
            i <= rs.len(),
            oks@ == ok_slices(rs.subrange(0, i as int)),
            msg@ == join_sep(failure_messages(rs.subrange(0, i as int)), seq![' ']),
            n_failed == failure_messages(rs.subrange(0, i as int)).len(),
            n_failed <= i,
        decreases rs.len() - i,
    {
        assert(rs.subrange(0, i + 1).drop_last() =~= rs.subrange(0, i as int));
        assert(rs.subrange(0, i + 1).last() == rs[i as int]);
        match &results[i] {
            Ok(s) => {
                let copy = TranslationSlice {
                    content: s.content.clone(),
                    start_line: s.start_line,
                    end_line: s.end_line,
                };
                assert(copy == *s);
                oks.push(copy);
            },
            Err(e) => {
                let ghost fm = failure_messages(rs.subrange(0, i as int));
                if n_failed > 0 {
                    msg.push(' ');
                }
                let m = e.message();
                let mc = chars_of(m.as_str());
                push_all(&mut msg, mc.as_slice());
                let ghost nf = fm.push(error_text(*e));
                assert(nf.drop_last() =~= fm);
                assert(msg@ =~= join_sep(nf, seq![' ']));
                n_failed = n_failed + 1;
            },
        }
        i = i + 1;
    }
    assert(rs.subrange(0, rs.len() as int) =~= rs);
    if n_failed > 0 {
        Err(TranslationError::AsyncError(string_of(msg.as_slice())))
    } else {
        Ok(oks)
    }
}

/// What a task does after one file's outcome.
#[derive(Debug, Clone, Copy, PartialEq, Eq)]
pub enum TaskStep {
    /// Go on with the other files and target languages.
    Continue,
    /// Stop the whole run.
    Abort,
}

/// A refused API key aborts the run, since retrying cannot help; any other
/// outcome lets the task go on with its other files.
pub fn after_file(outcome: &Result<(), TranslationError>) -> (r: TaskStep)
    ensures
        r == TaskStep::Abort <==> is_auth_failure(*outcome),
{
    match outcome {
        Err(TranslationError::Translate(TranslateError::AuthenticationFailed)) => TaskStep::Abort,
        _ => TaskStep::Continue,
    }
}

/// The task's outcome from the failures of its files: success when there
/// were none, else one error listing every failure, separated by `"; "`.
pub fn task_result(failures: Vec<String>) -> (r: Result<(), TranslationError>)
    ensures
        r is Ok <==> failures@.len() == 0,
        r matches Err(e) ==> (e matches TranslationError::AsyncError(m) && m@ == join_sep(
            failures@.map_values(|s: String| s@),
            "; "@,
        )),
{
    if failures.len() == 0 {
        Ok(())
    } else {
        Err(TranslationError::AsyncError(join_strings(&failures, "; ")))
    }
}

/// What the caller of a batch does next.
#[derive(Debug, Clone, Copy, PartialEq, Eq)]
pub enum DispatchAction {
    /// Send the chunk with this index.
    Start(usize),
    /// Wait for a request in flight to end, then report it.
    Wait,
    /// Every chunk has ended.
    Done,
}

/// Dispatch state of one batch: chunks are started in order, never more
/// than `limit` in flight, and the batch is done once every chunk ended.
pub struct BatchScheduler {
    total: usize,
    limit: usize,
    next: usize,
    in_flight: usize,
}

impl BatchScheduler {
    pub closed spec fn total(&self) -> nat {
        self.total as nat
    }

    pub closed spec fn limit(&self) -> nat {
        self.limit as nat
    }

    /// How many chunks were started: chunks `0 .. started()`.
    pub closed spec fn started(&self) -> nat {
        self.next as nat
    }

    pub closed spec fn in_flight(&self) -> nat {
        self.in_flight as nat
    }

    /// How many started chunks have ended.
    pub open spec fn finished(&self) -> nat {
        (self.started() - self.in_flight()) as nat
    }

    /// Requests in flight never exceed the limit; no chunk beyond the last
    /// is started.
    pub open spec fn wf(&self) -> bool {
        self.limit() >= 1 && self.in_flight() <= self.limit() && self.in_flight() <= self.started()
            && self.started() <= self.total()
    }

    /// A batch of `total` chunks with at most `limit` in flight.
    pub fn new(total: usize, limit: usize) -> (r: BatchScheduler)
        requires
            limit >= 1,
        ensures
            r.wf(),
            r.total() == total,
            r.limit() == limit,
            r.started() == 0,
            r.in_flight() == 0,
    {
        BatchScheduler { total, limit, next: 0, in_flight: 0 }
    }

    /// The next step: start the next chunk while one is left and a slot is
    /// free; else wait while requests are in flight; else the batch is done.
    pub fn next_action(&mut self) -> (r: DispatchAction)
        requires
            old(self).wf(),
        ensures
            final(self).wf(),
            final(self).total() == old(self).total(),
            final(self).limit() == old(self).limit(),
            old(self).started() < old(self).total() && old(self).in_flight() < old(self).limit() ==> r
                == DispatchAction::Start(old(self).started() as usize) && final(self).started()
                == old(self).started() + 1 && final(self).in_flight() == old(self).in_flight() + 1,
            !(old(self).started() < old(self).total() && old(self).in_flight() < old(self).limit())
                ==> final(self).started() == old(self).started() && final(self).in_flight()
                == old(self).in_flight() && (r == DispatchAction::Done <==> old(self).in_flight()
                == 0) && (r != DispatchAction::Done ==> r == DispatchAction::Wait),
            r == DispatchAction::Done ==> final(self).finished() == final(self).total(),
    {
        if self.next < self.total && self.in_flight < self.limit {
            let i = self.next;
            self.next = self.next + 1;
            self.in_flight = self.in_flight + 1;
            DispatchAction::Start(i)
        } else if self.in_flight == 0 {
            DispatchAction::Done
        } else {
            DispatchAction::Wait
        }
    }

    /// Reports that one request in flight has ended.
    pub fn complete(&mut self)
        requires
            old(self).wf(),
            old(self).in_flight() > 0,
        ensures
            final(self).wf(),
            final(self).total() == old(self).total(),
            final(self).limit() == old(self).limit(),
            final(self).started() == old(self).started(),
            final(self).in_flight() == old(self).in_flight() - 1,
    {
        self.in_flight = self.in_flight - 1;
    }
}

} // verus!
