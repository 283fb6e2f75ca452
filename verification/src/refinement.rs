//! The course of an analysis: which files the model is asked about, what its answers do
//! to the plan, and what is told of it on the way.
//!
//! Every file is asked about once. What is still open then is asked about once more, and
//! what is open after that goes into a folder of its own. The requests themselves are
//! made elsewhere: [`Refinement::begin`] and [`Refinement::answer`] say what to do next.

use crate::batches;
use crate::categories;
use crate::decisions;
use crate::diagnostics;
use crate::failures;
use crate::failures::Failures;
use crate::paths::Style;
use crate::records;
use crate::records::{
    AiDecision, AiFileContext, AiStatus, AnalysisLogEvent, AnalysisProgress, ContextView,
    DecisionView, LogView, PlanItem, PlanItemView, ProgressView, SortSettings,
};
use crate::text;
use std::ops::Range;
use vstd::prelude::*;

verus! {

// ---------------------------------------------------------------------------
// What comes in and what goes out
// ---------------------------------------------------------------------------

/// Why a request brought no decisions.
#[derive(Debug)]
pub enum BatchError {
    Failure(String),
    Cancelled,
}

/// What a reply to a request stands for.
#[verifier::ext_equal]
pub enum ReplyView {
    Decisions(Seq<DecisionView>),
    Failure(Seq<char>),
    Cancelled,
}

/// What a reply to a request stands for.
pub open spec fn reply_view(reply: Result<Vec<AiDecision>, BatchError>) -> ReplyView {
    match reply {
        Ok(decisions) => ReplyView::Decisions(records::decision_views(decisions@)),
        Err(BatchError::Failure(error)) => ReplyView::Failure(error@),
        Err(BatchError::Cancelled) => ReplyView::Cancelled,
    }
}

/// Something to tell.
#[derive(Debug)]
pub enum Notice {
    Progress(AnalysisProgress),
    Log(AnalysisLogEvent),
}

/// What a [`Notice`] stands for.
#[verifier::ext_equal]
pub enum NoticeView {
    Progress(ProgressView),
    Log(LogView),
}

impl View for Notice {
    type V = NoticeView;

    open spec fn view(&self) -> NoticeView {
        match *self {
            Notice::Progress(progress) => NoticeView::Progress(progress@),
            Notice::Log(event) => NoticeView::Log(event@),
        }
    }
}

/// What a list of notices stands for.
pub open spec fn notice_views(notices: Seq<Notice>) -> Seq<NoticeView> {
    Seq::new(notices.len(), |i: int| notices[i]@)
}

/// How the files fared.
#[derive(Debug, Clone, Copy, PartialEq, Eq, Structural)]
pub struct AiSummary {
    pub ai_processed: usize,
    pub retry_succeeded: usize,
    pub ai_unprocessed: usize,
}

/// How an analysis ended.
#[derive(Debug)]
pub struct AiRefinement {
    pub summary: AiSummary,
    pub warnings: Vec<String>,
}

/// What to do next.
#[derive(Debug)]
pub enum Step {
    Request(Vec<AiFileContext>),
    Finished(AiRefinement),
    Cancelled(String),
}

/// What a [`Step`] stands for.
#[verifier::ext_equal]
pub enum StepView {
    Request(Seq<ContextView>),
    Finished { processed: nat, retry_succeeded: nat, unprocessed: nat, warnings: Seq<Seq<char>> },
    Cancelled(Seq<char>),
}

impl View for Step {
    type V = StepView;

    open spec fn view(&self) -> StepView {
        match *self {
            Step::Request(batch) => StepView::Request(records::context_views(batch@)),
            Step::Finished(ended) => StepView::Finished {
                processed: ended.summary.ai_processed as nat,
                retry_succeeded: ended.summary.retry_succeeded as nat,
                unprocessed: ended.summary.ai_unprocessed as nat,
                warnings: records::text_views(ended.warnings@),
            },
            Step::Cancelled(message) => StepView::Cancelled(message@),
        }
    }
}

/// What to tell, in order, and what to do then.
#[derive(Debug)]
pub struct Turn {
    pub notices: Vec<Notice>,
    pub step: Step,
}

// ---------------------------------------------------------------------------
// The state
// ---------------------------------------------------------------------------

/// What a [`Refinement`] stands for.
#[verifier::ext_equal]
pub struct RunView {
    /// The notation of the paths.
    pub style: Style,
    /// The plan.
    pub items: Seq<PlanItemView>,
    /// Whether this is the second pass.
    pub retry: bool,
    /// The files of this pass.
    pub queue: Seq<ContextView>,
    /// The files of each request of this pass.
    pub ranges: Seq<Range<usize>>,
    /// The number of requests of this pass that were answered.
    pub index: nat,
    /// The number of requests of the first pass.
    pub main_batches: nat,
    /// Why the first attempt at a file failed.
    pub failures: Map<Seq<char>, Seq<char>>,
    pub warnings: Seq<Seq<char>>,
    pub retry_succeeded: nat,
}

/// What to tell, in order, what to do then, and the state from there on.
#[verifier::ext_equal]
pub struct TurnView {
    pub state: RunView,
    pub notices: Seq<NoticeView>,
    pub step: StepView,
}

impl RunView {
    /// The files of the request that is due.
    pub open spec fn batch(self) -> Seq<ContextView> {
        let range = self.ranges[self.index as int];
        self.queue.subrange(range.start as int, range.end as int)
    }

    /// The number of files of this pass whose request was answered.
    pub open spec fn attempted(self) -> nat {
        if self.index < self.ranges.len() {
            self.ranges[self.index as int].start as nat
        } else {
            self.queue.len()
        }
    }

    /// Whether a request is due.
    pub open spec fn is_waiting(self) -> bool {
        self.index < self.ranges.len()
    }
}

// ---------------------------------------------------------------------------
// What is said
// ---------------------------------------------------------------------------

pub const NO_FILES: &'static str = "В выбранной папке нет файлов для анализа.";

pub const CANCELLED_BY_USER: &'static str = "Анализ отменён пользователем";

pub const MAIN_PASS: &'static str = "Основной проход";

pub const RETRY_PASS: &'static str = "Повторный проход";

pub const PARTIAL_REASON: &'static str =
    "Модель вернула частичный ответ: решение для файла отсутствует.";

pub const PARTIAL_AGAIN_REASON: &'static str =
    "Модель снова вернула частичный ответ: решение для файла отсутствует.";

pub const PARTIAL_KIND: &'static str = "partial_response";

pub const PARTIAL_DETAIL: &'static str = "Модель не вернула решения для части файлов пакета";

pub const PARTIAL_AGAIN_DETAIL: &'static str =
    "Модель повторно не вернула решения для части файлов пакета";

/// What a pass is called.
pub open spec fn pass_name(retry: bool) -> Seq<char> {
    if retry {
        RETRY_PASS@
    } else {
        MAIN_PASS@
    }
}

/// What a pass is called in the log.
pub open spec fn phase(retry: bool) -> Seq<char> {
    if retry {
        "retry"@
    } else {
        "main"@
    }
}

/// What is said before a request.
pub open spec fn opening_message(retry: bool, number: nat, all: nat) -> Seq<char> {
    pass_name(retry) + ": пакет "@ + text::decimal(number) + " из "@ + text::decimal(all) + "…"@
}

/// What is said after a request.
pub open spec fn closing_message(retry: bool, number: nat, all: nat) -> Seq<char> {
    pass_name(retry) + ": завершено пакетов "@ + text::decimal(number) + " из "@ + text::decimal(all)
        + "."@
}

/// The warning on an answer that leaves some files open.
pub open spec fn partial_warning(retry: bool, number: nat, missing: nat) -> Seq<char> {
    let start = pass_name(retry) + ", пакет "@ + text::decimal(number);
    if retry {
        start + ": для "@ + text::decimal(missing)
            + " файлов снова нет решения; они направлены в «"@ + categories::UNPROCESSED_CATEGORY@
            + "»."@
    } else {
        start + ": модель не вернула решения для "@ + text::decimal(missing)
            + " файлов; они отправлены на повторную попытку."@
    }
}

/// The warning on a request that failed.
pub open spec fn failure_warning(retry: bool, number: nat, detail: Seq<char>, files: nat) -> Seq<
    char,
> {
    let start = pass_name(retry) + ", пакет "@ + text::decimal(number) + ": "@ + detail;
    if retry {
        start + ". В «"@ + categories::UNPROCESSED_CATEGORY@ + "» направлено "@ + text::decimal(files)
            + " файлов."@
    } else {
        start + ". На повторную попытку отправлено "@ + text::decimal(files) + " файлов."@
    }
}

/// What is said at the end.
pub open spec fn completion_message(processed: nat, retry_succeeded: nat, unprocessed: nat) -> Seq<
    char,
> {
    "Анализ завершён: ИИ обработал "@ + text::decimal(processed) + ", после повтора — "@
        + text::decimal(retry_succeeded) + ", не обработано — "@ + text::decimal(unprocessed)
        + "."@
}

/// How far a run has come.
pub open spec fn progress(s: RunView, message: Seq<char>) -> ProgressView {
    let not_attempted = (s.queue.len() - s.attempted()) as nat;
    let pending = decisions::count_with(s.items, AiStatus::RetryPending);
    ProgressView {
        phase: phase(s.retry),
        completed_batches: s.index,
        total_batches: s.ranges.len(),
        processed_files: decisions::count_with(s.items, AiStatus::Processed),
        pending_files: if s.retry {
            pending
        } else {
            not_attempted + s.failures.dom().len()
        },
        not_attempted_files: if s.retry {
            0
        } else {
            not_attempted
        },
        retry_pending_files: if s.retry {
            pending
        } else {
            s.failures.dom().len()
        },
        message,
    }
}

/// What is told of a run that is over.
pub open spec fn completion(s: RunView) -> ProgressView {
    let processed = decisions::count_with(s.items, AiStatus::Processed);
    let unprocessed = decisions::count_with(s.items, AiStatus::Unprocessed);
    ProgressView {
        phase: "complete"@,
        completed_batches: s.main_batches + s.ranges.len(),
        total_batches: s.main_batches + s.ranges.len(),
        processed_files: processed,
        pending_files: 0,
        not_attempted_files: 0,
        retry_pending_files: 0,
        message: completion_message(processed, s.retry_succeeded, unprocessed),
    }
}

/// What is told where there is nothing to do.
pub open spec fn nothing_to_do() -> ProgressView {
    ProgressView {
        phase: "complete"@,
        completed_batches: 0,
        total_batches: 0,
        processed_files: 0,
        pending_files: 0,
        not_attempted_files: 0,
        retry_pending_files: 0,
        message: NO_FILES@,
    }
}

/// The line of the log on a reply.
pub open spec fn reply_log(s: RunView, reply: ReplyView, duration_ms: u64) -> LogView {
    let batch = s.batch();
    let missing = match reply {
        ReplyView::Decisions(answers) => decisions::missing_ids(batch, answers).len(),
        _ => batch.len(),
    };
    diagnostics::batch_log(
        phase(s.retry),
        if s.retry {
            2
        } else {
            1
        },
        (s.index + 1) as usize,
        s.ranges.len() as usize,
        batch,
        duration_ms,
        match reply {
            ReplyView::Decisions(_) => if missing == 0 {
                "success"@
            } else {
                "partial"@
            },
            ReplyView::Failure(_) => "error"@,
            ReplyView::Cancelled => "cancelled"@,
        },
        (batch.len() - missing) as nat,
        missing,
        match reply {
            ReplyView::Decisions(_) => if missing == 0 {
                None
            } else if s.retry {
                Some((PARTIAL_KIND@, PARTIAL_AGAIN_DETAIL@))
            } else {
                Some((PARTIAL_KIND@, PARTIAL_DETAIL@))
            },
            ReplyView::Failure(error) => Some(
                (diagnostics::error_class(error).0, diagnostics::error_detail(error)),
            ),
            ReplyView::Cancelled => Some(("cancelled"@, CANCELLED_BY_USER@)),
        },
    )
}

// ---------------------------------------------------------------------------
// What a reply does
// ---------------------------------------------------------------------------

/// The ids of some files.
pub open spec fn ids(contexts: Seq<ContextView>) -> Seq<Seq<char>> {
    Seq::new(contexts.len(), |i: int| contexts[i].id)
}

/// The items after some were given up for the same reason.
pub open spec fn after_giving_up_all(
    style: Style,
    items: Seq<PlanItemView>,
    which: Seq<Seq<char>>,
    failures: Map<Seq<char>, Seq<char>>,
    reason: Seq<char>,
) -> Seq<PlanItemView>
    decreases which.len(),
{
    if which.len() == 0 {
        items
    } else {
        decisions::after_giving_up(
            style,
            after_giving_up_all(style, items, which.drop_last(), failures, reason),
            which.last(),
            failures::reason_for(failures, which.last()),
            reason,
        )
    }
}

/// The state after a reply. A cancellation changes nothing.
pub open spec fn answered(mode: Seq<char>, s: RunView, reply: ReplyView) -> RunView {
    let batch = s.batch();
    let number = s.index + 1;
    match reply {
        ReplyView::Decisions(answers) => {
            let missing = decisions::missing_ids(batch, answers);
            let items = decisions::after_batch(s.style, mode, s.items, batch, answers);
            RunView {
                items: if s.retry {
                    after_giving_up_all(s.style, items, missing, s.failures, PARTIAL_AGAIN_REASON@)
                } else {
                    items
                },
                index: number,
                failures: if s.retry {
                    s.failures
                } else {
                    failures::with_reason(s.failures, missing, PARTIAL_REASON@)
                },
                warnings: if missing.len() == 0 {
                    s.warnings
                } else {
                    s.warnings.push(partial_warning(s.retry, number, missing.len()))
                },
                retry_succeeded: if s.retry {
                    (s.retry_succeeded + batch.len() - missing.len()) as nat
                } else {
                    s.retry_succeeded
                },
                ..s
            }
        },
        ReplyView::Failure(error) => {
            let detail = diagnostics::error_detail(error);
            RunView {
                items: if s.retry {
                    after_giving_up_all(s.style, s.items, ids(batch), s.failures, detail)
                } else {
                    s.items
                },
                index: number,
                failures: if s.retry {
                    s.failures
                } else {
                    failures::with_reason(s.failures, ids(batch), detail)
                },
                warnings: s.warnings.push(failure_warning(s.retry, number, detail, batch.len())),
                ..s
            }
        },
        ReplyView::Cancelled => s,
    }
}

/// The files whose item waits for a decision.
pub open spec fn still_open(items: Seq<PlanItemView>, queue: Seq<ContextView>) -> Seq<ContextView>
    decreases queue.len(),
{
    if queue.len() == 0 {
        queue
    } else {
        let before = still_open(items, queue.drop_last());
        if decisions::status_of(items, queue.last().id) == Some(AiStatus::RetryPending) {
            before.push(queue.last())
        } else {
            before
        }
    }
}

/// The state at the start of the second pass.
pub open spec fn second_pass(s: RunView) -> RunView {
    let queue = still_open(s.items, s.queue);
    RunView { retry: true, queue, ranges: batches::ranges_of(queue), index: 0, ..s }
}

/// The state at the start.
pub open spec fn first_pass(
    style: Style,
    items: Seq<PlanItemView>,
    contexts: Seq<ContextView>,
) -> RunView {
    RunView {
        style,
        items,
        retry: false,
        queue: contexts,
        ranges: batches::ranges_of(contexts),
        index: 0,
        main_batches: batches::ranges_of(contexts).len(),
        failures: Map::empty(),
        warnings: Seq::empty(),
        retry_succeeded: 0,
    }
}

/// The request that is due.
pub open spec fn asking(s: RunView) -> TurnView {
    TurnView {
        state: s,
        notices: seq![
            NoticeView::Progress(
                progress(s, opening_message(s.retry, s.index + 1, s.ranges.len())),
            ),
        ],
        step: StepView::Request(s.batch()),
    }
}

/// The end.
pub open spec fn ending(s: RunView) -> TurnView {
    TurnView {
        state: s,
        notices: seq![NoticeView::Progress(completion(s))],
        step: StepView::Finished {
            processed: decisions::count_with(s.items, AiStatus::Processed),
            retry_succeeded: s.retry_succeeded,
            unprocessed: decisions::count_with(s.items, AiStatus::Unprocessed),
            warnings: s.warnings,
        },
    }
}

/// How a run goes on: with the next request of this pass, with the second pass, or not
/// at all.
pub open spec fn proceeding(s: RunView) -> TurnView {
    if s.is_waiting() {
        asking(s)
    } else if s.retry {
        ending(s)
    } else if second_pass(s).is_waiting() {
        asking(second_pass(s))
    } else {
        ending(second_pass(s))
    }
}

/// How a run starts.
pub open spec fn beginning(
    style: Style,
    items: Seq<PlanItemView>,
    contexts: Seq<ContextView>,
) -> TurnView {
    if items.len() == 0 {
        TurnView {
            state: first_pass(style, items, Seq::empty()),
            notices: seq![NoticeView::Progress(nothing_to_do())],
            step: StepView::Finished {
                processed: 0,
                retry_succeeded: 0,
                unprocessed: 0,
                warnings: Seq::empty(),
            },
        }
    } else {
        proceeding(first_pass(style, items, contexts))
    }
}

/// How a run goes on once a reply has been dealt with.
pub open spec fn onward(after: RunView, event: LogView) -> TurnView {
    let message = closing_message(after.retry, after.index, after.ranges.len());
    let next = proceeding(after);
    TurnView {
        notices: seq![
            NoticeView::Log(event),
            NoticeView::Progress(progress(after, message)),
        ] + next.notices,
        ..next
    }
}

/// How a run goes on after a reply.
pub open spec fn continuing(
    mode: Seq<char>,
    s: RunView,
    reply: ReplyView,
    duration_ms: u64,
) -> TurnView {
    let event = reply_log(s, reply, duration_ms);
    if reply is Cancelled {
        TurnView {
            state: s,
            notices: seq![NoticeView::Log(event)],
            step: StepView::Cancelled(CANCELLED_BY_USER@),
        }
    } else {
        onward(answered(mode, s, reply), event)
    }
}

// ---------------------------------------------------------------------------
// Words
// ---------------------------------------------------------------------------

fn pass_text(retry: bool) -> (name: &'static str)
    ensures
        name@ == pass_name(retry),
{
    if retry {
        RETRY_PASS
    } else {
        MAIN_PASS
    }
}

fn phase_text(retry: bool) -> (name: &'static str)
    ensures
        name@ == phase(retry),
{
    if retry {
        "retry"
    } else {
        "main"
    }
}

fn opening_text(retry: bool, number: usize, all: usize) -> (message: String)
    ensures
        message@ == opening_message(retry, number as nat, all as nat),
{
    let mut message = pass_text(retry).to_owned();
    message.append(": пакет ");
    message.append(&text::decimal_of(number as u64));
    message.append(" из ");
    message.append(&text::decimal_of(all as u64));
    message.append("…");
    message
}

fn closing_text(retry: bool, number: usize, all: usize) -> (message: String)
    ensures
        message@ == closing_message(retry, number as nat, all as nat),
{
    let mut message = pass_text(retry).to_owned();
    message.append(": завершено пакетов ");
    message.append(&text::decimal_of(number as u64));
    message.append(" из ");
    message.append(&text::decimal_of(all as u64));
    message.append(".");
    message
}

fn partial_text(retry: bool, number: usize, missing: usize) -> (message: String)
    ensures
        message@ == partial_warning(retry, number as nat, missing as nat),
{
    let mut message = pass_text(retry).to_owned();
    message.append(", пакет ");
    message.append(&text::decimal_of(number as u64));
    if retry {
        message.append(": для ");
        message.append(&text::decimal_of(missing as u64));
        message.append(" файлов снова нет решения; они направлены в «");
        message.append(categories::UNPROCESSED_CATEGORY);
        message.append("».");
    } else {
        message.append(": модель не вернула решения для ");
        message.append(&text::decimal_of(missing as u64));
        message.append(" файлов; они отправлены на повторную попытку.");
    }
    message
}

fn failure_text(retry: bool, number: usize, detail: &str, files: usize) -> (message: String)
    ensures
        message@ == failure_warning(retry, number as nat, detail@, files as nat),
{
    let mut message = pass_text(retry).to_owned();
    message.append(", пакет ");
    message.append(&text::decimal_of(number as u64));
    message.append(": ");
    message.append(detail);
    if retry {
        message.append(". В «");
        message.append(categories::UNPROCESSED_CATEGORY);
        message.append("» направлено ");
        message.append(&text::decimal_of(files as u64));
        message.append(" файлов.");
    } else {
        message.append(". На повторную попытку отправлено ");
        message.append(&text::decimal_of(files as u64));
        message.append(" файлов.");
    }
    message
}

fn completion_text(processed: usize, retry_succeeded: usize, unprocessed: usize) -> (message: String)
    ensures
        message@ == completion_message(
            processed as nat,
            retry_succeeded as nat,
            unprocessed as nat,
        ),
{
    let mut message = "Анализ завершён: ИИ обработал ".to_owned();
    message.append(&text::decimal_of(processed as u64));
    message.append(", после повтора — ");
    message.append(&text::decimal_of(retry_succeeded as u64));
    message.append(", не обработано — ");
    message.append(&text::decimal_of(unprocessed as u64));
    message.append(".");
    message
}

fn copy_texts(texts: &Vec<String>) -> (copy: Vec<String>)
    ensures
        records::text_views(copy@) == records::text_views(texts@),
{
    let mut copy: Vec<String> = Vec::new();
    for i in 0..texts.len()
        invariant
            copy@.len() == i,
            forall|j: int| 0 <= j < i ==> (#[trigger] copy@[j])@ == texts@[j]@,
    {
        copy.push(texts[i].clone());
    }
    assert(records::text_views(copy@) =~= records::text_views(texts@));
    copy
}

fn copy_contexts(contexts: &[AiFileContext]) -> (copy: Vec<AiFileContext>)
    ensures
        records::context_views(copy@) == records::context_views(contexts@),
{
    let mut copy: Vec<AiFileContext> = Vec::new();
    for i in 0..contexts.len()
        invariant
            copy@.len() == i,
            forall|j: int| 0 <= j < i ==> (#[trigger] copy@[j])@ == contexts@[j]@,
    {
        copy.push(contexts[i].clone());
    }
    assert(records::context_views(copy@) =~= records::context_views(contexts@));
    copy
}

/// The files whose item waits for a decision.
fn open_contexts(items: &Vec<PlanItem>, queue: &Vec<AiFileContext>) -> (left: Vec<AiFileContext>)
    ensures
        records::context_views(left@) == still_open(
            records::item_views(items@),
            records::context_views(queue@),
        ),
        left@.len() <= queue@.len(),
{
    let ghost views = records::context_views(queue@);
    let ghost plan = records::item_views(items@);
    let mut left: Vec<AiFileContext> = Vec::new();
    assert(views.take(0) =~= Seq::<ContextView>::empty());
    assert(records::context_views(left@) =~= still_open(plan, views.take(0)));
    for i in 0..queue.len()
        invariant
            views == records::context_views(queue@),
            plan == records::item_views(items@),
            records::context_views(left@) == still_open(plan, views.take(i as int)),
            left@.len() <= i,
    {
        let ghost part = views.take(i as int + 1);
        let ghost before = left@;
        assert(part.drop_last() =~= views.take(i as int));
        assert(part.last() == queue@[i as int]@);
        if let Some(AiStatus::RetryPending) = decisions::item_status(items, &queue[i].id) {
            left.push(queue[i].clone());
            assert(records::context_views(left@) =~= records::context_views(before).push(
                queue@[i as int]@,
            ));
        }
    }
    assert(views.take(queue@.len() as int) =~= views);
    left
}

// ---------------------------------------------------------------------------
// The run
// ---------------------------------------------------------------------------

/// A run of the analysis.
pub struct Refinement {
    style: Style,
    items: Vec<PlanItem>,
    retry: bool,
    queue: Vec<AiFileContext>,
    ranges: Vec<Range<usize>>,
    index: usize,
    main_batches: usize,
    failures: Failures,
    warnings: Vec<String>,
    retry_succeeded: usize,
}

impl View for Refinement {
    type V = RunView;

    closed spec fn view(&self) -> RunView {
        RunView {
            style: self.style,
            items: records::item_views(self.items@),
            retry: self.retry,
            queue: records::context_views(self.queue@),
            ranges: self.ranges@,
            index: self.index as nat,
            main_batches: self.main_batches as nat,
            failures: self.failures@,
            warnings: records::text_views(self.warnings@),
            retry_succeeded: self.retry_succeeded as nat,
        }
    }
}

/// What a run and its turn stand for.
pub open spec fn turn_view(state: RunView, turn: Turn) -> TurnView {
    TurnView { state, notices: notice_views(turn.notices@), step: turn.step@ }
}

/// A request holds at least one file, and its answer is that on the next files.
pub proof fn answered_files(s: RunView)
    requires
        batches::splits(s.queue, s.ranges),
        s.index < s.ranges.len(),
    ensures
        s.batch().len() > 0,
        s.attempted() + s.batch().len() == (RunView { index: s.index + 1, ..s }).attempted(),
        (RunView { index: s.index + 1, ..s }).attempted() <= s.queue.len(),
        s.ranges[s.index as int].start < s.ranges[s.index as int].end <= s.queue.len(),
{
    let i = s.index as int;
    assert(batches::is_batch(s.queue, s.ranges[i].start as int, s.ranges[i].end as int));
    if i + 1 < s.ranges.len() {
        assert(s.ranges[i].end == s.ranges[i + 1].start);
    }
}

impl Refinement {
    /// Whether the run is in order: its pass is split into requests, no file is counted
    /// twice, and no count is too large to be told.
    pub closed spec fn is_sound(&self) -> bool {
        &&& batches::splits(self@.queue, self@.ranges)
        &&& self.ranges@.len() <= self.queue@.len()
        &&& self.index <= self.ranges@.len()
        &&& self.failures.is_sound()
        &&& !self.retry ==> {
            &&& self@.failures.dom().len() <= self@.attempted()
            &&& self.retry_succeeded == 0
            &&& 2 * self.queue@.len() <= usize::MAX
            &&& self.main_batches == self.ranges@.len()
        }
        &&& self.retry ==> {
            &&& self.retry_succeeded <= self@.attempted()
            &&& self.main_batches + self.queue@.len() <= usize::MAX
        }
    }

    fn report(&self, message: String) -> (told: AnalysisProgress)
        requires
            self.is_sound(),
        ensures
            told@ == progress(self@, message@),
    {
        let processed_files: usize = decisions::processed_count(&self.items);
        let completed_batches: usize = self.index;
        let total_batches: usize = self.ranges.len();
        if self.retry {
            let pending: usize = decisions::retry_pending_count(&self.items);
            AnalysisProgress {
                phase: phase_text(true).to_owned(),
                completed_batches,
                total_batches,
                processed_files,
                pending_files: pending,
                not_attempted_files: 0,
                retry_pending_files: pending,
                message,
            }
        } else {
            proof {
                if self@.is_waiting() {
                    answered_files(self@);
                }
            }
            let attempted: usize = if self.index < self.ranges.len() {
                self.ranges[self.index].start
            } else {
                self.queue.len()
            };
            let not_attempted_files: usize = self.queue.len() - attempted;
            let failed: usize = self.failures.len();
            AnalysisProgress {
                phase: phase_text(false).to_owned(),
                completed_batches,
                total_batches,
                processed_files,
                pending_files: not_attempted_files + failed,
                not_attempted_files,
                retry_pending_files: failed,
                message,
            }
        }
    }

    fn ask(&self, notices: &mut Vec<Notice>) -> (step: Step)
        requires
            self.is_sound(),
            self@.is_waiting(),
        ensures
            step@ == asking(self@).step,
            notice_views(final(notices)@) == notice_views(old(notices)@) + asking(self@).notices,
    {
        proof {
            answered_files(self@);
        }
        let message = opening_text(self.retry, self.index + 1, self.ranges.len());
        let ghost before = notices@;
        notices.push(Notice::Progress(self.report(message)));
        assert(notice_views(notices@) =~= notice_views(before) + asking(self@).notices);
        let start: usize = self.ranges[self.index].start;
        let end: usize = self.ranges[self.index].end;
        let batch = copy_contexts(
            vstd::slice::slice_subrange(self.queue.as_slice(), start, end),
        );
        assert(records::context_views(batch@) =~= self@.batch());
        Step::Request(batch)
    }

    fn end(&self, notices: &mut Vec<Notice>) -> (step: Step)
        requires
            self.is_sound(),
            self@.retry,
        ensures
            step@ == ending(self@).step,
            notice_views(final(notices)@) == notice_views(old(notices)@) + ending(self@).notices,
    {
        let ai_processed: usize = decisions::processed_count(&self.items);
        let ai_unprocessed: usize = decisions::unprocessed_count(&self.items);
        let all: usize = self.main_batches + self.ranges.len();
        let ghost before = notices@;
        notices.push(
            Notice::Progress(
                AnalysisProgress {
                    phase: "complete".to_owned(),
                    completed_batches: all,
                    total_batches: all,
                    processed_files: ai_processed,
                    pending_files: 0,
                    not_attempted_files: 0,
                    retry_pending_files: 0,
                    message: completion_text(ai_processed, self.retry_succeeded, ai_unprocessed),
                },
            ),
        );
        assert(notice_views(notices@) =~= notice_views(before) + ending(self@).notices);
        Step::Finished(
            AiRefinement {
                summary: AiSummary {
                    ai_processed,
                    retry_succeeded: self.retry_succeeded,
                    ai_unprocessed,
                },
                warnings: copy_texts(&self.warnings),
            },
        )
    }

    fn proceed(&mut self, notices: &mut Vec<Notice>) -> (step: Step)
        requires
            old(self).is_sound(),
        ensures
            final(self).is_sound(),
            final(self)@ == proceeding(old(self)@).state,
            step@ == proceeding(old(self)@).step,
            notice_views(final(notices)@) == notice_views(old(notices)@) + proceeding(
                old(self)@,
            ).notices,
    {
        if self.index < self.ranges.len() {
            return self.ask(notices);
        }
        if !self.retry {
            let ghost before = self@;
            let queue = open_contexts(&self.items, &self.queue);
            let ranges = batches::model_batch_ranges(queue.as_slice());
            self.queue = queue;
            self.ranges = ranges;
            self.index = 0;
            self.retry = true;
            assert(self@ =~= second_pass(before));
            if self.index < self.ranges.len() {
                return self.ask(notices);
            }
        }
        self.end(notices)
    }

    /// Starts a run.
    pub fn begin(style: Style, items: Vec<PlanItem>, contexts: Vec<AiFileContext>) -> (started: (
        Refinement,
        Turn,
    ))
        requires
            2 * contexts@.len() <= usize::MAX,
        ensures
            started.0.is_sound(),
            turn_view(started.0@, started.1) == beginning(
                style,
                records::item_views(items@),
                records::context_views(contexts@),
            ),
    {
        let ghost plan = records::item_views(items@);
        let ghost views = records::context_views(contexts@);
        let nothing = items.len() == 0;
        let queue: Vec<AiFileContext> = if nothing {
            Vec::new()
        } else {
            contexts
        };
        let ranges = batches::model_batch_ranges(queue.as_slice());
        let main_batches: usize = ranges.len();
        let mut run = Refinement {
            style,
            items,
            retry: false,
            queue,
            ranges,
            index: 0,
            main_batches,
            failures: Failures::new(),
            warnings: Vec::new(),
            retry_succeeded: 0,
        };
        assert(run@.warnings =~= Seq::<Seq<char>>::empty());
        assert(nothing ==> run@.queue =~= Seq::<ContextView>::empty());
        assert(run@ =~= first_pass(
            style,
            plan,
            if nothing {
                Seq::empty()
            } else {
                views
            },
        ));
        let mut notices: Vec<Notice> = Vec::new();
        if nothing {
            notices.push(
                Notice::Progress(
                    AnalysisProgress {
                        phase: "complete".to_owned(),
                        completed_batches: 0,
                        total_batches: 0,
                        processed_files: 0,
                        pending_files: 0,
                        not_attempted_files: 0,
                        retry_pending_files: 0,
                        message: NO_FILES.to_owned(),
                    },
                ),
            );
            let step = Step::Finished(
                AiRefinement {
                    summary: AiSummary { ai_processed: 0, retry_succeeded: 0, ai_unprocessed: 0 },
                    warnings: Vec::new(),
                },
            );
            let turn = Turn { notices, step };
            assert(turn_view(run@, turn) =~= beginning(style, plan, views));
            return (run, turn);
        }
        let step = run.proceed(&mut notices);
        let turn = Turn { notices, step };
        assert(turn_view(run@, turn) =~= beginning(style, plan, views));
        (run, turn)
    }

    fn note(&mut self, which: &Vec<String>, reason: &str)
        requires
            old(self).failures.is_sound(),
        ensures
            final(self).failures.is_sound(),
            *final(self) == (Refinement { failures: final(self).failures, ..*old(self) }),
            final(self).failures@ == failures::with_reason(
                old(self).failures@,
                records::text_views(which@),
                reason@,
            ),
            final(self).failures@.dom().len() <= old(self).failures@.dom().len() + which@.len(),
    {
        let ghost before = *self;
        let ghost views = records::text_views(which@);
        proof {
            self.failures.is_finite();
            failures::with_reason_covers_the_ids(self.failures@, views, reason@);
        }
        assert(views.take(0) =~= Seq::<Seq<char>>::empty());
        for i in 0..which.len()
            invariant
                views == records::text_views(which@),
                self.failures.is_sound(),
                *self == (Refinement { failures: self.failures, ..before }),
                self.failures@ == failures::with_reason(
                    before.failures@,
                    views.take(i as int),
                    reason@,
                ),
        {
            assert(views.take(i as int + 1).drop_last() =~= views.take(i as int));
            assert(views.take(i as int + 1).last() == which@[i as int]@);
            self.failures.insert(&which[i], reason);
        }
        assert(views.take(which@.len() as int) =~= views);
    }

    fn give_up(&mut self, which: &Vec<String>, reason: &str)
        requires
            old(self).failures.is_sound(),
        ensures
            *final(self) == (Refinement { items: final(self).items, ..*old(self) }),
            records::item_views(final(self).items@) == after_giving_up_all(
                old(self).style,
                records::item_views(old(self).items@),
                records::text_views(which@),
                old(self).failures@,
                reason@,
            ),
    {
        let ghost before = *self;
        let ghost views = records::text_views(which@);
        assert(views.take(0) =~= Seq::<Seq<char>>::empty());
        for i in 0..which.len()
            invariant
                views == records::text_views(which@),
                self.failures.is_sound(),
                *self == (Refinement { items: self.items, ..before }),
                records::item_views(self.items@) == after_giving_up_all(
                    before.style,
                    records::item_views(before.items@),
                    views.take(i as int),
                    before.failures@,
                    reason@,
                ),
        {
            assert(views.take(i as int + 1).drop_last() =~= views.take(i as int));
            assert(views.take(i as int + 1).last() == which@[i as int]@);
            decisions::mark_unprocessed(
                self.style,
                &mut self.items,
                &which[i],
                self.failures.get(&which[i]),
                reason,
            );
        }
        assert(views.take(which@.len() as int) =~= views);
    }

    fn log(
        &self,
        duration_ms: u64,
        outcome: &str,
        missing: usize,
        error: Option<(String, String)>,
    ) -> (event: AnalysisLogEvent)
        requires
            self.is_sound(),
            self@.is_waiting(),
            missing <= self@.batch().len(),
        ensures
            event@ == diagnostics::batch_log(
                phase(self@.retry),
                if self@.retry {
                    2
                } else {
                    1
                },
                (self@.index + 1) as usize,
                self@.ranges.len() as usize,
                self@.batch(),
                duration_ms,
                outcome@,
                (self@.batch().len() - missing) as nat,
                missing as nat,
                diagnostics::error_view(error),
            ),
    {
        proof {
            answered_files(self@);
        }
        let start: usize = self.ranges[self.index].start;
        let end: usize = self.ranges[self.index].end;
        let batch = vstd::slice::slice_subrange(self.queue.as_slice(), start, end);
        assert(records::context_views(batch@) =~= self@.batch());
        let attempt: usize = if self.retry {
            2
        } else {
            1
        };
        diagnostics::batch_log_event(
            phase_text(self.retry),
            attempt,
            self.index + 1,
            self.ranges.len(),
            batch,
            duration_ms,
            outcome,
            batch.len() - missing,
            missing,
            error,
        )
    }

    fn warn(&mut self, message: String)
        ensures
            *final(self) == (Refinement { warnings: final(self).warnings, ..*old(self) }),
            records::text_views(final(self).warnings@) == records::text_views(
                old(self).warnings@,
            ).push(message@),
    {
        let ghost before = self.warnings@;
        self.warnings.push(message);
        assert(records::text_views(self.warnings@) =~= records::text_views(before).push(message@));
    }

    fn apply(&mut self, sort: &SortSettings, answers: &Vec<AiDecision>) -> (missing: Vec<String>)
        requires
            old(self).is_sound(),
            old(self)@.is_waiting(),
        ensures
            final(self).is_sound(),
            final(self)@ == (RunView {
                items: decisions::after_batch(
                    old(self)@.style,
                    sort.mode@,
                    old(self)@.items,
                    old(self)@.batch(),
                    records::decision_views(answers@),
                ),
                ..old(self)@
            }),
            records::text_views(missing@) == decisions::missing_ids(
                old(self)@.batch(),
                records::decision_views(answers@),
            ),
            missing@.len() <= old(self)@.batch().len(),
    {
        proof {
            answered_files(self@);
        }
        let ghost s = self@;
        let start: usize = self.ranges[self.index].start;
        let end: usize = self.ranges[self.index].end;
        let batch = vstd::slice::slice_subrange(self.queue.as_slice(), start, end);
        assert(records::context_views(batch@) =~= s.batch());
        let missing = decisions::apply_batch_decisions(
            self.style,
            sort,
            &mut self.items,
            batch,
            answers,
        );
        assert(self@.attempted() == s.attempted());
        missing
    }

    fn decisions_log(&self, missing: usize, duration_ms: u64, Ghost(answers): Ghost<Seq<DecisionView>>) -> (event:
        AnalysisLogEvent)
        requires
            self.is_sound(),
            self@.is_waiting(),
            missing <= self@.batch().len(),
            decisions::missing_ids(self@.batch(), answers).len() == missing,
        ensures
            event@ == reply_log(self@, ReplyView::Decisions(answers), duration_ms),
    {
        if missing == 0 {
            self.log(duration_ms, "success", 0, None)
        } else {
            let detail = if self.retry {
                PARTIAL_AGAIN_DETAIL
            } else {
                PARTIAL_DETAIL
            };
            self.log(
                duration_ms,
                "partial",
                missing,
                Some((PARTIAL_KIND.to_owned(), detail.to_owned())),
            )
        }
    }

    fn settle(&mut self, missing: &Vec<String>)
        requires
            old(self).is_sound(),
            old(self)@.is_waiting(),
            missing@.len() <= old(self)@.batch().len(),
        ensures
            final(self).is_sound(),
            final(self)@ == settled(old(self)@, records::text_views(missing@)),
    {
        let ghost s = self@;
        let ghost open = records::text_views(missing@);
        proof {
            answered_files(s);
        }
        let start: usize = self.ranges[self.index].start;
        let end: usize = self.ranges[self.index].end;
        if missing.len() > 0 {
            self.warn(partial_text(self.retry, self.index + 1, missing.len()));
        }
        if self.retry {
            self.retry_succeeded = self.retry_succeeded + (end - start - missing.len());
            self.give_up(missing, PARTIAL_AGAIN_REASON);
        } else {
            self.note(missing, PARTIAL_REASON);
        }
        self.index = self.index + 1;
        assert(self@.attempted() == (RunView { index: s.index + 1, ..s }).attempted());
        assert(self@ =~= settled(s, open));
    }

    fn due_ids(&self) -> (which: Vec<String>)
        requires
            self.is_sound(),
            self@.is_waiting(),
        ensures
            records::text_views(which@) == ids(self@.batch()),
            which@.len() == self@.batch().len(),
    {
        proof {
            answered_files(self@);
        }
        let start: usize = self.ranges[self.index].start;
        let end: usize = self.ranges[self.index].end;
        let mut which: Vec<String> = Vec::new();
        for i in start..end
            invariant
                start <= end <= self.queue@.len(),
                which@.len() == i - start,
                forall|j: int|
                    0 <= j < i - start ==> (#[trigger] which@[j])@ == self.queue@[start + j].id@,
        {
            which.push(self.queue[i].id.clone());
        }
        assert(records::text_views(which@) =~= ids(self@.batch()));
        which
    }

    fn fail(&mut self, which: &Vec<String>, detail: &str)
        requires
            old(self).is_sound(),
            old(self)@.is_waiting(),
            which@.len() == old(self)@.batch().len(),
        ensures
            final(self).is_sound(),
            final(self)@ == failed(old(self)@, records::text_views(which@), detail@),
    {
        let ghost s = self@;
        let ghost open = records::text_views(which@);
        proof {
            answered_files(s);
        }
        self.warn(failure_text(self.retry, self.index + 1, detail, which.len()));
        if self.retry {
            self.give_up(which, detail);
        } else {
            self.note(which, detail);
        }
        self.index = self.index + 1;
        assert(self@.attempted() == (RunView { index: s.index + 1, ..s }).attempted());
        assert(self@ =~= failed(s, open, detail@));
    }

    fn take_decisions(&mut self, sort: &SortSettings, answers: &Vec<AiDecision>, duration_ms: u64)
        -> (event: AnalysisLogEvent)
        requires
            old(self).is_sound(),
            old(self)@.is_waiting(),
        ensures
            final(self).is_sound(),
            final(self)@ == answered(
                sort.mode@,
                old(self)@,
                ReplyView::Decisions(records::decision_views(answers@)),
            ),
            event@ == reply_log(
                old(self)@,
                ReplyView::Decisions(records::decision_views(answers@)),
                duration_ms,
            ),
    {
        let missing = self.apply(sort, answers);
        let event = self.decisions_log(
            missing.len(),
            duration_ms,
            Ghost(records::decision_views(answers@)),
        );
        self.settle(&missing);
        event
    }

    fn take_failure(&mut self, error: &str, duration_ms: u64) -> (event: AnalysisLogEvent)
        requires
            old(self).is_sound(),
            old(self)@.is_waiting(),
        ensures
            final(self).is_sound(),
            final(self)@ == failed(
                old(self)@,
                ids(old(self)@.batch()),
                diagnostics::error_detail(error@),
            ),
            event@ == reply_log(old(self)@, ReplyView::Failure(error@), duration_ms),
    {
        let (kind, detail) = diagnostics::anonymized_error(error);
        let which = self.due_ids();
        let event = self.log(
            duration_ms,
            "error",
            which.len(),
            Some((kind, detail.clone())),
        );
        self.fail(&which, &detail);
        event
    }

    fn stop(&self, duration_ms: u64) -> (turn: Turn)
        requires
            self.is_sound(),
            self@.is_waiting(),
        ensures
            turn_view(self@, turn) == continuing(
                Seq::empty(),
                self@,
                ReplyView::Cancelled,
                duration_ms,
            ),
    {
        let size: usize = self.due_ids().len();
        let error = Some(("cancelled".to_owned(), CANCELLED_BY_USER.to_owned()));
        let mut notices: Vec<Notice> = Vec::new();
        notices.push(Notice::Log(self.log(duration_ms, "cancelled", size, error)));
        assert(notice_views(notices@) =~= seq![
            NoticeView::Log(reply_log(self@, ReplyView::Cancelled, duration_ms)),
        ]);
        Turn { notices, step: Step::Cancelled(CANCELLED_BY_USER.to_owned()) }
    }

    fn go_on(&mut self, event: AnalysisLogEvent) -> (turn: Turn)
        requires
            old(self).is_sound(),
        ensures
            final(self).is_sound(),
            turn_view(final(self)@, turn) == onward(old(self)@, event@),
    {
        let ghost after = self@;
        let ghost line = event@;
        let mut notices: Vec<Notice> = Vec::new();
        notices.push(Notice::Log(event));
        let message = closing_text(self.retry, self.index, self.ranges.len());
        notices.push(Notice::Progress(self.report(message)));
        assert(notice_views(notices@) =~= seq![
            NoticeView::Log(line),
            NoticeView::Progress(
                progress(after, closing_message(after.retry, after.index, after.ranges.len())),
            ),
        ]);
        let step = self.proceed(&mut notices);
        Turn { notices, step }
    }

    /// Goes on after a reply to the request that was due. The duration is that of the
    /// request.
    pub fn answer(
        &mut self,
        sort: &SortSettings,
        reply: Result<Vec<AiDecision>, BatchError>,
        duration_ms: u64,
    ) -> (turn: Turn)
        requires
            old(self).is_sound(),
            old(self)@.is_waiting(),
        ensures
            final(self).is_sound(),
            turn_view(final(self)@, turn) == continuing(
                sort.mode@,
                old(self)@,
                reply_view(reply),
                duration_ms,
            ),
    {
        let event = match &reply {
            Ok(answers) => self.take_decisions(sort, answers, duration_ms),
            Err(BatchError::Failure(error)) => self.take_failure(error, duration_ms),
            Err(BatchError::Cancelled) => {
                return self.stop(duration_ms);
            },
        };
        self.go_on(event)
    }

    /// The plan.
    pub fn into_items(self) -> (items: Vec<PlanItem>)
        ensures
            records::item_views(items@) == self@.items,
    {
        self.items
    }
}

/// The state after some files of a request stayed open.
spec fn settled(s: RunView, missing: Seq<Seq<char>>) -> RunView {
    RunView {
        items: if s.retry {
            after_giving_up_all(s.style, s.items, missing, s.failures, PARTIAL_AGAIN_REASON@)
        } else {
            s.items
        },
        index: s.index + 1,
        failures: if s.retry {
            s.failures
        } else {
            failures::with_reason(s.failures, missing, PARTIAL_REASON@)
        },
        warnings: if missing.len() == 0 {
            s.warnings
        } else {
            s.warnings.push(partial_warning(s.retry, s.index + 1, missing.len()))
        },
        retry_succeeded: if s.retry {
            (s.retry_succeeded + s.batch().len() - missing.len()) as nat
        } else {
            s.retry_succeeded
        },
        ..s
    }
}

/// The state after a request for some files failed.
spec fn failed(s: RunView, which: Seq<Seq<char>>, detail: Seq<char>) -> RunView {
    RunView {
        items: if s.retry {
            after_giving_up_all(s.style, s.items, which, s.failures, detail)
        } else {
            s.items
        },
        index: s.index + 1,
        failures: if s.retry {
            s.failures
        } else {
            failures::with_reason(s.failures, which, detail)
        },
        warnings: s.warnings.push(failure_warning(s.retry, s.index + 1, detail, which.len())),
        ..s
    }
}

} // verus!
