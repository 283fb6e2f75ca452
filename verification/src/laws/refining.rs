//! How a run asks the model, and what it says on the way.

use crate::batches;
use crate::decisions;
use crate::diagnostics;
use crate::failures;
use crate::paths::Style;
use crate::records::{AiStatus, ContextView, DecisionView, PlanItemView};
use crate::refinement;
use crate::refinement::{NoticeView, ReplyView, RunView, StepView};
use crate::runs;
use crate::text;
use vstd::prelude::*;

verus! {

// ---------------------------------------------------------------------------
// Which files are asked about
// ---------------------------------------------------------------------------

/// Whether the item of a file waits for a decision.
pub open spec fn waits(items: Seq<PlanItemView>, context: ContextView) -> bool {
    decisions::status_of(items, context.id) == Some(AiStatus::RetryPending)
}

/// The second pass is about the files that the first one left open, all of them and in their order.
pub proof fn open_files_are_asked_about_again(s: RunView)
    ensures
        refinement::second_pass(s).queue == s.queue.filter(
            |context: ContextView| waits(s.items, context),
        ),
        refinement::second_pass(s).retry,
        refinement::second_pass(s).index == 0,
        refinement::second_pass(s).items == s.items,
        refinement::second_pass(s).failures == s.failures,
        refinement::second_pass(s).warnings == s.warnings,
        refinement::second_pass(s).ranges == batches::ranges_of(refinement::second_pass(s).queue),
{
    open_files_are_kept(s.items, s.queue);
}

proof fn open_files_are_kept(items: Seq<PlanItemView>, queue: Seq<ContextView>)
    ensures
        refinement::still_open(items, queue) == queue.filter(
            |context: ContextView| waits(items, context),
        ),
    decreases queue.len(),
{
    reveal(Seq::filter);
    if queue.len() == 0 {
        assert(refinement::still_open(items, queue) =~= queue.filter(
            |context: ContextView| waits(items, context),
        ));
    } else {
        open_files_are_kept(items, queue.drop_last());
    }
}

/// The first pass is about all files, and nothing is said or settled before it.
pub proof fn all_files_are_asked_about(
    style: Style,
    items: Seq<PlanItemView>,
    contexts: Seq<ContextView>,
)
    ensures
        ({
            let s = refinement::first_pass(style, items, contexts);
            &&& s.queue == contexts
            &&& s.items == items
            &&& !s.retry
            &&& s.index == 0
            &&& s.ranges == batches::ranges_of(contexts)
            &&& s.main_batches == s.ranges.len()
            &&& s.failures.dom().len() == 0
            &&& s.warnings.len() == 0
            &&& s.retry_succeeded == 0
        }),
        items.len() == 0 ==> refinement::beginning(style, items, contexts).step
            == (StepView::Finished {
            processed: 0,
            retry_succeeded: 0,
            unprocessed: 0,
            warnings: Seq::empty(),
        }),
        items.len() == 0 ==> refinement::beginning(style, items, contexts).notices == seq![
            NoticeView::Progress(refinement::nothing_to_do()),
        ],
        refinement::nothing_to_do().phase == "complete"@,
        refinement::nothing_to_do().message == "В выбранной папке нет файлов для анализа."@,
        refinement::nothing_to_do().completed_batches == 0,
        refinement::nothing_to_do().total_batches == 0,
        refinement::nothing_to_do().processed_files == 0,
        refinement::nothing_to_do().pending_files == 0,
        refinement::nothing_to_do().not_attempted_files == 0,
        refinement::nothing_to_do().retry_pending_files == 0,
        items.len() > 0 ==> refinement::beginning(style, items, contexts) == refinement::proceeding(
            refinement::first_pass(style, items, contexts),
        ),
{
}

/// A request is about the files of its range: those from where the requests before it have ended.
pub proof fn requests_are_about_the_next_files(s: RunView)
    requires
        s.index < s.ranges.len(),
    ensures
        refinement::proceeding(s).step == StepView::Request(
            s.queue.subrange(
                s.ranges[s.index as int].start as int,
                s.ranges[s.index as int].end as int,
            ),
        ),
        refinement::proceeding(s).state == s,
{
}

/// After the requests of the first pass come those of the second, where there are any; after those of
/// the second the run ends, with what became of the files.
pub proof fn two_passes_and_an_end(s: RunView)
    requires
        s.index >= s.ranges.len(),
    ensures
        s.retry ==> refinement::proceeding(s).step == (StepView::Finished {
            processed: decisions::count_with(s.items, AiStatus::Processed),
            retry_succeeded: s.retry_succeeded,
            unprocessed: decisions::count_with(s.items, AiStatus::Unprocessed),
            warnings: s.warnings,
        }),
        !s.retry && refinement::second_pass(s).ranges.len() > 0 ==> refinement::proceeding(s).step
            == StepView::Request(refinement::second_pass(s).batch()) && refinement::proceeding(
            s,
        ).state == refinement::second_pass(s),
        !s.retry && refinement::second_pass(s).ranges.len() == 0 ==> refinement::proceeding(s).step
            == (StepView::Finished {
            processed: decisions::count_with(s.items, AiStatus::Processed),
            retry_succeeded: s.retry_succeeded,
            unprocessed: decisions::count_with(s.items, AiStatus::Unprocessed),
            warnings: s.warnings,
        }),
{
}

// ---------------------------------------------------------------------------
// What a reply does
// ---------------------------------------------------------------------------

/// A request that fails in the first pass changes no file; why it failed is noted for each of its
/// files, and the next request is due.
pub proof fn a_first_failure_is_noted(mode: Seq<char>, s: RunView, error: Seq<char>)
    requires
        !s.retry,
        s.failures.dom().finite(),
    ensures
        ({
            let after = refinement::answered(mode, s, ReplyView::Failure(error));
            let detail = diagnostics::error_detail(error);
            &&& after.items == s.items
            &&& after.index == s.index + 1
            &&& after.queue == s.queue
            &&& after.ranges == s.ranges
            &&& after.retry == s.retry
            &&& after.retry_succeeded == s.retry_succeeded
            &&& after.warnings == s.warnings.push(
                refinement::failure_warning(false, s.index + 1, detail, s.batch().len()),
            )
            &&& forall|k: int|
                0 <= k < s.batch().len() ==> failures::reason_for(
                    after.failures,
                    (#[trigger] s.batch()[k]).id,
                ) == Some(detail)
        }),
{
    let detail = diagnostics::error_detail(error);
    let batch = s.batch();
    failures::with_reason_covers_the_ids(s.failures, refinement::ids(batch), detail);
    let after = refinement::answered(mode, s, ReplyView::Failure(error));
    assert forall|k: int| 0 <= k < batch.len() implies failures::reason_for(
        after.failures,
        (#[trigger] batch[k]).id,
    ) == Some(detail) by {
        assert(refinement::ids(batch)[k] == batch[k].id);
        assert(refinement::ids(batch).contains(batch[k].id));
        assert(failures::reason_for(
            failures::with_reason(s.failures, refinement::ids(batch), detail),
            batch[k].id,
        ) == Some(detail));
    }
}

/// Answers in the first pass settle the files that they speak of; for each of the others it is noted
/// that no answer spoke of it.
pub proof fn first_answers_settle_or_are_noted(
    mode: Seq<char>,
    s: RunView,
    answers: Seq<DecisionView>,
)
    requires
        !s.retry,
        s.failures.dom().finite(),
    ensures
        ({
            let after = refinement::answered(mode, s, ReplyView::Decisions(answers));
            let missing = decisions::missing_ids(s.batch(), answers);
            &&& after.items == decisions::after_batch(s.style, mode, s.items, s.batch(), answers)
            &&& after.index == s.index + 1
            &&& after.queue == s.queue
            &&& after.ranges == s.ranges
            &&& after.retry == s.retry
            &&& after.retry_succeeded == s.retry_succeeded
            &&& missing.len() == 0 ==> after.warnings == s.warnings
            &&& missing.len() > 0 ==> after.warnings == s.warnings.push(
                refinement::partial_warning(false, s.index + 1, missing.len()),
            )
            &&& forall|k: int|
                0 <= k < missing.len() ==> failures::reason_for(
                    after.failures,
                    #[trigger] missing[k],
                ) == Some("Модель вернула частичный ответ: решение для файла отсутствует."@)
            &&& forall|id: Seq<char>|
                !missing.contains(id) ==> #[trigger] failures::reason_for(after.failures, id)
                    == failures::reason_for(s.failures, id)
        }),
{
    let missing = decisions::missing_ids(s.batch(), answers);
    let reason = "Модель вернула частичный ответ: решение для файла отсутствует."@;
    failures::with_reason_covers_the_ids(s.failures, missing, reason);
    let noted = failures::with_reason(s.failures, missing, reason);
    assert forall|k: int| 0 <= k < missing.len() implies failures::reason_for(
        noted,
        #[trigger] missing[k],
    ) == Some(reason) by {
        assert(missing.contains(missing[k]));
        assert(failures::reason_for(
            failures::with_reason(s.failures, missing, reason),
            missing[k],
        ) == Some(reason));
    }
    assert forall|id: Seq<char>| !missing.contains(id) implies #[trigger] failures::reason_for(
        noted,
        id,
    ) == failures::reason_for(s.failures, id) by {
        assert(failures::reason_for(
            failures::with_reason(s.failures, missing, reason),
            id,
        ) == failures::reason_for(s.failures, id));
    }
}

/// A request that fails in the second pass gives up each of its files, for that reason and the one that
/// was noted before; no other file changes.
pub proof fn a_second_failure_gives_up(mode: Seq<char>, s: RunView, error: Seq<char>)
    requires
        s.retry,
        runs::distinct_items(s.items),
        runs::distinct_files(s.batch()),
    ensures
        ({
            let after = refinement::answered(mode, s, ReplyView::Failure(error));
            let detail = diagnostics::error_detail(error);
            &&& after.index == s.index + 1
            &&& after.failures == s.failures
            &&& after.retry_succeeded == s.retry_succeeded
            &&& after.warnings == s.warnings.push(
                refinement::failure_warning(true, s.index + 1, detail, s.batch().len()),
            )
            &&& after.items.len() == s.items.len()
            &&& forall|i: int|
                0 <= i < s.items.len() ==> (#[trigger] after.items[i]) == if runs::is_among(
                    s.batch(),
                    s.items[i].id,
                ) {
                    decisions::given_up(
                        s.style,
                        s.items[i],
                        decisions::given_up_detail(
                            failures::reason_for(s.failures, s.items[i].id),
                            detail,
                        ),
                    )
                } else {
                    s.items[i]
                }
        }),
{
    let detail = diagnostics::error_detail(error);
    let batch = s.batch();
    let which = refinement::ids(batch);
    assert(which.no_duplicates()) by {
        assert forall|i: int, j: int| 0 <= i < j < which.len() implies which[i] != which[j] by {
            assert(batch[i].id != batch[j].id);
        }
    }
    runs::giving_up_by_item(s.style, s.items, which, s.failures, detail);
    assert forall|i: int| 0 <= i < s.items.len() implies which.contains(
        (#[trigger] s.items[i]).id,
    ) == runs::is_among(batch, s.items[i].id) by {
        ids_are_those_of_the_files(batch, s.items[i].id);
    }
}

proof fn ids_are_those_of_the_files(batch: Seq<ContextView>, id: Seq<char>)
    ensures
        refinement::ids(batch).contains(id) <==> runs::is_among(batch, id),
{
    let which = refinement::ids(batch);
    if which.contains(id) {
        let k = choose|k: int| 0 <= k < which.len() && which[k] == id;
        assert(batch[k].id == id);
    }
    if runs::is_among(batch, id) {
        let k = choose|k: int| 0 <= k < batch.len() && (#[trigger] batch[k]).id == id;
        assert(which[k] == id);
    }
}

/// Answers in the second pass are counted by the files that they settle, and each file that none speaks
/// of is given up.
pub proof fn second_answers_settle_or_give_up(
    mode: Seq<char>,
    s: RunView,
    answers: Seq<DecisionView>,
)
    requires
        s.retry,
    ensures
        ({
            let after = refinement::answered(mode, s, ReplyView::Decisions(answers));
            let missing = decisions::missing_ids(s.batch(), answers);
            &&& after.items == refinement::after_giving_up_all(
                s.style,
                decisions::after_batch(s.style, mode, s.items, s.batch(), answers),
                missing,
                s.failures,
                "Модель снова вернула частичный ответ: решение для файла отсутствует."@,
            )
            &&& after.index == s.index + 1
            &&& after.failures == s.failures
            &&& missing.len() <= s.batch().len() ==> after.retry_succeeded + missing.len()
                == s.retry_succeeded + s.batch().len()
            &&& missing.len() == 0 ==> after.warnings == s.warnings
            &&& missing.len() > 0 ==> after.warnings == s.warnings.push(
                refinement::partial_warning(true, s.index + 1, missing.len()),
            )
        }),
{
}

// ---------------------------------------------------------------------------
// What is said
// ---------------------------------------------------------------------------

/// What is told after a reply: the line of the log, how far the run has come, and then what is told of
/// the next step. A cancellation is logged and ends the run.
pub proof fn replies_are_told_in_order(
    mode: Seq<char>,
    s: RunView,
    reply: ReplyView,
    duration: u64,
)
    ensures
        ({
            let turn = refinement::continuing(mode, s, reply, duration);
            let line = NoticeView::Log(refinement::reply_log(s, reply, duration));
            let after = refinement::answered(mode, s, reply);
            let said = refinement::closing_message(after.retry, after.index, after.ranges.len());
            &&& reply is Cancelled ==> turn.notices == seq![line] && turn.step
                == StepView::Cancelled("Анализ отменён пользователем"@) && turn.state == s
            &&& !(reply is Cancelled) ==> turn.notices == seq![
                line,
                NoticeView::Progress(refinement::progress(after, said)),
            ] + refinement::proceeding(after).notices && turn.step == refinement::proceeding(
                after,
            ).step && turn.state == refinement::proceeding(after).state
        }),
{
}

/// How a reply is logged: whether it settled all files of the request, some, or none, and why.
pub proof fn replies_are_logged(s: RunView, reply: ReplyView, duration: u64)
    requires
        s.index + 1 <= usize::MAX,
        s.ranges.len() <= usize::MAX,
    ensures
        ({
            let line = refinement::reply_log(s, reply, duration);
            let batch = s.batch();
            &&& line.phase == if s.retry {
                "retry"@
            } else {
                "main"@
            }
            &&& line.attempt == Some(if s.retry {
                2usize
            } else {
                1usize
            })
            &&& line.batch_number is Some && line.batch_number->0 == s.index + 1
            &&& line.total_batches is Some && line.total_batches->0 == s.ranges.len()
            &&& line.file_count == batch.len()
            &&& line.duration_ms == duration
            &&& reply matches ReplyView::Decisions(answers) ==> {
                let missing = decisions::missing_ids(batch, answers).len();
                &&& line.unresolved_files == missing
                &&& missing <= batch.len() ==> line.successful_files + missing == batch.len()
                &&& missing == 0 ==> line.outcome == "success"@ && line.error_kind is None
                &&& missing > 0 ==> line.outcome == "partial"@ && line.error_kind == Some(
                    "partial_response"@,
                )
                &&& missing > 0 && s.retry ==> line.error_detail == Some(
                    "Модель повторно не вернула решения для части файлов пакета"@,
                )
                &&& missing > 0 && !s.retry ==> line.error_detail == Some(
                    "Модель не вернула решения для части файлов пакета"@,
                )
            }
            &&& reply matches ReplyView::Failure(error) ==> {
                &&& line.outcome == "error"@
                &&& line.successful_files == 0
                &&& line.unresolved_files == batch.len()
                &&& line.error_kind == Some(diagnostics::error_class(error).0)
                &&& line.error_detail == Some(diagnostics::error_detail(error))
            }
            &&& reply is Cancelled ==> {
                &&& line.outcome == "cancelled"@
                &&& line.successful_files == 0
                &&& line.unresolved_files == batch.len()
                &&& line.error_kind == Some("cancelled"@)
                &&& line.error_detail == Some("Анализ отменён пользователем"@)
            }
        }),
{
}

/// How far a run has come: the requests that were answered, the files that are settled, and those that
/// are not. In the first pass these are the files that were not asked about yet and those that failed;
/// in the second those that still wait.
pub proof fn progress_is_counted(s: RunView, message: Seq<char>)
    requires
        s.attempted() <= s.queue.len(),
    ensures
        ({
            let told = refinement::progress(s, message);
            let waiting = decisions::count_with(s.items, AiStatus::RetryPending);
            &&& told.message == message
            &&& told.completed_batches == s.index
            &&& told.total_batches == s.ranges.len()
            &&& told.processed_files == decisions::count_with(s.items, AiStatus::Processed)
            &&& s.retry ==> told.phase == "retry"@ && told.pending_files == waiting
                && told.retry_pending_files == waiting && told.not_attempted_files == 0
            &&& !s.retry ==> told.phase == "main"@ && told.not_attempted_files + s.attempted()
                == s.queue.len() && told.retry_pending_files == s.failures.dom().len()
                && told.pending_files == told.not_attempted_files + told.retry_pending_files
        }),
        ({
            let told = refinement::completion(s);
            &&& told.phase == "complete"@
            &&& told.completed_batches == s.main_batches + s.ranges.len()
            &&& told.total_batches == told.completed_batches
            &&& told.processed_files == decisions::count_with(s.items, AiStatus::Processed)
            &&& told.pending_files == 0
            &&& told.not_attempted_files == 0
            &&& told.retry_pending_files == 0
            &&& told.message == "Анализ завершён: ИИ обработал "@ + text::decimal(
                decisions::count_with(s.items, AiStatus::Processed),
            ) + ", после повтора — "@ + text::decimal(s.retry_succeeded) + ", не обработано — "@
                + text::decimal(decisions::count_with(s.items, AiStatus::Unprocessed)) + "."@
        }),
{
}

/// What is told before a request and at the end of a run.
pub proof fn requests_are_announced(s: RunView)
    ensures
        s.index < s.ranges.len() ==> refinement::proceeding(s).notices == seq![
            NoticeView::Progress(
                refinement::progress(
                    s,
                    refinement::opening_message(s.retry, s.index + 1, s.ranges.len()),
                ),
            ),
        ],
        s.index >= s.ranges.len() && s.retry ==> refinement::proceeding(s).notices == seq![
            NoticeView::Progress(refinement::completion(s)),
        ],
{
}

proof fn passes_are_named()
    ensures
        "Основной проход: пакет "@ == "Основной проход"@ + ": пакет "@,
        "Повторный проход: пакет "@ == "Повторный проход"@ + ": пакет "@,
        "Основной проход: завершено пакетов "@ == "Основной проход"@ + ": завершено пакетов "@,
        "Повторный проход: завершено пакетов "@ == "Повторный проход"@ + ": завершено пакетов "@,
        "Основной проход, пакет "@ == "Основной проход"@ + ", пакет "@,
        "Повторный проход, пакет "@ == "Повторный проход"@ + ", пакет "@,
{
    reveal_strlit("Основной проход");
    reveal_strlit("Повторный проход");
    reveal_strlit(": пакет ");
    reveal_strlit(": завершено пакетов ");
    reveal_strlit(", пакет ");
    reveal_strlit("Основной проход: пакет ");
    reveal_strlit("Повторный проход: пакет ");
    reveal_strlit("Основной проход: завершено пакетов ");
    reveal_strlit("Повторный проход: завершено пакетов ");
    reveal_strlit("Основной проход, пакет ");
    reveal_strlit("Повторный проход, пакет ");
    assert("Основной проход: пакет "@ =~= "Основной проход"@ + ": пакет "@);
    assert("Повторный проход: пакет "@ =~= "Повторный проход"@ + ": пакет "@);
    assert("Основной проход: завершено пакетов "@ =~= "Основной проход"@ + ": завершено пакетов "@);
    assert("Повторный проход: завершено пакетов "@ =~= "Повторный проход"@
        + ": завершено пакетов "@);
    assert("Основной проход, пакет "@ =~= "Основной проход"@ + ", пакет "@);
    assert("Повторный проход, пакет "@ =~= "Повторный проход"@ + ", пакет "@);
}

/// The words that go with a request, before it and after it.
pub proof fn requests_are_numbered(number: nat, all: nat)
    ensures
        refinement::opening_message(false, number, all) == "Основной проход: пакет "@ + text::decimal(
            number,
        ) + " из "@ + text::decimal(all) + "…"@,
        refinement::opening_message(true, number, all) == "Повторный проход: пакет "@ + text::decimal(
            number,
        ) + " из "@ + text::decimal(all) + "…"@,
        refinement::closing_message(false, number, all) == "Основной проход: завершено пакетов "@
            + text::decimal(number) + " из "@ + text::decimal(all) + "."@,
        refinement::closing_message(true, number, all) == "Повторный проход: завершено пакетов "@
            + text::decimal(number) + " из "@ + text::decimal(all) + "."@,
{
    passes_are_named();
}

/// The warnings on a request: how many files it left open, or why it failed, and what becomes of them.
pub proof fn warnings_say_what_becomes_of_files(number: nat, files: nat, detail: Seq<char>)
    ensures
        refinement::partial_warning(false, number, files) == "Основной проход, пакет "@
            + text::decimal(number) + ": модель не вернула решения для "@ + text::decimal(files)
            + " файлов; они отправлены на повторную попытку."@,
        refinement::partial_warning(true, number, files) == "Повторный проход, пакет "@
            + text::decimal(number) + ": для "@ + text::decimal(files)
            + " файлов снова нет решения; они направлены в «"@ + "Не обработано ИИ"@ + "»."@,
        refinement::failure_warning(false, number, detail, files) == "Основной проход, пакет "@
            + text::decimal(number) + ": "@ + detail + ". На повторную попытку отправлено "@
            + text::decimal(files) + " файлов."@,
        refinement::failure_warning(true, number, detail, files) == "Повторный проход, пакет "@
            + text::decimal(number) + ": "@ + detail + ". В «"@ + "Не обработано ИИ"@
            + "» направлено "@ + text::decimal(files) + " файлов."@,
{
    passes_are_named();
}

} // verus!
