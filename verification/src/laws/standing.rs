//! What records and steps stand for: everything that they hold, and nothing else.

use crate::execution::{DiskEvent, EventView, MoveStep, MoveStepView};
use crate::history::{HistoryStep, HistoryStepView};
use crate::models;
use crate::models::ModelEntry;
use crate::moves;
use crate::moves::PlannedMove;
use crate::names;
use crate::paths;
use crate::paths::{Component, Part, Prefix, PrefixView, Style};
use crate::planning::{PlanStep, PlanStepView};
use crate::previews::Preview;
use crate::records;
use crate::records::{
    AiDecision, AiFileContext, AnalysisLogEvent, AnalysisProgress, ExtensionCount, PlanItem,
};
use crate::refinement;
use crate::refinement::{
    AiRefinement, BatchError, Notice, NoticeView, ReplyView, RunView, Step, StepView, Turn,
};
use crate::requests;
use crate::requests::{ChatRequest, RequestView};
use crate::scan;
use crate::scan::Scan;
use vstd::prelude::*;

verus! {

/// Whether a text that may be missing stands for another: both are missing, or they are the same.
pub open spec fn tells(text: Option<String>, view: Option<Seq<char>>) -> bool {
    match (text, view) {
        (Some(text), Some(view)) => text@ == view,
        (None, None) => true,
        _ => false,
    }
}

/// What is known of a file stands for itself, field by field.
pub proof fn files_stand_for_what_is_known(item: PlanItem, context: AiFileContext)
    ensures
        item@.id == item.id@,
        item@.source == item.source@,
        item@.relative_path == item.relative_path@,
        item@.target == item.target@,
        item@.category == item.category@,
        item@.explanation == item.explanation@,
        item@.confidence == item.confidence,
        item@.included == item.included,
        tells(item.warning, item@.warning),
        item@.ai_status == item.ai_status,
        tells(item.ai_error, item@.ai_error),
        context@.id == context.id@,
        context@.path == context.path@,
        context@.extension == context.extension@,
        context@.size_bytes == context.size_bytes,
        tells(context.created_at, context@.created_at),
        tells(context.modified_at, context@.modified_at),
        context@.suggested_category == context.suggested_category@,
        tells(context.content_extract, context@.content_extract),
        context@.content_status == context.content_status@,
{
}

/// What is said of a file, a move and a model stands for itself, field by field.
pub proof fn words_stand_for_themselves(
    decision: AiDecision,
    one: PlannedMove,
    entry: ModelEntry,
    preview: Preview,
    count: ExtensionCount,
)
    ensures
        decision@.id == decision.id@,
        decision@.category == decision.category@,
        tells(decision.explanation, decision@.explanation),
        decision@.confidence == decision.confidence,
        one@.from == one.from@,
        one@.to == one.to@,
        tells(entry.kind, entry@.kind),
        tells(entry.name, entry@.name),
        tells(entry.instance, entry@.instance),
        tells(preview.extract, preview@.extract),
        preview@.status == preview.status@,
        count@.extension == count.extension@,
        count@.count == count.count,
{
}

/// What is told of a run stands for itself, field by field.
pub proof fn notices_stand_for_themselves(
    line: AnalysisLogEvent,
    progress: AnalysisProgress,
)
    ensures
        line@.phase == line.phase@,
        line@.attempt == line.attempt,
        line@.batch_number == line.batch_number,
        line@.total_batches == line.total_batches,
        line@.file_count == line.file_count,
        line@.extensions == records::count_views(line.extensions@),
        line@.duration_ms == line.duration_ms,
        line@.outcome == line.outcome@,
        line@.successful_files == line.successful_files,
        line@.unresolved_files == line.unresolved_files,
        line@.skipped_files == line.skipped_files,
        line@.input_bytes == line.input_bytes,
        tells(line.error_kind, line@.error_kind),
        tells(line.error_detail, line@.error_detail),
        progress@.phase == progress.phase@,
        progress@.completed_batches == progress.completed_batches,
        progress@.total_batches == progress.total_batches,
        progress@.processed_files == progress.processed_files,
        progress@.pending_files == progress.pending_files,
        progress@.not_attempted_files == progress.not_attempted_files,
        progress@.retry_pending_files == progress.retry_pending_files,
        progress@.message == progress.message@,
        Notice::Log(line)@ == NoticeView::Log(line@),
        Notice::Progress(progress)@ == NoticeView::Progress(progress@),
{
}

/// A scan stands for what it has found.
pub proof fn scans_stand_for_what_they_found(s: Scan)
    ensures
        s@.style == s.style,
        s@.total_chars == s.total_chars,
        s@.items == records::item_views(s.items@),
        s@.contexts == records::context_views(s.contexts@),
        s@.warnings == records::text_views(s.warnings@),
        s@.inaccessible_files == s.inaccessible_files,
{
}

/// A list of files stands for what its files stand for, one by one and in their order.
pub proof fn lists_of_files_stand_for_their_files(
    items: Seq<PlanItem>,
    contexts: Seq<AiFileContext>,
    decisions: Seq<AiDecision>,
)
    ensures
        records::item_views(items) == items.map_values(|item: PlanItem| item@),
        records::context_views(contexts) == contexts.map_values(|context: AiFileContext| context@),
        records::decision_views(decisions) == decisions.map_values(
            |decision: AiDecision| decision@,
        ),
{
}

/// Every other list stands for what its parts stand for, one by one and in their order.
pub proof fn lists_stand_for_their_parts(
    texts: Seq<String>,
    counts: Seq<ExtensionCount>,
    list: Seq<PlannedMove>,
    entries: Seq<ModelEntry>,
    notices: Seq<Notice>,
)
    ensures
        records::text_views(texts) == texts.map_values(|one: String| one@),
        records::count_views(counts) == counts.map_values(|count: ExtensionCount| count@),
        moves::move_views(list) == list.map_values(|one: PlannedMove| one@),
        models::entry_views(entries) == entries.map_values(|entry: ModelEntry| entry@),
        refinement::notice_views(notices) == notices.map_values(|notice: Notice| notice@),
{
}

/// A step on the disk is about the places that it names.
pub proof fn disk_steps_name_their_places(
    place: String,
    other: String,
    one: PlannedMove,
    count: usize,
    found: bool,
)
    ensures
        MoveStep::CreateFolder(place)@ == MoveStepView::CreateFolder(place@),
        MoveStep::Check(place)@ == MoveStepView::Check(place@),
        MoveStep::Rename(one)@ == MoveStepView::Rename(one@),
        MoveStep::Seal@ == MoveStepView::Seal,
        MoveStep::Done(count)@ == MoveStepView::Done(count as nat),
        MoveStep::Failed(place)@ == MoveStepView::Failed(place@),
        DiskEvent::Done@ == EventView::Done,
        DiskEvent::Failed(place)@ == EventView::Failed(place@),
        DiskEvent::Checked(found)@ == EventView::Checked(found),
        PlanStep::Locate(place)@ == PlanStepView::Locate(place@),
        PlanStep::Probe(place)@ == PlanStepView::Probe(place@),
        PlanStep::Planned@ == PlanStepView::Planned,
        PlanStep::Refused(place)@ == PlanStepView::Refused(place@),
        HistoryStep::Write(place)@ == HistoryStepView::Write(place@),
        HistoryStep::Check(place)@ == HistoryStepView::Check(place@),
        HistoryStep::Rename(place, other)@ == HistoryStepView::Rename(place@, other@),
        HistoryStep::Remove(place)@ == HistoryStepView::Remove(place@),
        HistoryStep::Saved@ == HistoryStepView::Saved,
        HistoryStep::Failed(place)@ == HistoryStepView::Failed(place@),
{
}

/// A step of a run is about the files that it holds or the numbers with which it ended, and a reply is
/// what came back.
pub proof fn run_steps_hold_their_files(
    batch: Vec<AiFileContext>,
    ended: AiRefinement,
    message: String,
    decisions: Vec<AiDecision>,
)
    ensures
        Step::Request(batch)@ == StepView::Request(records::context_views(batch@)),
        Step::Finished(ended)@ == (StepView::Finished {
            processed: ended.summary.ai_processed as nat,
            retry_succeeded: ended.summary.retry_succeeded as nat,
            unprocessed: ended.summary.ai_unprocessed as nat,
            warnings: records::text_views(ended.warnings@),
        }),
        Step::Cancelled(message)@ == StepView::Cancelled(message@),
        refinement::reply_view(Ok(decisions)) == ReplyView::Decisions(
            records::decision_views(decisions@),
        ),
        refinement::reply_view(Err(BatchError::Failure(message))) == ReplyView::Failure(message@),
        refinement::reply_view(Err(BatchError::Cancelled)) == ReplyView::Cancelled,
{
}

/// A turn of a run holds what is told and what is done then, and belongs to the state that it led to.
pub proof fn turns_hold_what_is_told_and_done(state: RunView, turn: Turn)
    ensures
        refinement::turn_view(state, turn).state == state,
        refinement::turn_view(state, turn).notices == turn.notices@.map_values(
            |notice: Notice| notice@,
        ),
        refinement::turn_view(state, turn).step == turn.step@,
{
}

/// The parts of a path stand for the names that they hold.
pub proof fn components_stand_for_their_names(
    list: Seq<Component>,
    name: String,
    share: String,
    letter: char,
)
    ensures
        paths::component_views(list) == list.map_values(|part: Component| part@),
        Component::Normal(name)@ == Part::Normal(name@),
        Component::RootDir@ == Part::RootDir,
        Component::CurDir@ == Part::CurDir,
        Component::ParentDir@ == Part::ParentDir,
        Component::Prefix(Prefix::Disk(letter))@ == Part::Prefix(PrefixView::Disk(letter)),
        Component::Prefix(Prefix::VerbatimDisk(letter))@ == Part::Prefix(
            PrefixView::VerbatimDisk(letter),
        ),
        Component::Prefix(Prefix::Unc(name, share))@ == Part::Prefix(
            PrefixView::Unc(name@, share@),
        ),
        Component::Prefix(Prefix::VerbatimUnc(name, share))@ == Part::Prefix(
            PrefixView::VerbatimUnc(name@, share@),
        ),
        Component::Prefix(Prefix::Verbatim(name))@ == Part::Prefix(PrefixView::Verbatim(name@)),
        Component::Prefix(Prefix::Device(name))@ == Part::Prefix(PrefixView::Device(name@)),
{
}

/// A place that was worked out is handed on as it is, and so is the reason why there is none.
pub proof fn places_and_reasons_are_handed_on(
    result: Result<String, String>,
    expected: Result<Seq<char>, Seq<char>>,
)
    ensures
        names::is_outcome(result, expected) <==> result is Ok == expected is Ok && (result is Ok
            ==> result->Ok_0@ == expected->Ok_0) && (result is Err ==> result->Err_0@
            == expected->Err_0),
{
}

/// A request goes out with its place, its key and its body, or the reason why there is none is told.
pub proof fn requests_go_out_as_they_are_made(
    request: Result<ChatRequest, String>,
    expected: Result<RequestView, Seq<char>>,
)
    ensures
        requests::is_request(request, expected) <==> request is Ok == expected is Ok && (request
            is Ok ==> request->Ok_0.url@ == expected->Ok_0.url && tells(
            request->Ok_0.bearer,
            expected->Ok_0.bearer,
        ) && request->Ok_0.body@ == expected->Ok_0.body) && (request is Err ==> request->Err_0@
            == expected->Err_0),
{
}

/// A place is free where nothing is and nothing was promised, in whatever case its name is written.
pub proof fn free_places_are_neither_taken_nor_promised(
    place: Seq<char>,
    exists: bool,
    reserved: Set<Seq<char>>,
)
    ensures
        moves::is_free(place, exists, reserved) <==> !exists && !reserved.contains(
            names::path_key(place),
        ),
{
}

/// A file is left out for its own name, whatever its folders are called.
pub proof fn files_are_left_out_by_their_names(style: Style, path: Seq<char>)
    ensures
        scan::is_skipped_path(style, path) <==> paths::file_name(style, path) is Some
            && scan::is_skipped(paths::file_name(style, path)->0),
{
}

} // verus!
