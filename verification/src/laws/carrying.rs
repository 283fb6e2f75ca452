//! How moves are planned, carried out, taken back and remembered.

use crate::execution;
use crate::execution::{EventView, MoveRunView, MoveStepView, Stage};
use crate::history;
use crate::history::{HistoryStage, HistoryStepView, WriterView};
use crate::moves;
use crate::moves::MoveView;
use crate::names;
use crate::paths;
use crate::paths::Style;
use crate::planning;
use crate::planning::{PlanStepView, PlannerView, SearchView};
use crate::text;
use vstd::prelude::*;

verus! {

// ---------------------------------------------------------------------------
// Plans
// ---------------------------------------------------------------------------

/// What becomes of a wish once it is known where its file is. A file outside the root, or one whose target
/// is refused, stops the plan. One that is where it should be is passed over, unless moves are undone. One
/// that is on the move already stops the plan. For every other one a free place is looked for, from the
/// place that was wished on.
pub proof fn wishes_are_taken_in_turn(p: PlannerView, source: Seq<char>)
    requires
        p.search is None,
        p.next < p.wishes.len(),
    ensures
        ({
            let (after, step) = planning::located(p, source);
            let target = p.wishes[p.next as int].to;
            let wished = if p.undo {
                names::recorded_destination(p.style, p.root, target)
            } else {
                names::destination(p.style, p.root, target)
            };
            let inside = paths::lies_in(p.style, source, p.root);
            let there = !p.undo && wished is Ok && paths::same_path(
                p.style,
                source,
                wished->Ok_0,
            );
            let again = p.seen.contains(names::path_key(source));
            &&& !inside ==> step == PlanStepView::Refused(
                "Путь выходит за пределы выбранной папки"@,
            ) && after == p
            &&& inside && wished is Err ==> step == PlanStepView::Refused(wished->Err_0) && after
                == p
            &&& inside && there ==> after == (PlannerView { next: p.next + 1, ..p })
            &&& inside && wished is Ok && !there && again && !p.undo ==> step
                == PlanStepView::Refused("Один исходный файл добавлен в план несколько раз"@)
            &&& inside && wished is Ok && !there && again && p.undo ==> step
                == PlanStepView::Refused("Журнал отмены содержит повторяющийся файл"@)
            &&& inside && wished is Ok && !there && !again ==> step == PlanStepView::Probe(
                wished->Ok_0,
            ) && after.search == Some(
                SearchView { from: source, path: wished->Ok_0, number: 1 },
            ) && after.seen == p.seen.insert(names::path_key(source)) && after.planned == p.planned
                && after.next == p.next
        }),
{
}

/// A place that is neither taken nor promised is promised to the file, and the next wish is due; else the
/// next number is tried.
pub proof fn free_places_are_promised(p: PlannerView, exists: bool)
    requires
        p.search is Some,
        p.next < p.wishes.len(),
    ensures
        ({
            let (after, step) = planning::probed(p, exists);
            let search = p.search->0;
            let place = moves::candidate(p.style, search.path, search.number);
            let free = !exists && !p.reserved.contains(names::path_key(place));
            &&& free ==> after.planned == p.planned + seq![
                MoveView { from: search.from, to: place },
            ]
            &&& free ==> after.reserved == p.reserved.insert(names::path_key(place)) && after.search
                is None && after.next == p.next + 1 && after.seen == p.seen
            &&& !free ==> after.planned == p.planned && after.reserved == p.reserved && after.next
                == p.next && after.search == Some(
                SearchView { number: search.number + 1, ..search },
            ) && step == PlanStepView::Probe(
                moves::candidate(p.style, search.path, search.number + 1),
            )
            &&& free && p.next + 1 < p.wishes.len() ==> step == PlanStepView::Locate(
                p.wishes[p.next as int + 1].from,
            )
            &&& free && p.next + 1 == p.wishes.len() ==> step == PlanStepView::Planned
        }),
{
    let place = moves::candidate(p.style, p.search->0.path, p.search->0.number);
    let one = MoveView { from: p.search->0.from, to: place };
    assert(p.planned.push(one) =~= p.planned + seq![one]);
}

/// A search does not give up before it has tried more than two thousand million places.
pub proof fn many_places_are_tried()
    ensures
        planning::LAST_CANDIDATE == 0x7fff_ffffu32,
{
}

/// A plan begins with nothing promised and with the file of the first wish.
pub proof fn plans_begin_with_the_first_wish(
    style: Style,
    root: Seq<char>,
    undo: bool,
    wishes: Seq<MoveView>,
)
    ensures
        ({
            let p = planning::fresh(style, root, undo, wishes);
            &&& p.planned.len() == 0
            &&& p.next == 0
            &&& p.search is None
            &&& p.wishes == wishes
            &&& p.root == root
            &&& p.undo == undo
            &&& p.style == style
            &&& forall|key: Seq<char>| !(#[trigger] p.reserved.contains(key))
            &&& forall|key: Seq<char>| !(#[trigger] p.seen.contains(key))
            &&& wishes.len() > 0 ==> planning::between(p) == PlanStepView::Locate(wishes[0].from)
            &&& wishes.len() == 0 ==> planning::between(p) == PlanStepView::Planned
        }),
{
}

// ---------------------------------------------------------------------------
// The way there
// ---------------------------------------------------------------------------

/// What is done first about the next file: the folder that it goes to is made, where it goes to one, and
/// else it is looked whether its place is free. After the last file the moves are sealed.
pub open spec fn opens_next(s: MoveRunView, step: MoveStepView) -> bool {
    if s.done < s.planned.len() {
        match paths::parent(s.style, s.planned[s.done as int].to) {
            Some(folder) => step == MoveStepView::CreateFolder(folder),
            None => step == MoveStepView::Check(s.planned[s.done as int].to),
        }
    } else {
        step == MoveStepView::Seal
    }
}

/// The files are moved one after the other: the folder is made, the place is looked at, the file is moved,
/// and then the next one is due. When all are moved the moves are sealed, and that many were made.
pub proof fn files_are_moved_in_turn(s: MoveRunView)
    requires
        execution::is_sound(s),
    ensures
        s.stage == Stage::Folder ==> execution::following(s, EventView::Done).step
            == MoveStepView::Check(s.planned[s.done as int].to),
        s.stage == Stage::Check ==> execution::following(s, EventView::Checked(false)).step
            == MoveStepView::Rename(s.planned[s.done as int]),
        s.stage == Stage::Rename ==> opens_next(
            MoveRunView { done: s.done + 1, ..s },
            execution::following(s, EventView::Done).step,
        ) && execution::following(s, EventView::Done).run.done == s.done + 1,
        s.stage == Stage::Seal ==> execution::following(s, EventView::Done).step
            == MoveStepView::Done(s.done) && s.done == s.planned.len(),
{
}

/// A run begins with the first file. Without files there is nothing to do, unless moves are undone: then
/// the history is still used up.
pub proof fn runs_begin_with_the_first_file(style: Style, undo: bool, planned: Seq<MoveView>)
    ensures
        planned.len() == 0 && !undo ==> execution::starting(style, undo, planned).step
            == MoveStepView::Done(0),
        planned.len() > 0 || undo ==> opens_next(
            execution::starting(style, undo, planned).run,
            execution::starting(style, undo, planned).step,
        ),
        execution::starting(style, undo, planned).run.done == 0,
        execution::starting(style, undo, planned).run.completed == 0,
        execution::starting(style, undo, planned).run.failures == 0,
        execution::starting(style, undo, planned).run.planned == planned,
        execution::starting(style, undo, planned).run.undo == undo,
{
}

/// What is said of a failure: what could not be done and why, and what became of the files that were
/// moved before.
pub proof fn failures_say_what_became_of_files(
    context: Seq<char>,
    error: Seq<char>,
    completed: nat,
    lost: nat,
)
    ensures
        completed == 0 ==> execution::failure_message(context, error, completed, lost) == context
            + ": "@ + error + ". Файлы не перемещались"@,
        completed > 0 && lost == 0 ==> execution::failure_message(context, error, completed, lost)
            == context + ": "@ + error + ". Уже перемещённые файлы возвращены обратно"@,
        completed > 0 && lost > 0 ==> execution::failure_message(context, error, completed, lost)
            == context + ": "@ + error
            + ". ВНИМАНИЕ: автоматический откат выполнен не полностью (не удалось вернуть файлов: "@
            + text::decimal(lost) + ")"@,
{
}

/// Whether a run has turned back: it says what went wrong, and what it has moved goes back, the last file
/// first.
pub open spec fn turns_back(
    s: MoveRunView,
    turn: execution::MoveTurn,
    context: Seq<char>,
    error: Seq<char>,
) -> bool {
    &&& turn.run.completed == s.done
    &&& turn.run.failures == 0
    &&& turn.run.context == context
    &&& turn.run.error == error
    &&& turn.run.done == s.done
    &&& s.done > 0 ==> turn.step == MoveStepView::Check(s.planned[s.done - 1].from)
        && turn.run.stage == Stage::BackFree
    &&& s.done == 0 ==> turn.step == MoveStepView::Failed(
        execution::failure_message(context, error, 0, 0),
    )
}

/// Whatever fails on the way there makes the run turn back, and says what failed in its own words.
pub proof fn failures_turn_a_run_back(s: MoveRunView, error: Seq<char>)
    requires
        execution::is_sound(s),
    ensures
        s.stage == Stage::Folder ==> turns_back(
            s,
            execution::following(s, EventView::Failed(error)),
            "Не удалось создать целевую папку"@,
            error,
        ),
        s.stage == Stage::Check ==> turns_back(
            s,
            execution::following(s, EventView::Checked(true)),
            "Целевой файл появился после проверки конфликтов"@,
            "операция остановлена, чтобы не перезаписать существующий файл"@,
        ),
        s.stage == Stage::Rename ==> turns_back(
            s,
            execution::following(s, EventView::Failed(error)),
            "Не удалось переместить файл"@,
            error,
        ),
        s.stage == Stage::Seal && !s.undo ==> turns_back(
            s,
            execution::following(s, EventView::Failed(error)),
            "Не удалось сохранить журнал отмены"@,
            error,
        ),
        s.stage == Stage::Seal && s.undo ==> turns_back(
            s,
            execution::following(s, EventView::Failed(error)),
            "Не удалось удалить использованный журнал отмены"@,
            error,
        ),
{
}

// ---------------------------------------------------------------------------
// The way back
// ---------------------------------------------------------------------------

/// Whether a file is dealt with on the way back, brought back or not, and the one before it is due; after
/// the first the run has failed, and says how many files were lost.
pub open spec fn leaves_file(s: MoveRunView, turn: execution::MoveTurn, lost: nat) -> bool {
    &&& turn.run.done == s.done - 1
    &&& turn.run.failures == s.failures + lost
    &&& turn.run.completed == s.completed
    &&& s.done > 1 ==> turn.step == MoveStepView::Check(s.planned[s.done - 2].from)
    &&& s.done == 1 ==> turn.step == MoveStepView::Failed(
        execution::failure_message(s.context, s.error, s.completed, s.failures + lost),
    )
}

/// On the way back each file is moved to where it was, or counted as lost where its old place is taken,
/// it is gone, its old folder cannot be made, or it cannot be moved.
pub proof fn files_go_back_or_are_counted(s: MoveRunView, error: Seq<char>)
    requires
        execution::is_sound(s),
    ensures
        s.stage == Stage::BackFree ==> leaves_file(
            s,
            execution::following(s, EventView::Checked(true)),
            1,
        ),
        s.stage == Stage::BackFree ==> execution::following(s, EventView::Checked(false)).step
            == MoveStepView::Check(s.planned[s.done - 1].to),
        s.stage == Stage::BackThere ==> leaves_file(
            s,
            execution::following(s, EventView::Checked(false)),
            1,
        ),
        s.stage == Stage::BackThere ==> execution::following(s, EventView::Checked(true)).step
            == match paths::parent(s.style, s.planned[s.done - 1].from) {
            Some(folder) => MoveStepView::CreateFolder(folder),
            None => MoveStepView::Rename(
                MoveView { from: s.planned[s.done - 1].to, to: s.planned[s.done - 1].from },
            ),
        },
        s.stage == Stage::BackFolder ==> execution::following(s, EventView::Done).step
            == MoveStepView::Rename(
            MoveView { from: s.planned[s.done - 1].to, to: s.planned[s.done - 1].from },
        ),
        s.stage == Stage::BackFolder ==> leaves_file(
            s,
            execution::following(s, EventView::Failed(error)),
            1,
        ),
        s.stage == Stage::BackRename ==> leaves_file(
            s,
            execution::following(s, EventView::Done),
            0,
        ),
        s.stage == Stage::BackRename ==> leaves_file(
            s,
            execution::following(s, EventView::Failed(error)),
            1,
        ),
{
}

// ---------------------------------------------------------------------------
// The history
// ---------------------------------------------------------------------------

/// Where the files of the sorter stand: in the root, under names of their own.
pub proof fn own_files_stand_in_the_root(style: Style, root: Seq<char>, id: Seq<char>)
    ensures
        history::history_place(style, root) == paths::join(
            style,
            root,
            ".ai-file-sorter-last-operation.json"@,
        ),
        history::temporary_place(style, root, id) == paths::join(
            style,
            root,
            ".ai-file-sorter-last-operation.json."@ + id + ".tmp"@,
        ),
        history::backup_place(style, root, id) == paths::join(
            style,
            root,
            ".ai-file-sorter-last-operation.json."@ + id + ".bak"@,
        ),
        history::probe_place(style, root, id) == paths::join(
            style,
            root,
            ".ai-file-sorter-write-test-"@ + id,
        ),
{
    reveal_strlit(".ai-file-sorter-last-operation.json");
    reveal_strlit(".ai-file-sorter-last-operation.json.");
    reveal_strlit(".");
    assert(".ai-file-sorter-last-operation.json."@ =~= ".ai-file-sorter-last-operation.json"@ + "."@);
}

/// The history is written beside the old one, the old one is set aside where there is one, and the new one
/// takes its place; then the old one is dropped. Nothing is lost if a step fails: the old one is put
/// back and the new one dropped.
pub proof fn histories_are_written_in_turn(w: WriterView, error: Seq<char>)
    ensures
        w.stage == HistoryStage::Write ==> history::due(w) == HistoryStepView::Write(w.temporary)
            && history::due(history::following(w, EventView::Done)) == HistoryStepView::Check(
            w.history,
        ) && history::due(history::following(w, EventView::Failed(error)))
            == HistoryStepView::Failed(error),
        w.stage == HistoryStage::Check ==> history::due(
            history::following(w, EventView::Checked(true)),
        ) == HistoryStepView::Rename(w.history, w.backup) && history::due(
            history::following(w, EventView::Checked(false)),
        ) == HistoryStepView::Rename(w.temporary, w.history) && history::following(
            w,
            EventView::Checked(true),
        ).had_history && !history::following(w, EventView::Checked(false)).had_history,
        w.stage == HistoryStage::SetAside ==> history::due(history::following(w, EventView::Done))
            == HistoryStepView::Rename(w.temporary, w.history) && history::due(
            history::following(w, EventView::Failed(error)),
        ) == HistoryStepView::Remove(w.temporary) && history::following(
            w,
            EventView::Failed(error),
        ).error == Some(error),
        w.stage == HistoryStage::Replace && w.had_history ==> history::due(
            history::following(w, EventView::Done),
        ) == HistoryStepView::Remove(w.backup) && history::due(
            history::following(w, EventView::Failed(error)),
        ) == HistoryStepView::Rename(w.backup, w.history) && history::following(
            w,
            EventView::Failed(error),
        ).error == Some(error),
        w.stage == HistoryStage::Replace && !w.had_history && w.error is None ==> history::due(
            history::following(w, EventView::Done),
        ) == HistoryStepView::Saved && history::due(history::following(w, EventView::Failed(error)))
            == HistoryStepView::Remove(w.temporary) && history::following(
            w,
            EventView::Failed(error),
        ).error == Some(error),
        w.stage == HistoryStage::PutBack ==> history::due(history::following(w, EventView::Done))
            == HistoryStepView::Remove(w.temporary) && history::due(
            history::following(w, EventView::Failed(error)),
        ) == HistoryStepView::Remove(w.temporary),
        w.stage == HistoryStage::DropNew && w.error is Some ==> history::due(
            history::following(w, EventView::Done),
        ) == HistoryStepView::Failed(w.error->0),
        w.stage == HistoryStage::DropOld && w.error is None ==> history::due(
            history::following(w, EventView::Done),
        ) == HistoryStepView::Saved && history::due(history::following(w, EventView::Failed(error)))
            == HistoryStepView::Saved,
{
}

/// The writing begins beside the history, with nothing changed.
pub proof fn writing_begins_beside_the_history(
    style: Style,
    root: Seq<char>,
    first: Seq<char>,
    second: Seq<char>,
)
    ensures
        history::due(history::writing(style, root, first, second)) == HistoryStepView::Write(
            history::temporary_place(style, root, first),
        ),
        history::writing(style, root, first, second).history == history::history_place(style, root),
        history::writing(style, root, first, second).backup == history::backup_place(
            style,
            root,
            second,
        ),
        history::writing(style, root, first, second).error is None,
{
}

} // verus!
