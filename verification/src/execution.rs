//! Moving files, all of them or none.
//!
//! A [`MoveRun`] says what to do on the disk next and hears how it went. Where a step
//! fails, the files that were moved before go back.

use crate::moves;
use crate::moves::{MoveView, PlannedMove};
use crate::paths;
use crate::paths::Style;
use crate::text;
use vstd::prelude::*;

verus! {

pub const NO_FOLDER: &'static str = "Не удалось создать целевую папку";

pub const APPEARED: &'static str = "Целевой файл появился после проверки конфликтов";

pub const NOT_OVERWRITTEN: &'static str =
    "операция остановлена, чтобы не перезаписать существующий файл";

pub const NOT_MOVED: &'static str = "Не удалось переместить файл";

pub const HISTORY_NOT_SAVED: &'static str = "Не удалось сохранить журнал отмены";

pub const HISTORY_NOT_REMOVED: &'static str = "Не удалось удалить использованный журнал отмены";

// ---------------------------------------------------------------------------
// What is said of a failure
// ---------------------------------------------------------------------------

/// What is said of a failure after so many moves, so many of which could not be undone.
pub open spec fn failure_message(
    context: Seq<char>,
    error: Seq<char>,
    completed: nat,
    failures: nat,
) -> Seq<char> {
    let start = context + ": "@ + error;
    if completed == 0 {
        start + ". Файлы не перемещались"@
    } else if failures == 0 {
        start + ". Уже перемещённые файлы возвращены обратно"@
    } else {
        start + ". ВНИМАНИЕ: автоматический откат выполнен не полностью (не удалось вернуть файлов: "@
            + text::decimal(failures) + ")"@
    }
}

/// What is said of a failure after so many moves, so many of which could not be undone.
pub fn operation_error_with_rollback(
    context: &str,
    error: &str,
    completed: usize,
    failures: usize,
) -> (message: String)
    ensures
        message@ == failure_message(context@, error@, completed as nat, failures as nat),
{
    let mut message = context.to_owned();
    message.append(": ");
    message.append(error);
    if completed == 0 {
        message.append(". Файлы не перемещались");
    } else if failures == 0 {
        message.append(". Уже перемещённые файлы возвращены обратно");
    } else {
        message.append(
            ". ВНИМАНИЕ: автоматический откат выполнен не полностью (не удалось вернуть файлов: ",
        );
        message.append(&text::decimal_of(failures as u64));
        message.append(")");
    }
    message
}

// ---------------------------------------------------------------------------
// Steps and what comes of them
// ---------------------------------------------------------------------------

/// What to do on the disk, or what came of it all.
#[derive(Debug)]
pub enum MoveStep {
    /// Make sure that a folder is there.
    CreateFolder(String),
    /// Find out whether something is at a place.
    Check(String),
    Rename(PlannedMove),
    /// Save the history of the moves, or remove it where they undo others.
    Seal,
    /// So many files were moved.
    Done(usize),
    Failed(String),
}

/// What a [`MoveStep`] stands for.
#[verifier::ext_equal]
pub enum MoveStepView {
    CreateFolder(Seq<char>),
    Check(Seq<char>),
    Rename(MoveView),
    Seal,
    Done(nat),
    Failed(Seq<char>),
}

impl View for MoveStep {
    type V = MoveStepView;

    open spec fn view(&self) -> MoveStepView {
        match *self {
            MoveStep::CreateFolder(path) => MoveStepView::CreateFolder(path@),
            MoveStep::Check(path) => MoveStepView::Check(path@),
            MoveStep::Rename(one) => MoveStepView::Rename(one@),
            MoveStep::Seal => MoveStepView::Seal,
            MoveStep::Done(count) => MoveStepView::Done(count as nat),
            MoveStep::Failed(message) => MoveStepView::Failed(message@),
        }
    }
}

/// How a step went.
#[derive(Debug)]
pub enum DiskEvent {
    Done,
    Failed(String),
    /// Whether something is at the place.
    Checked(bool),
}

/// What a [`DiskEvent`] stands for.
#[verifier::ext_equal]
pub enum EventView {
    Done,
    Failed(Seq<char>),
    Checked(bool),
}

impl View for DiskEvent {
    type V = EventView;

    open spec fn view(&self) -> EventView {
        match *self {
            DiskEvent::Done => EventView::Done,
            DiskEvent::Failed(error) => EventView::Failed(error@),
            DiskEvent::Checked(found) => EventView::Checked(found),
        }
    }
}

/// Where a run is.
#[derive(Debug, Clone, Copy, PartialEq, Eq, Structural)]
pub enum Stage {
    /// The folder of the next file is made.
    Folder,
    /// It is checked that nothing is in the way of the next file.
    Check,
    /// The next file is moved.
    Rename,
    /// All files are moved.
    Seal,
    /// It is checked that nothing is in the way of the last file back.
    BackFree,
    /// It is checked that the last file is there.
    BackThere,
    /// The folder of the last file is made again.
    BackFolder,
    /// The last file is moved back.
    BackRename,
    Over,
}

/// What a [`MoveRun`] stands for.
#[verifier::ext_equal]
pub struct MoveRunView {
    /// The notation of the paths.
    pub style: Style,
    /// Whether the moves undo others.
    pub undo: bool,
    pub planned: Seq<MoveView>,
    /// The number of moves that are made, less those that were dealt with on the way
    /// back.
    pub done: nat,
    /// The number of moves that were made when something failed.
    pub completed: nat,
    pub stage: Stage,
    /// The number of moves that could not be undone.
    pub failures: nat,
    pub context: Seq<char>,
    pub error: Seq<char>,
}

/// How far a run is, and what to do.
#[verifier::ext_equal]
pub struct MoveTurn {
    pub run: MoveRunView,
    pub step: MoveStepView,
}

// ---------------------------------------------------------------------------
// The way there
// ---------------------------------------------------------------------------

/// The check that nothing is in the way of the next file.
pub open spec fn checking(s: MoveRunView) -> MoveTurn {
    MoveTurn {
        run: MoveRunView { stage: Stage::Check, ..s },
        step: MoveStepView::Check(s.planned[s.done as int].to),
    }
}

/// The next file, or the end.
pub open spec fn advancing(s: MoveRunView) -> MoveTurn {
    if s.done < s.planned.len() {
        match paths::parent(s.style, s.planned[s.done as int].to) {
            Some(folder) => MoveTurn {
                run: MoveRunView { stage: Stage::Folder, ..s },
                step: MoveStepView::CreateFolder(folder),
            },
            None => checking(s),
        }
    } else {
        MoveTurn { run: MoveRunView { stage: Stage::Seal, ..s }, step: MoveStepView::Seal }
    }
}

/// The start. A plan without moves needs nothing, unless it undoes others.
pub open spec fn starting(style: Style, undo: bool, planned: Seq<MoveView>) -> MoveTurn {
    let s = MoveRunView {
        style,
        undo,
        planned,
        done: 0,
        completed: 0,
        stage: Stage::Over,
        failures: 0,
        context: Seq::empty(),
        error: Seq::empty(),
    };
    if planned.len() == 0 && !undo {
        MoveTurn { run: s, step: MoveStepView::Done(0) }
    } else {
        advancing(s)
    }
}

// ---------------------------------------------------------------------------
// The way back
// ---------------------------------------------------------------------------

/// The last file that is not back, or the end.
pub open spec fn retreating(s: MoveRunView) -> MoveTurn {
    if s.done == 0 {
        MoveTurn {
            run: MoveRunView { stage: Stage::Over, ..s },
            step: MoveStepView::Failed(
                failure_message(s.context, s.error, s.completed, s.failures),
            ),
        }
    } else {
        MoveTurn {
            run: MoveRunView { stage: Stage::BackFree, ..s },
            step: MoveStepView::Check(s.planned[s.done - 1].from),
        }
    }
}

/// Something failed: the files that were moved go back.
pub open spec fn failing(s: MoveRunView, context: Seq<char>, error: Seq<char>) -> MoveTurn {
    retreating(MoveRunView { completed: s.done, failures: 0, context, error, ..s })
}

/// The last file is back, or it cannot be brought back.
pub open spec fn returned(s: MoveRunView, back: bool) -> MoveTurn {
    retreating(
        MoveRunView {
            done: (s.done - 1) as nat,
            failures: if back {
                s.failures
            } else {
                s.failures + 1
            },
            ..s
        },
    )
}

/// The move of the last file back.
pub open spec fn moving_back(s: MoveRunView) -> MoveTurn {
    let one = s.planned[s.done - 1];
    MoveTurn {
        run: MoveRunView { stage: Stage::BackRename, ..s },
        step: MoveStepView::Rename(MoveView { from: one.to, to: one.from }),
    }
}

/// What a run is about when all files are moved.
pub open spec fn seal_context(undo: bool) -> Seq<char> {
    if undo {
        HISTORY_NOT_REMOVED@
    } else {
        HISTORY_NOT_SAVED@
    }
}

/// Whether an event can come of the step that was due.
pub open spec fn can_follow(stage: Stage, event: EventView) -> bool {
    match stage {
        Stage::Check | Stage::BackFree | Stage::BackThere => event is Checked,
        Stage::Over => false,
        _ => !(event is Checked),
    }
}

/// How a run goes on.
pub open spec fn following(s: MoveRunView, event: EventView) -> MoveTurn {
    let next = s.planned[s.done as int];
    let last = s.planned[s.done - 1];
    match (s.stage, event) {
        (Stage::Folder, EventView::Done) => checking(s),
        (Stage::Folder, EventView::Failed(error)) => failing(s, NO_FOLDER@, error),
        (Stage::Check, EventView::Checked(false)) => MoveTurn {
            run: MoveRunView { stage: Stage::Rename, ..s },
            step: MoveStepView::Rename(next),
        },
        (Stage::Check, EventView::Checked(true)) => failing(s, APPEARED@, NOT_OVERWRITTEN@),
        (Stage::Rename, EventView::Done) => advancing(MoveRunView { done: s.done + 1, ..s }),
        (Stage::Rename, EventView::Failed(error)) => failing(s, NOT_MOVED@, error),
        (Stage::Seal, EventView::Done) => MoveTurn {
            run: MoveRunView { stage: Stage::Over, ..s },
            step: MoveStepView::Done(s.done),
        },
        (Stage::Seal, EventView::Failed(error)) => failing(s, seal_context(s.undo), error),
        (Stage::BackFree, EventView::Checked(true)) => returned(s, false),
        (Stage::BackFree, EventView::Checked(false)) => MoveTurn {
            run: MoveRunView { stage: Stage::BackThere, ..s },
            step: MoveStepView::Check(last.to),
        },
        (Stage::BackThere, EventView::Checked(false)) => returned(s, false),
        (Stage::BackThere, EventView::Checked(true)) => match paths::parent(s.style, last.from) {
            Some(folder) => MoveTurn {
                run: MoveRunView { stage: Stage::BackFolder, ..s },
                step: MoveStepView::CreateFolder(folder),
            },
            None => moving_back(s),
        },
        (Stage::BackFolder, EventView::Done) => moving_back(s),
        (Stage::BackFolder, EventView::Failed(_)) => returned(s, false),
        (Stage::BackRename, EventView::Done) => returned(s, true),
        (Stage::BackRename, EventView::Failed(_)) => returned(s, false),
        _ => MoveTurn { run: s, step: MoveStepView::Seal },
    }
}

// ---------------------------------------------------------------------------
// The run
// ---------------------------------------------------------------------------

/// A run of moves.
pub struct MoveRun {
    style: Style,
    undo: bool,
    planned: Vec<PlannedMove>,
    done: usize,
    completed: usize,
    stage: Stage,
    failures: usize,
    context: String,
    error: String,
}

impl View for MoveRun {
    type V = MoveRunView;

    closed spec fn view(&self) -> MoveRunView {
        MoveRunView {
            style: self.style,
            undo: self.undo,
            planned: moves::move_views(self.planned@),
            done: self.done as nat,
            completed: self.completed as nat,
            stage: self.stage,
            failures: self.failures as nat,
            context: self.context@,
            error: self.error@,
        }
    }
}

/// Whether a stage is one on the way back.
pub open spec fn is_back(stage: Stage) -> bool {
    stage == Stage::BackFree || stage == Stage::BackThere || stage == Stage::BackFolder || stage
        == Stage::BackRename
}

/// Whether the counts of a run are those of its stage.
pub open spec fn is_sound(s: MoveRunView) -> bool {
    &&& s.done <= s.planned.len()
    &&& s.stage == Stage::Folder || s.stage == Stage::Check || s.stage == Stage::Rename ==> s.done
        < s.planned.len()
    &&& s.stage == Stage::Seal ==> s.done == s.planned.len()
    &&& is_back(s.stage) ==> 0 < s.done <= s.completed <= s.planned.len() && s.failures + s.done
        <= s.completed
}

impl MoveRun {
    fn check(&mut self) -> (step: MoveStep)
        requires
            old(self)@.done < old(self)@.planned.len(),
        ensures
            final(self)@ == checking(old(self)@).run,
            step@ == checking(old(self)@).step,
    {
        self.stage = Stage::Check;
        assert(self@.planned[self.done as int] == self.planned@[self.done as int]@);
        MoveStep::Check(self.planned[self.done].to.clone())
    }

    fn advance(&mut self) -> (step: MoveStep)
        requires
            old(self)@.done <= old(self)@.planned.len(),
        ensures
            final(self)@ == advancing(old(self)@).run,
            step@ == advancing(old(self)@).step,
            is_sound(final(self)@),
    {
        if self.done < self.planned.len() {
            assert(self@.planned[self.done as int] == self.planned@[self.done as int]@);
            match paths::parent_of(self.style, &self.planned[self.done].to) {
                Some(folder) => {
                    self.stage = Stage::Folder;
                    MoveStep::CreateFolder(folder)
                },
                None => self.check(),
            }
        } else {
            self.stage = Stage::Seal;
            MoveStep::Seal
        }
    }

    fn retreat(&mut self) -> (step: MoveStep)
        requires
            old(self)@.done + old(self)@.failures <= old(self)@.completed,
            old(self)@.completed <= old(self)@.planned.len(),
        ensures
            final(self)@ == retreating(old(self)@).run,
            step@ == retreating(old(self)@).step,
            is_sound(final(self)@),
    {
        if self.done == 0 {
            self.stage = Stage::Over;
            MoveStep::Failed(
                operation_error_with_rollback(
                    &self.context,
                    &self.error,
                    self.completed,
                    self.failures,
                ),
            )
        } else {
            self.stage = Stage::BackFree;
            assert(self@.planned[self.done - 1] == self.planned@[self.done - 1]@);
            MoveStep::Check(self.planned[self.done - 1].from.clone())
        }
    }

    fn fail(&mut self, context: &str, error: &str) -> (step: MoveStep)
        requires
            old(self)@.done <= old(self)@.planned.len(),
        ensures
            final(self)@ == failing(old(self)@, context@, error@).run,
            step@ == failing(old(self)@, context@, error@).step,
            is_sound(final(self)@),
    {
        self.completed = self.done;
        self.failures = 0;
        self.context = context.to_owned();
        self.error = error.to_owned();
        self.retreat()
    }

    fn take_back(&mut self, back: bool) -> (step: MoveStep)
        requires
            is_sound(old(self)@),
            is_back(old(self)@.stage),
        ensures
            final(self)@ == returned(old(self)@, back).run,
            step@ == returned(old(self)@, back).step,
            is_sound(final(self)@),
    {
        self.done = self.done - 1;
        if !back {
            assert(self.failures < self.completed);
            self.failures = self.failures + 1;
        }
        self.retreat()
    }

    fn move_back(&mut self) -> (step: MoveStep)
        requires
            is_sound(old(self)@),
            is_back(old(self)@.stage),
        ensures
            final(self)@ == moving_back(old(self)@).run,
            step@ == moving_back(old(self)@).step,
            is_sound(final(self)@),
    {
        self.stage = Stage::BackRename;
        let i: usize = self.done - 1;
        assert(self@.planned[i as int] == self.planned@[i as int]@);
        MoveStep::Rename(
            PlannedMove { from: self.planned[i].to.clone(), to: self.planned[i].from.clone() },
        )
    }

    /// Starts a run.
    pub fn begin(style: Style, planned: Vec<PlannedMove>, undo: bool) -> (started: (
        MoveRun,
        MoveStep,
    ))
        ensures
            started.0@ == starting(style, undo, moves::move_views(planned@)).run,
            started.1@ == starting(style, undo, moves::move_views(planned@)).step,
            is_sound(started.0@),
    {
        let ghost views = moves::move_views(planned@);
        let nothing = planned.len() == 0 && !undo;
        let mut run = MoveRun {
            style,
            undo,
            planned,
            done: 0,
            completed: 0,
            stage: Stage::Over,
            failures: 0,
            context: String::new(),
            error: String::new(),
        };
        assert(run@.context =~= Seq::<char>::empty());
        assert(run@.error =~= Seq::<char>::empty());
        if nothing {
            return (run, MoveStep::Done(0));
        }
        let step = run.advance();
        (run, step)
    }

    /// Goes on after the step that was due.
    pub fn on_event(&mut self, event: DiskEvent) -> (step: MoveStep)
        requires
            is_sound(old(self)@),
            can_follow(old(self)@.stage, event@),
        ensures
            final(self)@ == following(old(self)@, event@).run,
            step@ == following(old(self)@, event@).step,
            is_sound(final(self)@),
    {
        match (self.stage, event) {
            (Stage::Folder, DiskEvent::Done) => self.check(),
            (Stage::Folder, DiskEvent::Failed(error)) => self.fail(NO_FOLDER, &error),
            (Stage::Check, DiskEvent::Checked(found)) => {
                if found {
                    self.fail(APPEARED, NOT_OVERWRITTEN)
                } else {
                    self.stage = Stage::Rename;
                    assert(self@.planned[self.done as int] == self.planned@[self.done as int]@);
                    MoveStep::Rename(self.planned[self.done].clone())
                }
            },
            (Stage::Rename, DiskEvent::Done) => {
                assert(self.done < self.planned.len());
                self.done = self.done + 1;
                self.advance()
            },
            (Stage::Rename, DiskEvent::Failed(error)) => self.fail(NOT_MOVED, &error),
            (Stage::Seal, DiskEvent::Done) => {
                self.stage = Stage::Over;
                MoveStep::Done(self.done)
            },
            (Stage::Seal, DiskEvent::Failed(error)) => {
                let context = if self.undo {
                    HISTORY_NOT_REMOVED
                } else {
                    HISTORY_NOT_SAVED
                };
                self.fail(context, &error)
            },
            (Stage::BackFree, DiskEvent::Checked(found)) => {
                if found {
                    self.take_back(false)
                } else {
                    self.stage = Stage::BackThere;
                    let i: usize = self.done - 1;
                    assert(self@.planned[i as int] == self.planned@[i as int]@);
                    MoveStep::Check(self.planned[i].to.clone())
                }
            },
            (Stage::BackThere, DiskEvent::Checked(found)) => {
                if !found {
                    return self.take_back(false);
                }
                let i: usize = self.done - 1;
                assert(self@.planned[i as int] == self.planned@[i as int]@);
                match paths::parent_of(self.style, &self.planned[i].from) {
                    Some(folder) => {
                        self.stage = Stage::BackFolder;
                        MoveStep::CreateFolder(folder)
                    },
                    None => self.move_back(),
                }
            },
            (Stage::BackFolder, DiskEvent::Done) => self.move_back(),
            (Stage::BackFolder, DiskEvent::Failed(_)) => self.take_back(false),
            (Stage::BackRename, DiskEvent::Done) => self.take_back(true),
            (Stage::BackRename, DiskEvent::Failed(_)) => self.take_back(false),
            _ => MoveStep::Seal,
        }
    }
}

// ---------------------------------------------------------------------------
// Laws
// ---------------------------------------------------------------------------

/// A bound on the steps that are left.
pub open spec fn steps_left(s: MoveRunView) -> int {
    let there = 4 * s.planned.len() + 3 * (s.planned.len() - s.done);
    let back = 4 * (s.done - 1);
    match s.stage {
        Stage::Folder => there + 3,
        Stage::Check => there + 2,
        Stage::Rename => there + 1,
        Stage::Seal => there + 1,
        Stage::BackFree => back + 4,
        Stage::BackThere => back + 3,
        Stage::BackFolder => back + 2,
        Stage::BackRename => back + 1,
        Stage::Over => 0,
    }
}

/// A run comes to an end: after each step fewer are left, and where none are left it is
/// done or it has failed.
pub proof fn moves_come_to_an_end(s: MoveRunView, event: EventView)
    requires
        is_sound(s),
        can_follow(s.stage, event),
    ensures
        0 <= steps_left(following(s, event).run) < steps_left(s),
        is_sound(following(s, event).run),
        following(s, event).run.stage == Stage::Over <==> following(s, event).step is Done
            || following(s, event).step is Failed,
{
}

/// Nothing is overwritten. On the way there a file is moved only right after nothing was
/// found at the place that it goes to. On the way back it is looked whether nothing is at
/// the place that the file came from, and only where that is so, whether the file is still
/// there; then its folder is made, and then it is moved.
pub proof fn nothing_is_overwritten(s: MoveRunView, event: EventView)
    requires
        is_sound(s),
        can_follow(s.stage, event),
    ensures
        following(s, event).step is Rename && !is_back(s.stage) ==> s.stage == Stage::Check && event
            == EventView::Checked(false) && following(s, event).step->Rename_0
            == s.planned[s.done as int],
        following(s, event).step is Rename && is_back(s.stage) ==> (s.stage == Stage::BackThere
            && event == EventView::Checked(true) || s.stage == Stage::BackFolder && event
            == EventView::Done) && following(s, event).step->Rename_0 == (MoveView {
            from: s.planned[s.done - 1].to,
            to: s.planned[s.done - 1].from,
        }),
        following(s, event).run.stage == Stage::BackFolder ==> s.stage == Stage::BackThere && event
            == EventView::Checked(true) && following(s, event).run.done == s.done,
        following(s, event).run.stage == Stage::BackThere ==> s.stage == Stage::BackFree && event
            == EventView::Checked(false) && following(s, event).run.done == s.done,
        following(s, event).run.stage == Stage::BackFree ==> following(s, event).step
            == MoveStepView::Check(s.planned[following(s, event).run.done - 1].from),
        following(s, event).run.planned == s.planned,
{
}

} // verus!
