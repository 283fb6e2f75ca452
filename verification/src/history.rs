//! The history of the last moves: how it is written so that an old one is not lost.

use crate::execution::{DiskEvent, EventView};
use crate::outside;
use crate::paths;
use crate::paths::Style;
use crate::records;
use crate::scan;
use crate::text;
use vstd::prelude::*;

verus! {

/// The name of the file that holds the history.
pub const HISTORY_FILE: &'static str = ".ai-file-sorter-last-operation.json";

pub const NOTHING_TO_UNDO: &'static str = "Нет операции для отмены";

pub const DAMAGED_HISTORY: &'static str = "Журнал операции повреждён";

pub const NOT_A_FOLDER: &'static str = "Выбранный путь не является папкой";

// ---------------------------------------------------------------------------
// Names
// ---------------------------------------------------------------------------

/// How the name of the file begins that is made to see whether the folder can be
/// written to.
pub const PROBE_PREFIX: &'static str = ".ai-file-sorter-write-test-";

/// Where the history stands.
pub open spec fn history_place(style: Style, root: Seq<char>) -> Seq<char> {
    paths::join(style, root, HISTORY_FILE@)
}

/// Where the new history stands until it is complete.
pub open spec fn temporary_place(style: Style, root: Seq<char>, id: Seq<char>) -> Seq<char> {
    paths::join(style, root, HISTORY_FILE@ + "."@ + id + ".tmp"@)
}

/// Where the old history stands until the new one is in its place.
pub open spec fn backup_place(style: Style, root: Seq<char>, id: Seq<char>) -> Seq<char> {
    paths::join(style, root, HISTORY_FILE@ + "."@ + id + ".bak"@)
}

/// Where the file stands that is made to see whether the folder can be written to.
pub open spec fn probe_place(style: Style, root: Seq<char>, id: Seq<char>) -> Seq<char> {
    paths::join(style, root, PROBE_PREFIX@ + id)
}

/// Where the history stands.
pub fn history_path(style: Style, root: &str) -> (path: String)
    ensures
        path@ == history_place(style, root@),
{
    paths::joined(style, root, HISTORY_FILE)
}

fn named_path(style: Style, root: &str, id: &str, ending: &str) -> (path: String)
    ensures
        path@ == paths::join(style, root@, HISTORY_FILE@ + "."@ + id@ + ending@),
{
    let mut name = HISTORY_FILE.to_owned();
    name.append(".");
    name.append(id);
    name.append(ending);
    paths::joined(style, root, &name)
}

/// Where the file stands that is made to see whether the folder can be written to.
pub fn probe_path_as(style: Style, root: &str, id: &str) -> (path: String)
    ensures
        path@ == probe_place(style, root@, id@),
{
    let mut name = PROBE_PREFIX.to_owned();
    name.append(id);
    paths::joined(style, root, &name)
}

/// A place in the root that nothing else has.
pub fn probe_path(style: Style, root: &str) -> (path: String)
    ensures
        exists|id: Seq<char>| #[trigger]
            outside::is_uuid_text(id) && path@ == probe_place(style, root@, id),
{
    let id = outside::new_id();
    assert(outside::is_uuid_text(id@));
    probe_path_as(style, root, &id)
}

/// What is said of a folder that cannot be written to, and of one in which the file of the
/// test stays.
pub open spec fn write_failure(error: Seq<char>, written: bool) -> Seq<char> {
    if written {
        "Проверочный файл создан, но не удалён: "@ + error + ". Сортировка не запускалась"@
    } else {
        "Выбранная папка или диск недоступны для записи: "@ + error + ". Файлы не перемещались"@
    }
}

/// What is said of a folder that cannot be written to.
pub fn not_writable(error: &str) -> (message: String)
    ensures
        message@ == write_failure(error@, false),
        message@ == "Выбранная папка или диск недоступны для записи: "@ + error@
            + ". Файлы не перемещались"@,
{
    let mut message = "Выбранная папка или диск недоступны для записи: ".to_owned();
    message.append(error);
    message.append(". Файлы не перемещались");
    message
}

/// What is said of a folder in which the file of the test stays.
pub fn probe_stays(error: &str) -> (message: String)
    ensures
        message@ == write_failure(error@, true),
        message@ == "Проверочный файл создан, но не удалён: "@ + error@
            + ". Сортировка не запускалась"@,
{
    let mut message = "Проверочный файл создан, но не удалён: ".to_owned();
    message.append(error);
    message.append(". Сортировка не запускалась");
    message
}

/// The sorter does not sort its own files: whatever the ids are, the scan leaves them
/// out.
pub proof fn own_files_are_skipped(id: Seq<char>)
    ensures
        scan::is_skipped(HISTORY_FILE@),
        scan::is_skipped(HISTORY_FILE@ + "."@ + id + ".tmp"@),
        scan::is_skipped(HISTORY_FILE@ + "."@ + id + ".bak"@),
        scan::is_skipped(PROBE_PREFIX@ + id),
{
    reveal_strlit(".ai-file-sorter-");
    reveal_strlit(".ai-file-sorter-last-operation.json");
    reveal_strlit(".ai-file-sorter-write-test-");
    let prefix = scan::OWN_PREFIX@;
    let names = seq![
        HISTORY_FILE@,
        HISTORY_FILE@ + "."@ + id + ".tmp"@,
        HISTORY_FILE@ + "."@ + id + ".bak"@,
        PROBE_PREFIX@ + id,
    ];
    assert(names[0].subrange(0, 16) =~= prefix);
    assert(names[1].subrange(0, 16) =~= prefix);
    assert(names[2].subrange(0, 16) =~= prefix);
    assert(names[3].subrange(0, 16) =~= prefix);
    assert(text::starts_with(names[0], prefix) && text::starts_with(names[1], prefix)
        && text::starts_with(names[2], prefix) && text::starts_with(names[3], prefix));
}

// ---------------------------------------------------------------------------
// Writing
// ---------------------------------------------------------------------------

/// What to do on the disk, or what came of it all.
#[derive(Debug)]
pub enum HistoryStep {
    /// Write the new history to a place.
    Write(String),
    /// Find out whether something is at a place.
    Check(String),
    /// Move a file from one place to another.
    Rename(String, String),
    /// Remove a file; it does not matter whether that works.
    Remove(String),
    Saved,
    Failed(String),
}

/// What a [`HistoryStep`] stands for.
#[verifier::ext_equal]
pub enum HistoryStepView {
    Write(Seq<char>),
    Check(Seq<char>),
    Rename(Seq<char>, Seq<char>),
    Remove(Seq<char>),
    Saved,
    Failed(Seq<char>),
}

impl View for HistoryStep {
    type V = HistoryStepView;

    open spec fn view(&self) -> HistoryStepView {
        match *self {
            HistoryStep::Write(path) => HistoryStepView::Write(path@),
            HistoryStep::Check(path) => HistoryStepView::Check(path@),
            HistoryStep::Rename(from, to) => HistoryStepView::Rename(from@, to@),
            HistoryStep::Remove(path) => HistoryStepView::Remove(path@),
            HistoryStep::Saved => HistoryStepView::Saved,
            HistoryStep::Failed(error) => HistoryStepView::Failed(error@),
        }
    }
}

/// Where the writing is.
#[derive(Debug, Clone, Copy, PartialEq, Eq, Structural)]
pub enum HistoryStage {
    /// The new history is written beside the old one.
    Write,
    /// It is checked whether there is an old one.
    Check,
    /// The old one is set aside.
    SetAside,
    /// The new one is put in its place.
    Replace,
    /// The old one is put back.
    PutBack,
    /// The new one is removed.
    DropNew,
    /// The old one is removed.
    DropOld,
    Over,
}

/// What a [`HistoryWriter`] stands for.
#[verifier::ext_equal]
pub struct WriterView {
    pub history: Seq<char>,
    pub temporary: Seq<char>,
    pub backup: Seq<char>,
    /// Whether there was an old history.
    pub had_history: bool,
    pub stage: HistoryStage,
    pub error: Option<Seq<char>>,
}

/// A writer of the history.
pub struct HistoryWriter {
    history: String,
    temporary: String,
    backup: String,
    had_history: bool,
    stage: HistoryStage,
    error: Option<String>,
}

impl View for HistoryWriter {
    type V = WriterView;

    closed spec fn view(&self) -> WriterView {
        WriterView {
            history: self.history@,
            temporary: self.temporary@,
            backup: self.backup@,
            had_history: self.had_history,
            stage: self.stage,
            error: records::option_view(self.error),
        }
    }
}

/// The start.
pub open spec fn writing(
    style: Style,
    root: Seq<char>,
    first: Seq<char>,
    second: Seq<char>,
) -> WriterView {
    WriterView {
        history: history_place(style, root),
        temporary: temporary_place(style, root, first),
        backup: backup_place(style, root, second),
        had_history: false,
        stage: HistoryStage::Write,
        error: None,
    }
}

/// The step of a stage.
pub open spec fn due(w: WriterView) -> HistoryStepView {
    match w.stage {
        HistoryStage::Write => HistoryStepView::Write(w.temporary),
        HistoryStage::Check => HistoryStepView::Check(w.history),
        HistoryStage::SetAside => HistoryStepView::Rename(w.history, w.backup),
        HistoryStage::Replace => HistoryStepView::Rename(w.temporary, w.history),
        HistoryStage::PutBack => HistoryStepView::Rename(w.backup, w.history),
        HistoryStage::DropNew => HistoryStepView::Remove(w.temporary),
        HistoryStage::DropOld => HistoryStepView::Remove(w.backup),
        HistoryStage::Over => match w.error {
            None => HistoryStepView::Saved,
            Some(error) => HistoryStepView::Failed(error),
        },
    }
}

/// Whether an event can come of the step of a stage.
pub open spec fn can_follow(stage: HistoryStage, event: EventView) -> bool {
    match stage {
        HistoryStage::Check => event is Checked,
        HistoryStage::Over => false,
        _ => !(event is Checked),
    }
}

/// The writer after an event.
pub open spec fn following(w: WriterView, event: EventView) -> WriterView {
    match (w.stage, event) {
        (HistoryStage::Write, EventView::Done) => WriterView { stage: HistoryStage::Check, ..w },
        (HistoryStage::Write, EventView::Failed(error)) => WriterView {
            stage: HistoryStage::Over,
            error: Some(error),
            ..w
        },
        (HistoryStage::Check, EventView::Checked(found)) => WriterView {
            had_history: found,
            stage: if found {
                HistoryStage::SetAside
            } else {
                HistoryStage::Replace
            },
            ..w
        },
        (HistoryStage::SetAside, EventView::Done) => WriterView {
            stage: HistoryStage::Replace,
            ..w
        },
        (HistoryStage::SetAside, EventView::Failed(error)) => WriterView {
            stage: HistoryStage::DropNew,
            error: Some(error),
            ..w
        },
        (HistoryStage::Replace, EventView::Done) => WriterView {
            stage: if w.had_history {
                HistoryStage::DropOld
            } else {
                HistoryStage::Over
            },
            ..w
        },
        (HistoryStage::Replace, EventView::Failed(error)) => WriterView {
            stage: if w.had_history {
                HistoryStage::PutBack
            } else {
                HistoryStage::DropNew
            },
            error: Some(error),
            ..w
        },
        (HistoryStage::PutBack, _) => WriterView { stage: HistoryStage::DropNew, ..w },
        (HistoryStage::DropNew, _) => WriterView { stage: HistoryStage::Over, ..w },
        (HistoryStage::DropOld, _) => WriterView { stage: HistoryStage::Over, ..w },
        _ => w,
    }
}

impl HistoryWriter {
    fn step(&self) -> (step: HistoryStep)
        ensures
            step@ == due(self@),
    {
        match self.stage {
            HistoryStage::Write => HistoryStep::Write(self.temporary.clone()),
            HistoryStage::Check => HistoryStep::Check(self.history.clone()),
            HistoryStage::SetAside => HistoryStep::Rename(
                self.history.clone(),
                self.backup.clone(),
            ),
            HistoryStage::Replace => HistoryStep::Rename(
                self.temporary.clone(),
                self.history.clone(),
            ),
            HistoryStage::PutBack => HistoryStep::Rename(self.backup.clone(), self.history.clone()),
            HistoryStage::DropNew => HistoryStep::Remove(self.temporary.clone()),
            HistoryStage::DropOld => HistoryStep::Remove(self.backup.clone()),
            HistoryStage::Over => match &self.error {
                None => HistoryStep::Saved,
                Some(error) => HistoryStep::Failed(error.clone()),
            },
        }
    }

    /// Starts the writing, with the given ids in the names of the files beside the
    /// history.
    pub fn begin_as(style: Style, root: &str, first: &str, second: &str) -> (started: (
        HistoryWriter,
        HistoryStep,
    ))
        ensures
            started.0@ == writing(style, root@, first@, second@),
            started.1@ == due(started.0@),
    {
        let writer = HistoryWriter {
            history: history_path(style, root),
            temporary: named_path(style, root, first, ".tmp"),
            backup: named_path(style, root, second, ".bak"),
            had_history: false,
            stage: HistoryStage::Write,
            error: None,
        };
        let step = writer.step();
        (writer, step)
    }

    /// Starts the writing.
    pub fn begin(style: Style, root: &str) -> (started: (HistoryWriter, HistoryStep))
        ensures
            exists|first: Seq<char>, second: Seq<char>|
                {
                    &&& #[trigger] outside::is_uuid_text(first)
                    &&& #[trigger] outside::is_uuid_text(second)
                    &&& started.0@ == writing(style, root@, first, second)
                },
            started.1@ == due(started.0@),
    {
        let first = outside::new_id();
        let second = outside::new_id();
        assert(outside::is_uuid_text(first@) && outside::is_uuid_text(second@));
        HistoryWriter::begin_as(style, root, &first, &second)
    }

    /// Goes on after the step that was due.
    pub fn on_event(&mut self, event: DiskEvent) -> (step: HistoryStep)
        requires
            can_follow(old(self)@.stage, event@),
        ensures
            final(self)@ == following(old(self)@, event@),
            step@ == due(final(self)@),
    {
        match (self.stage, event) {
            (HistoryStage::Write, DiskEvent::Done) => {
                self.stage = HistoryStage::Check;
            },
            (HistoryStage::Write, DiskEvent::Failed(error)) => {
                self.stage = HistoryStage::Over;
                self.error = Some(error);
            },
            (HistoryStage::Check, DiskEvent::Checked(found)) => {
                self.had_history = found;
                self.stage = if found {
                    HistoryStage::SetAside
                } else {
                    HistoryStage::Replace
                };
            },
            (HistoryStage::SetAside, DiskEvent::Done) => {
                self.stage = HistoryStage::Replace;
            },
            (HistoryStage::SetAside, DiskEvent::Failed(error)) => {
                self.stage = HistoryStage::DropNew;
                self.error = Some(error);
            },
            (HistoryStage::Replace, DiskEvent::Done) => {
                self.stage = if self.had_history {
                    HistoryStage::DropOld
                } else {
                    HistoryStage::Over
                };
            },
            (HistoryStage::Replace, DiskEvent::Failed(error)) => {
                self.stage = if self.had_history {
                    HistoryStage::PutBack
                } else {
                    HistoryStage::DropNew
                };
                self.error = Some(error);
            },
            (HistoryStage::PutBack, _) => {
                self.stage = HistoryStage::DropNew;
            },
            (HistoryStage::DropNew, _) => {
                self.stage = HistoryStage::Over;
            },
            (HistoryStage::DropOld, _) => {
                self.stage = HistoryStage::Over;
            },
            _ => {},
        }
        self.step()
    }
}

// ---------------------------------------------------------------------------
// Laws
// ---------------------------------------------------------------------------

/// Whether an event can come of a step, and what the disk is then, if nothing else
/// changes it. The files of a disk are given by their paths; `new` is the new history.
/// Writing that fails may leave anything at its place.
pub open spec fn can_come(
    disk: Map<Seq<char>, int>,
    new: int,
    step: HistoryStepView,
    event: EventView,
    then: Map<Seq<char>, int>,
) -> bool {
    match (step, event) {
        (HistoryStepView::Write(path), EventView::Done) => then == disk.insert(path, new),
        (HistoryStepView::Write(path), _) => then.remove(path) == disk.remove(path),
        (HistoryStepView::Check(path), EventView::Checked(found)) => then == disk && (!found
            ==> !disk.dom().contains(path)),
        (HistoryStepView::Rename(from, to), EventView::Done) => disk.dom().contains(from) && then
            == disk.remove(from).insert(to, disk[from]),
        (HistoryStepView::Remove(path), EventView::Done) => then == disk.remove(path),
        _ => then == disk,
    }
}

/// What is at a place of a disk.
pub open spec fn at(disk: Map<Seq<char>, int>, path: Seq<char>) -> Option<int> {
    if disk.dom().contains(path) {
        Some(disk[path])
    } else {
        None
    }
}

/// Whether the disk is as the writing so far has left it: the old history is in its
/// place or set aside until the new one is in its place, and no other file is changed.
pub open spec fn is_known(
    start: Map<Seq<char>, int>,
    new: int,
    w: WriterView,
    disk: Map<Seq<char>, int>,
) -> bool {
    let old_one = at(start, w.history);
    &&& w.history != w.temporary
    &&& w.history != w.backup
    &&& w.temporary != w.backup
    &&& forall|path: Seq<char>|
        path != w.history && path != w.temporary && path != w.backup ==> #[trigger] at(disk, path)
            == at(start, path)
    &&& w.error is Some ==> w.stage == HistoryStage::PutBack || w.stage == HistoryStage::DropNew
        || w.stage == HistoryStage::Over
    &&& match w.stage {
        HistoryStage::Write => at(disk, w.history) == old_one && w.error is None,
        HistoryStage::Check => at(disk, w.history) == old_one && at(disk, w.temporary) == Some(new),
        HistoryStage::SetAside => at(disk, w.history) == old_one && at(disk, w.temporary) == Some(
            new,
        ) && w.had_history,
        HistoryStage::Replace => {
            &&& at(disk, w.temporary) == Some(new)
            &&& if w.had_history {
                at(disk, w.backup) == old_one
            } else {
                at(disk, w.history) == old_one
            }
        },
        HistoryStage::PutBack => at(disk, w.backup) == old_one && w.error is Some && w.had_history,
        HistoryStage::DropNew => {
            &&& w.error is Some
            &&& at(disk, w.history) == old_one || w.had_history && at(disk, w.backup) == old_one
        },
        HistoryStage::DropOld => at(disk, w.history) == Some(new) && w.error is None,
        HistoryStage::Over => if w.error is None {
            at(disk, w.history) == Some(new)
        } else {
            at(disk, w.history) == old_one || w.had_history && at(disk, w.backup) == old_one
        },
    }
}

/// The writing starts with the disk as it is, and its three places differ.
pub proof fn writers_start_known(
    start: Map<Seq<char>, int>,
    new: int,
    style: Style,
    root: Seq<char>,
    first: Seq<char>,
    second: Seq<char>,
)
    ensures
        is_known(start, new, writing(style, root, first, second), start),
{
    let w = writing(style, root, first, second);
    reveal_strlit(".");
    reveal_strlit(".tmp");
    reveal_strlit(".bak");
    reveal_strlit(".ai-file-sorter-last-operation.json");
    own_names_come_last(style, root, HISTORY_FILE@);
    own_names_come_last(style, root, HISTORY_FILE@ + "."@ + first + ".tmp"@);
    own_names_come_last(style, root, HISTORY_FILE@ + "."@ + second + ".bak"@);
    assert(w.temporary.last() == 'p');
    assert(w.backup.last() == 'k');
    assert(w.history.last() == 'n');
}

proof fn own_names_come_last(style: Style, root: Seq<char>, name: Seq<char>)
    requires
        name.len() > 2,
        name[0] == '.',
        name[1] == 'a',
        name.last() == 'n' || name.last() == 'p' || name.last() == 'k',
    ensures
        paths::join(style, root, name).len() > 0,
        paths::join(style, root, name).last() == name.last(),
{
    assert(paths::prefix(style, name) is None);
    assert(paths::body(style, name) =~= name);
    paths::join_keeps_the_end(style, root, name);
}

/// Each step keeps the old history until the new one is in its place.
pub proof fn writers_stay_known(
    start: Map<Seq<char>, int>,
    new: int,
    w: WriterView,
    disk: Map<Seq<char>, int>,
    event: EventView,
    then: Map<Seq<char>, int>,
)
    requires
        is_known(start, new, w, disk),
        can_follow(w.stage, event),
        can_come(disk, new, due(w), event, then),
    ensures
        is_known(start, new, following(w, event), then),
{
    let next = following(w, event);
    if w.stage == HistoryStage::Write && !(event is Done) {
        let path = w.temporary;
        assert forall|other: Seq<char>| other != path implies #[trigger] at(then, other) == at(
            disk,
            other,
        ) by {
            assert(then.remove(path).dom().contains(other) == disk.remove(path).dom().contains(
                other,
            ));
            if then.dom().contains(other) {
                assert(then.remove(path)[other] == disk.remove(path)[other]);
            }
        }
    }
    assert forall|path: Seq<char>|
        path != next.history && path != next.temporary && path != next.backup implies #[trigger] at(
        then,
        path,
    ) == at(start, path) by {
        assert(at(disk, path) == at(start, path));
    }
}

/// The history is never lost: what is saved is the new one, and where that fails the old
/// one is in its place, or beside it where it could not be put back.
pub proof fn the_history_is_never_lost(
    start: Map<Seq<char>, int>,
    new: int,
    w: WriterView,
    disk: Map<Seq<char>, int>,
)
    requires
        is_known(start, new, w, disk),
        w.stage == HistoryStage::Over,
    ensures
        due(w) is Saved ==> at(disk, w.history) == Some(new),
        due(w) is Failed ==> at(disk, w.history) == at(start, w.history) || at(disk, w.backup)
            == at(start, w.history),
{
}

/// A bound on the steps that are left.
pub open spec fn steps_left(stage: HistoryStage) -> int {
    match stage {
        HistoryStage::Write => 6,
        HistoryStage::Check => 5,
        HistoryStage::SetAside => 4,
        HistoryStage::Replace => 3,
        HistoryStage::PutBack => 2,
        HistoryStage::DropNew => 1,
        HistoryStage::DropOld => 1,
        HistoryStage::Over => 0,
    }
}

/// The writing comes to an end: after each step fewer are left.
pub proof fn writing_comes_to_an_end(w: WriterView, event: EventView)
    requires
        can_follow(w.stage, event),
    ensures
        0 <= steps_left(following(w, event).stage) < steps_left(w.stage),
{
}

} // verus!
