//! What the moves do to the files on a disk that nothing else changes.

use crate::execution;
use crate::execution::{EventView, MoveRunView, MoveStepView, MoveTurn, Stage};
use crate::moves;
use crate::moves::MoveView;
use crate::paths::Style;
use vstd::prelude::*;

verus! {

/// A disk after a move. The files of a disk are given by their paths.
pub open spec fn moved(disk: Map<Seq<char>, int>, one: MoveView) -> Map<Seq<char>, int> {
    disk.remove(one.from).insert(one.to, disk[one.from])
}

/// A disk after the first `n` moves.
pub open spec fn after_moves(
    disk: Map<Seq<char>, int>,
    planned: Seq<MoveView>,
    n: nat,
) -> Map<Seq<char>, int>
    decreases n,
{
    if n == 0 {
        disk
    } else {
        moved(after_moves(disk, planned, (n - 1) as nat), planned[n - 1])
    }
}

/// Whether a move takes a file that is there to a place that is free.
pub open spec fn is_clean(disk: Map<Seq<char>, int>, one: MoveView) -> bool {
    disk.dom().contains(one.from) && !disk.dom().contains(one.to)
}

/// Whether each of the first `n` moves takes a file that is there, by then, to a place
/// that is free.
pub open spec fn all_clean(disk: Map<Seq<char>, int>, planned: Seq<MoveView>, n: nat) -> bool {
    forall|k: nat|
        k < n ==> is_clean(#[trigger] after_moves(disk, planned, k), planned[k as int])
}

/// Whether an event can come of a step, and what the disk is then, if nothing else
/// changes it. What is not a file may be at a place too.
pub open spec fn can_come(
    disk: Map<Seq<char>, int>,
    step: MoveStepView,
    event: EventView,
    then: Map<Seq<char>, int>,
) -> bool {
    match (step, event) {
        (MoveStepView::Check(path), EventView::Checked(found)) => then == disk && (!found
            ==> !disk.dom().contains(path)),
        (MoveStepView::Rename(one), EventView::Done) => disk.dom().contains(one.from) && then
            == moved(disk, one),
        _ => then == disk,
    }
}

/// Whether the step of a turn is that of its stage, and the disk is as the moves so far
/// have left it.
pub open spec fn is_known(
    start: Map<Seq<char>, int>,
    turn: MoveTurn,
    disk: Map<Seq<char>, int>,
) -> bool {
    let s = turn.run;
    &&& execution::is_sound(s)
    &&& s.done <= s.planned.len()
    &&& all_clean(start, s.planned, s.done)
    &&& s.failures == 0 ==> disk == after_moves(start, s.planned, s.done)
    &&& match s.stage {
        Stage::Folder => turn.step is CreateFolder && s.failures == 0,
        Stage::Check => turn.step == MoveStepView::Check(s.planned[s.done as int].to) && s.failures
            == 0,
        Stage::Rename => {
            &&& turn.step == MoveStepView::Rename(s.planned[s.done as int])
            &&& !disk.dom().contains(s.planned[s.done as int].to)
            &&& s.failures == 0
        },
        Stage::Seal => turn.step is Seal && s.failures == 0,
        Stage::BackFree => turn.step == MoveStepView::Check(s.planned[s.done - 1].from),
        Stage::BackThere => {
            &&& turn.step == MoveStepView::Check(s.planned[s.done - 1].to)
            &&& !disk.dom().contains(s.planned[s.done - 1].from)
        },
        Stage::BackFolder => {
            &&& turn.step is CreateFolder
            &&& !disk.dom().contains(s.planned[s.done - 1].from)
        },
        Stage::BackRename => {
            &&& turn.step == MoveStepView::Rename(
                MoveView { from: s.planned[s.done - 1].to, to: s.planned[s.done - 1].from },
            )
            &&& !disk.dom().contains(s.planned[s.done - 1].from)
        },
        Stage::Over => {
            ||| turn.step is Done && s.done == s.planned.len() && s.failures == 0
            ||| turn.step is Failed && s.done == 0
        },
    }
}

/// A run knows the disk that it starts with.
pub proof fn runs_start_known(
    start: Map<Seq<char>, int>,
    style: Style,
    undo: bool,
    planned: Seq<MoveView>,
)
    ensures
        is_known(start, execution::starting(style, undo, planned), start),
{
}

/// A move back undoes a move.
pub proof fn a_move_back_undoes_a_move(disk: Map<Seq<char>, int>, one: MoveView)
    requires
        is_clean(disk, one),
    ensures
        moved(moved(disk, one), MoveView { from: one.to, to: one.from }) == disk,
{
    assert(moved(moved(disk, one), MoveView { from: one.to, to: one.from }) =~= disk);
}

/// A run knows the disk after each step, as long as nothing else changes it.
pub proof fn runs_stay_known(
    start: Map<Seq<char>, int>,
    turn: MoveTurn,
    disk: Map<Seq<char>, int>,
    event: EventView,
    then: Map<Seq<char>, int>,
)
    requires
        is_known(start, turn, disk),
        execution::can_follow(turn.run.stage, event),
        can_come(disk, turn.step, event, then),
    ensures
        is_known(start, execution::following(turn.run, event), then),
{
    let s = turn.run;
    match s.stage {
        Stage::Rename => {
            if event is Done {
                let next = MoveRunView { done: s.done + 1, ..s };
                assert(all_clean(start, s.planned, next.done)) by {
                    assert forall|k: nat| k < next.done implies is_clean(
                        #[trigger] after_moves(start, s.planned, k),
                        s.planned[k as int],
                    ) by {
                        if k == s.done {
                            assert(after_moves(start, s.planned, k) == disk);
                        }
                    }
                }
                assert(then == after_moves(start, s.planned, next.done));
            }
        },
        Stage::BackRename => {
            let before = (s.done - 1) as nat;
            assert(is_clean(after_moves(start, s.planned, before), s.planned[before as int]));
            if event is Done && s.failures == 0 {
                a_move_back_undoes_a_move(
                    after_moves(start, s.planned, before),
                    s.planned[before as int],
                );
                assert(then == after_moves(start, s.planned, before));
            }
        },
        _ => {},
    }
}

/// Whatever a run moves, on the way there and on the way back, it moves to a place where
/// the disk holds nothing.
pub proof fn files_go_to_free_places(
    start: Map<Seq<char>, int>,
    turn: MoveTurn,
    disk: Map<Seq<char>, int>,
)
    requires
        is_known(start, turn, disk),
        turn.step is Rename,
    ensures
        !disk.dom().contains(turn.step->Rename_0.to),
{
}

/// All or nothing: a run that is done has made every move, and one that failed has left
/// every file where it was, unless it says how many it could not bring back.
pub proof fn moves_are_all_or_nothing(
    start: Map<Seq<char>, int>,
    turn: MoveTurn,
    disk: Map<Seq<char>, int>,
)
    requires
        is_known(start, turn, disk),
        turn.run.stage == Stage::Over,
    ensures
        turn.step is Done ==> disk == after_moves(start, turn.run.planned, turn.run.planned.len()),
        turn.step is Failed && turn.run.failures == 0 ==> disk == start,
{
}

proof fn undone_so_far(start: Map<Seq<char>, int>, planned: Seq<MoveView>, k: nat)
    requires
        all_clean(start, planned, planned.len()),
        k <= planned.len(),
    ensures
        after_moves(
            after_moves(start, planned, planned.len()),
            moves::reversed(planned),
            k,
        ) == after_moves(start, planned, (planned.len() - k) as nat),
    decreases k,
{
    if k > 0 {
        undone_so_far(start, planned, (k - 1) as nat);
        let n = (planned.len() - k) as nat;
        let before = after_moves(start, planned, n);
        assert(is_clean(before, planned[n as int]));
        a_move_back_undoes_a_move(before, planned[n as int]);
        assert(moves::reversed(planned)[k - 1] == MoveView {
            from: planned[n as int].to,
            to: planned[n as int].from,
        });
        assert(after_moves(start, planned, n + 1) == moved(before, planned[n as int]));
    }
}

/// Undoing the moves, the last one first, brings every file back to where it was.
pub proof fn undoing_brings_every_file_back(start: Map<Seq<char>, int>, planned: Seq<MoveView>)
    requires
        all_clean(start, planned, planned.len()),
    ensures
        after_moves(
            after_moves(start, planned, planned.len()),
            moves::reversed(planned),
            planned.len(),
        ) == start,
{
    undone_so_far(start, planned, planned.len());
}

/// A run that is done can be undone: its moves took files that were there to places
/// that were free.
pub proof fn finished_moves_can_be_undone(
    start: Map<Seq<char>, int>,
    turn: MoveTurn,
    disk: Map<Seq<char>, int>,
)
    requires
        is_known(start, turn, disk),
        turn.step is Done,
        turn.run.stage == Stage::Over,
    ensures
        all_clean(start, turn.run.planned, turn.run.planned.len()),
        after_moves(disk, moves::reversed(turn.run.planned), turn.run.planned.len()) == start,
{
    undoing_brings_every_file_back(start, turn.run.planned);
}

} // verus!
