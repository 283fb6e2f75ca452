//! The plan of the moves, made before any file is touched.
//!
//! A [`Planner`] takes the wishes one after the other. It asks where a file really is,
//! and whether something is at a place; the answers come from outside.

use crate::moves;
use crate::moves::{Keys, MoveView, PlannedMove};
use crate::names;
use crate::paths;
use crate::paths::Style;
use crate::records::PlanItemView;
use crate::runs;
use vstd::prelude::*;

verus! {

pub const SAME_SOURCE_TWICE: &'static str = "Один исходный файл добавлен в план несколько раз";

pub const SAME_RECORD_TWICE: &'static str = "Журнал отмены содержит повторяющийся файл";

/// The number of places that are tried for one file.
pub const LAST_CANDIDATE: u32 = 0x7fff_ffff;

/// What has to be found out, or what came of it.
#[derive(Debug)]
pub enum PlanStep {
    /// Find out where a file really is.
    Locate(String),
    /// Find out whether something is at a place.
    Probe(String),
    /// The plan is made.
    Planned,
    /// The plan cannot be made.
    Refused(String),
}

/// What a [`PlanStep`] stands for.
#[verifier::ext_equal]
pub enum PlanStepView {
    Locate(Seq<char>),
    Probe(Seq<char>),
    Planned,
    Refused(Seq<char>),
}

impl View for PlanStep {
    type V = PlanStepView;

    open spec fn view(&self) -> PlanStepView {
        match *self {
            PlanStep::Locate(path) => PlanStepView::Locate(path@),
            PlanStep::Probe(path) => PlanStepView::Probe(path@),
            PlanStep::Planned => PlanStepView::Planned,
            PlanStep::Refused(message) => PlanStepView::Refused(message@),
        }
    }
}

/// A search for a free place.
pub struct Search {
    from: String,
    path: String,
    number: u32,
}

/// What a [`Search`] stands for.
#[verifier::ext_equal]
pub struct SearchView {
    /// Where the file is.
    pub from: Seq<char>,
    /// The place that was wished.
    pub path: Seq<char>,
    /// The number of the place that is tried.
    pub number: nat,
}

impl View for Search {
    type V = SearchView;

    closed spec fn view(&self) -> SearchView {
        SearchView { from: self.from@, path: self.path@, number: self.number as nat }
    }
}

/// A plan in the making.
pub struct Planner {
    style: Style,
    root: String,
    undo: bool,
    wishes: Vec<PlannedMove>,
    next: usize,
    search: Option<Search>,
    planned: Vec<PlannedMove>,
    reserved: Keys,
    seen: Keys,
}

/// What a [`Planner`] stands for.
#[verifier::ext_equal]
pub struct PlannerView {
    /// The notation of the paths.
    pub style: Style,
    /// The folder that no file may leave.
    pub root: Seq<char>,
    /// Whether the wishes are to undo moves.
    pub undo: bool,
    pub wishes: Seq<MoveView>,
    /// The number of wishes that have been dealt with.
    pub next: nat,
    pub search: Option<SearchView>,
    pub planned: Seq<MoveView>,
    /// The places that are promised.
    pub reserved: Set<Seq<char>>,
    /// The files that are on the move.
    pub seen: Set<Seq<char>>,
}

impl View for Planner {
    type V = PlannerView;

    closed spec fn view(&self) -> PlannerView {
        PlannerView {
            style: self.style,
            root: self.root@,
            undo: self.undo,
            wishes: moves::move_views(self.wishes@),
            next: self.next as nat,
            search: match self.search {
                Some(search) => Some(search@),
                None => None,
            },
            planned: moves::move_views(self.planned@),
            reserved: self.reserved@,
            seen: self.seen@,
        }
    }
}

// ---------------------------------------------------------------------------
// What an answer does
// ---------------------------------------------------------------------------

/// The start of a plan.
pub open spec fn fresh(
    style: Style,
    root: Seq<char>,
    undo: bool,
    wishes: Seq<MoveView>,
) -> PlannerView {
    PlannerView {
        style,
        root,
        undo,
        wishes,
        next: 0,
        search: None,
        planned: Seq::empty(),
        reserved: Set::empty(),
        seen: Set::empty(),
    }
}

/// What has to be found out between two wishes.
pub open spec fn between(p: PlannerView) -> PlanStepView {
    if p.next < p.wishes.len() {
        PlanStepView::Locate(p.wishes[p.next as int].from)
    } else {
        PlanStepView::Planned
    }
}

/// Where a wish goes, or why it is refused.
pub open spec fn wished_place(p: PlannerView, target: Seq<char>) -> Result<Seq<char>, Seq<char>> {
    if p.undo {
        names::recorded_destination(p.style, p.root, target)
    } else {
        names::destination(p.style, p.root, target)
    }
}

/// The plan after it was found out where the file of the next wish is.
pub open spec fn located(p: PlannerView, source: Seq<char>) -> (PlannerView, PlanStepView) {
    let key = names::path_key(source);
    if !paths::lies_in(p.style, source, p.root) {
        (p, PlanStepView::Refused(names::OUTSIDE_ROOT@))
    } else {
        match wished_place(p, p.wishes[p.next as int].to) {
            Err(message) => (p, PlanStepView::Refused(message)),
            Ok(place) => if !p.undo && paths::same_path(p.style, source, place) {
                let after = PlannerView { next: p.next + 1, ..p };
                (after, between(after))
            } else if p.seen.contains(key) {
                (
                    p,
                    PlanStepView::Refused(
                        if p.undo {
                            SAME_RECORD_TWICE@
                        } else {
                            SAME_SOURCE_TWICE@
                        },
                    ),
                )
            } else {
                (
                    PlannerView {
                        seen: p.seen.insert(key),
                        search: Some(SearchView { from: source, path: place, number: 1 }),
                        ..p
                    },
                    PlanStepView::Probe(place),
                )
            },
        }
    }
}

/// The plan after it was found out whether something is at the place that is tried.
pub open spec fn probed(p: PlannerView, exists: bool) -> (PlannerView, PlanStepView) {
    let search = p.search->0;
    let place = moves::candidate(p.style, search.path, search.number);
    if moves::is_free(place, exists, p.reserved) {
        let after = PlannerView {
            next: p.next + 1,
            search: None,
            planned: p.planned.push(MoveView { from: search.from, to: place }),
            reserved: p.reserved.insert(names::path_key(place)),
            ..p
        };
        (after, between(after))
    } else {
        let number = search.number + 1;
        (
            PlannerView { search: Some(SearchView { number, ..search }), ..p },
            PlanStepView::Probe(moves::candidate(p.style, search.path, number)),
        )
    }
}

impl PlannerView {
    /// Whether it has to be found out where a file is.
    pub open spec fn locates(self) -> bool {
        self.search is None && self.next < self.wishes.len()
    }

    /// Whether it has to be found out if something is at a place.
    pub open spec fn probes(self) -> bool {
        self.search is Some && self.next < self.wishes.len()
    }
}

impl Planner {
    fn step_between(&self) -> (step: PlanStep)
        ensures
            step@ == between(self@),
    {
        if self.next < self.wishes.len() {
            PlanStep::Locate(self.wishes[self.next].from.clone())
        } else {
            PlanStep::Planned
        }
    }

    /// Starts a plan.
    pub fn begin(style: Style, root: String, undo: bool, wishes: Vec<PlannedMove>) -> (started: (
        Planner,
        PlanStep,
    ))
        ensures
            started.0@ == fresh(style, root@, undo, moves::move_views(wishes@)),
            started.1@ == between(started.0@),
    {
        let planner = Planner {
            style,
            root,
            undo,
            wishes,
            next: 0,
            search: None,
            planned: Vec::new(),
            reserved: Keys::new(),
            seen: Keys::new(),
        };
        assert(planner@ =~= fresh(style, root@, undo, moves::move_views(wishes@)));
        let step = planner.step_between();
        (planner, step)
    }

    /// Goes on once it is known where the file of the next wish is, or why that cannot
    /// be known.
    pub fn on_located(&mut self, found: Result<String, String>) -> (step: PlanStep)
        requires
            old(self)@.locates(),
        ensures
            match found {
                Ok(source) => {
                    &&& final(self)@ == located(old(self)@, source@).0
                    &&& step@ == located(old(self)@, source@).1
                },
                Err(message) => {
                    &&& final(self)@ == old(self)@
                    &&& step@ == PlanStepView::Refused(message@)
                },
            },
    {
        let source = match found {
            Ok(source) => source,
            Err(message) => {
                return PlanStep::Refused(message);
            },
        };
        let ghost p = self@;
        if !paths::is_inside(self.style, &source, &self.root) {
            return PlanStep::Refused(names::OUTSIDE_ROOT.to_owned());
        }
        assert(p.wishes[p.next as int] == self.wishes@[self.next as int]@);
        let wished = if self.undo {
            names::safe_recorded_destination(self.style, &self.root, &self.wishes[self.next].to)
        } else {
            names::safe_destination(self.style, &self.root, &self.wishes[self.next].to)
        };
        let place = match wished {
            Ok(place) => place,
            Err(message) => {
                return PlanStep::Refused(message);
            },
        };
        if !self.undo && paths::is_same_path(self.style, &source, &place) {
            assert(self.next < self.wishes.len());
            self.next = self.next + 1;
            return self.step_between();
        }
        if !self.seen.insert(names::normalized_path_key(&source)) {
            proof {
                assert(p.seen.insert(names::path_key(source@)) =~= p.seen);
            }
            let message = if self.undo {
                SAME_RECORD_TWICE
            } else {
                SAME_SOURCE_TWICE
            };
            return PlanStep::Refused(message.to_owned());
        }
        let first = place.clone();
        self.search = Some(Search { from: source, path: place, number: 1 });
        PlanStep::Probe(first)
    }

    /// Goes on once it is known whether something is at the place that is tried.
    pub fn on_probed(&mut self, exists: bool) -> (step: PlanStep)
        requires
            old(self)@.probes(),
            old(self)@.search->0.number < LAST_CANDIDATE,
        ensures
            final(self)@ == probed(old(self)@, exists).0,
            step@ == probed(old(self)@, exists).1,
    {
        let ghost p = self@;
        match self.search.take() {
            Some(search) => {
                let place = moves::candidate_path(self.style, &search.path, search.number);
                if moves::conflict_free_reserved(&place, exists, &mut self.reserved) {
                    let ghost before = self.planned@;
                    let one = PlannedMove { from: search.from, to: place };
                    let ghost view = one@;
                    self.planned.push(one);
                    assert(moves::move_views(self.planned@) =~= moves::move_views(before).push(
                        view,
                    ));
                    assert(self.next < self.wishes.len());
                    self.next = self.next + 1;
                    assert(self@ =~= probed(p, exists).0);
                    self.step_between()
                } else {
                    let number: u32 = search.number + 1;
                    let other = moves::candidate_path(self.style, &search.path, number);
                    self.search = Some(Search { from: search.from, path: search.path, number });
                    assert(self@ =~= probed(p, exists).0);
                    PlanStep::Probe(other)
                }
            },
            None => PlanStep::Planned,
        }
    }

    /// Whether a further place can be tried.
    pub fn can_go_on(&self) -> (yes: bool)
        ensures
            yes == (self@.search is Some ==> self@.search->0.number < LAST_CANDIDATE),
    {
        match &self.search {
            Some(search) => search.number < LAST_CANDIDATE,
            None => true,
        }
    }

    /// The moves that are planned.
    pub fn into_moves(self) -> (list: Vec<PlannedMove>)
        ensures
            moves::move_views(list@) == self@.planned,
    {
        self.planned
    }
}

// ---------------------------------------------------------------------------
// Laws
// ---------------------------------------------------------------------------

/// What came of a question.
pub enum Finding {
    Located(Result<Seq<char>, Seq<char>>),
    Probed(bool),
}

/// The plan after an answer to the question that was asked.
pub open spec fn after(p: PlannerView, finding: Finding) -> (PlannerView, PlanStepView) {
    match finding {
        Finding::Located(Ok(source)) => located(p, source),
        Finding::Located(Err(message)) => (p, PlanStepView::Refused(message)),
        Finding::Probed(exists) => probed(p, exists),
    }
}

/// Whether an answer is one to the question that was asked.
pub open spec fn answers(p: PlannerView, finding: Finding) -> bool {
    match finding {
        Finding::Located(_) => p.locates(),
        Finding::Probed(_) => p.probes(),
    }
}

/// Whether a place is inside the root and not the root itself, and has a name that, on
/// Windows, holds nothing that is a mark in a path.
pub open spec fn is_fit(p: PlannerView, place: Seq<char>) -> bool {
    &&& moves::is_within(p.style, place, p.root)
    &&& paths::file_name(p.style, place) is Some
    &&& p.style == Style::Windows ==> paths::holds_no_mark(
        p.style,
        paths::file_name(p.style, place)->0,
    )
}

/// Whether a place of a wish is inside the root, and not the root itself.
pub open spec fn goes_inside(p: PlannerView, target: Seq<char>) -> bool {
    match wished_place(p, target) {
        Ok(place) => is_fit(p, place),
        Err(_) => true,
    }
}

/// Whether no two files of a plan are the same, no two go to the same place, and none
/// comes from or goes to a place outside the root.
pub open spec fn is_safe(p: PlannerView) -> bool {
    &&& paths::is_settled(p.style, p.root)
    &&& forall|i: int|
        0 <= i < p.wishes.len() ==> goes_inside(p, (#[trigger] p.wishes[i]).to)
    &&& forall|i: int|
        0 <= i < p.planned.len() ==> {
            &&& paths::lies_in(p.style, (#[trigger] p.planned[i]).from, p.root)
            &&& moves::is_within(p.style, p.planned[i].to, p.root)
            &&& p.seen.contains(names::path_key(p.planned[i].from))
            &&& p.reserved.contains(names::path_key(p.planned[i].to))
        }
    &&& forall|i: int, j: int|
        #![trigger p.planned[i], p.planned[j]]
        0 <= i < j < p.planned.len() ==> {
            &&& names::path_key(p.planned[i].from) != names::path_key(p.planned[j].from)
            &&& names::path_key(p.planned[i].to) != names::path_key(p.planned[j].to)
        }
    &&& p.search is Some ==> {
        let search = p.search->0;
        &&& paths::lies_in(p.style, search.from, p.root)
        &&& is_fit(p, search.path)
        &&& search.number >= 1
        &&& p.seen.contains(names::path_key(search.from))
        &&& forall|i: int|
            0 <= i < p.planned.len() ==> names::path_key((#[trigger] p.planned[i]).from)
                != names::path_key(search.from)
    }
}

/// A plan starts safe.
pub proof fn plans_start_safe(
    style: Style,
    root: Seq<char>,
    undo: bool,
    wishes: Seq<MoveView>,
)
    requires
        paths::is_settled(style, root),
        forall|i: int|
            0 <= i < wishes.len() ==> goes_inside(
                fresh(style, root, undo, wishes),
                (#[trigger] wishes[i]).to,
            ),
    ensures
        is_safe(fresh(style, root, undo, wishes)),
{
}

/// Whatever the answers are, a plan stays safe: each file is moved once, no two files go
/// to places that differ in case alone, and no file comes from or goes to a place
/// outside the root.
pub proof fn plans_stay_safe(p: PlannerView, finding: Finding)
    requires
        is_safe(p),
        answers(p, finding),
    ensures
        is_safe(after(p, finding).0),
{
    let q = after(p, finding).0;
    assert forall|i: int| 0 <= i < q.wishes.len() implies goes_inside(
        q,
        (#[trigger] q.wishes[i]).to,
    ) by {
        assert(goes_inside(p, p.wishes[i].to));
    }
    match finding {
        Finding::Located(Ok(source)) => {
            assert(goes_inside(p, p.wishes[p.next as int].to));
        },
        Finding::Located(Err(_)) => {},
        Finding::Probed(exists) => {
            let search = p.search->0;
            moves::candidates_stay_inside(p.style, p.root, search.path, search.number);
        },
    }
}

/// A target that a plan was made for goes inside the root.
pub proof fn planned_targets_go_inside(p: PlannerView, category: Seq<char>, relative: Seq<char>)
    requires
        !p.undo,
        paths::is_settled(p.style, p.root),
    ensures
        goes_inside(p, names::target(p.style, category, relative)),
{
    let target = names::target(p.style, category, relative);
    names::targets_have_three_parts(p.style, category, relative);
    if wished_place(p, target) is Ok {
        let place = wished_place(p, target)->Ok_0;
        paths::parts_of_join(p.style, p.root, target);
        assert(paths::parts(p.style, place).last() == paths::parts(p.style, target)[2]);
    }
}

proof fn wishes_are_targets(items: Seq<PlanItemView>)
    ensures
        forall|k: int|
            0 <= k < moves::wished_moves(items).len() ==> exists|i: int|
                0 <= i < items.len() && (#[trigger] items[i]).target == (
                #[trigger] moves::wished_moves(items)[k]).to,
    decreases items.len(),
{
    if items.len() > 0 {
        let front = items.drop_last();
        let before = moves::wished_moves(front);
        let wishes = moves::wished_moves(items);
        wishes_are_targets(front);
        assert forall|k: int| 0 <= k < wishes.len() implies exists|i: int|
            0 <= i < items.len() && (#[trigger] items[i]).target == (#[trigger] wishes[k]).to by {
            if k < before.len() {
                assert(wishes[k] == before[k]);
                let i = choose|i: int|
                    0 <= i < front.len() && (#[trigger] front[i]).target == before[k].to;
                assert(items[i].target == wishes[k].to);
            } else {
                assert(items[items.len() - 1].target == wishes[k].to);
            }
        }
    }
}

/// A plan whose items go into the folders of their categories is safe: whatever the
/// model decided, no file leaves the root.
pub proof fn filed_plans_are_safe(style: Style, root: Seq<char>, items: Seq<PlanItemView>)
    requires
        paths::is_settled(style, root),
        runs::all_filed(style, items),
    ensures
        is_safe(fresh(style, root, false, moves::wished_moves(items))),
{
    let wishes = moves::wished_moves(items);
    let p = fresh(style, root, false, wishes);
    wishes_are_targets(items);
    assert forall|k: int| 0 <= k < wishes.len() implies goes_inside(
        p,
        (#[trigger] wishes[k]).to,
    ) by {
        let i = choose|i: int| 0 <= i < items.len() && (#[trigger] items[i]).target == wishes[k].to;
        assert(runs::is_filed(style, items[i]));
        planned_targets_go_inside(p, items[i].category, items[i].relative_path);
    }
}

/// A file that was inside the root goes back inside it.
pub proof fn recorded_places_are_inside(p: PlannerView, from: Seq<char>)
    requires
        p.undo,
        paths::is_absolute(p.style, from),
        is_fit(p, from),
    ensures
        goes_inside(p, from),
{
}

/// A plan after `n` wishes, where every file is where it is said to be and nothing is in
/// the way.
pub open spec fn undisturbed(p: PlannerView, n: nat) -> PlannerView
    decreases n,
{
    if n == 0 {
        p
    } else {
        let before = undisturbed(p, (n - 1) as nat);
        probed(located(before, before.wishes[n - 1].from).0, false).0
    }
}

/// Whether some wishes are all for files inside the root, each of another file and each
/// for another place.
pub open spec fn are_apart(style: Style, root: Seq<char>, wishes: Seq<MoveView>) -> bool {
    &&& forall|i: int|
        0 <= i < wishes.len() ==> {
            &&& paths::lies_in(style, (#[trigger] wishes[i]).from, root)
            &&& names::recorded_destination(style, root, wishes[i].to) == Ok::<Seq<char>, Seq<char>>(
                wishes[i].to,
            )
        }
    &&& forall|i: int, j: int|
        #![trigger wishes[i], wishes[j]]
        0 <= i < j < wishes.len() ==> {
            &&& names::path_key(wishes[i].from) != names::path_key(wishes[j].from)
            &&& names::path_key(wishes[i].to) != names::path_key(wishes[j].to)
        }
}

/// Undoing takes the files back to where they came from: where they are still where
/// they were moved to and nothing has taken their old places, the plan is to move them
/// there.
pub proof fn undoing_goes_back(style: Style, root: Seq<char>, wishes: Seq<MoveView>, n: nat)
    requires
        are_apart(style, root, wishes),
        n <= wishes.len(),
    ensures
        ({
            let p = undisturbed(fresh(style, root, true, wishes), n);
            &&& p.planned == wishes.take(n as int)
            &&& p.next == n
            &&& p.search is None
            &&& p.style == style && p.root == root && p.undo && p.wishes == wishes
            &&& forall|key: Seq<char>| #[trigger]
                p.seen.contains(key) ==> exists|i: int|
                    0 <= i < n && names::path_key((#[trigger] wishes[i]).from) == key
            &&& forall|key: Seq<char>| #[trigger]
                p.reserved.contains(key) ==> exists|i: int|
                    0 <= i < n && names::path_key((#[trigger] wishes[i]).to) == key
        }),
    decreases n,
{
    if n == 0 {
        assert(wishes.take(0) =~= Seq::<MoveView>::empty());
    } else {
        let m = (n - 1) as nat;
        undoing_goes_back(style, root, wishes, m);
        let before = undisturbed(fresh(style, root, true, wishes), m);
        let wish = wishes[m as int];
        assert(!before.seen.contains(names::path_key(wish.from))) by {
            if before.seen.contains(names::path_key(wish.from)) {
                let i = choose|i: int|
                    0 <= i < m && names::path_key((#[trigger] wishes[i]).from) == names::path_key(
                        wish.from,
                    );
                assert(wishes[m as int] == wish);
            }
        }
        assert(!before.reserved.contains(names::path_key(wish.to))) by {
            if before.reserved.contains(names::path_key(wish.to)) {
                let i = choose|i: int|
                    0 <= i < m && names::path_key((#[trigger] wishes[i]).to) == names::path_key(
                        wish.to,
                    );
                assert(wishes[m as int] == wish);
            }
        }
        let middle = located(before, wish.from).0;
        let p = probed(middle, false).0;
        assert(p.planned =~= wishes.take(n as int));
        assert forall|key: Seq<char>| #[trigger] p.seen.contains(key) implies exists|i: int|
            0 <= i < n && names::path_key((#[trigger] wishes[i]).from) == key by {
            if before.seen.contains(key) {
                let i = choose|i: int|
                    0 <= i < m && names::path_key((#[trigger] wishes[i]).from) == key;
                assert(names::path_key(wishes[i].from) == key);
            } else {
                assert(names::path_key(wishes[m as int].from) == key);
            }
        }
        assert forall|key: Seq<char>| #[trigger] p.reserved.contains(key) implies exists|i: int|
            0 <= i < n && names::path_key((#[trigger] wishes[i]).to) == key by {
            if before.reserved.contains(key) {
                let i = choose|i: int|
                    0 <= i < m && names::path_key((#[trigger] wishes[i]).to) == key;
                assert(names::path_key(wishes[i].to) == key);
            } else {
                assert(names::path_key(wishes[m as int].to) == key);
            }
        }
    }
}

/// The moves of a safe plan can be planned back, where the files came from places that
/// were given by their full paths.
pub proof fn safe_plans_can_be_undone(p: PlannerView)
    requires
        is_safe(p),
        forall|i: int|
            0 <= i < p.planned.len() ==> {
                &&& paths::is_absolute(p.style, (#[trigger] p.planned[i]).from)
                &&& !names::climbs(p.style, p.planned[i].from)
            },
    ensures
        are_apart(p.style, p.root, moves::reversed(p.planned)),
{
    let back = moves::reversed(p.planned);
    let n = p.planned.len();
    assert forall|i: int| 0 <= i < back.len() implies {
        &&& paths::lies_in(p.style, (#[trigger] back[i]).from, p.root)
        &&& names::recorded_destination(p.style, p.root, back[i].to) == Ok::<Seq<char>, Seq<char>>(
            back[i].to,
        )
    } by {
        assert(moves::is_within(p.style, p.planned[n - 1 - i].to, p.root));
    }
    assert forall|i: int, j: int|
        #![trigger back[i], back[j]]
        0 <= i < j < back.len() implies {
        &&& names::path_key(back[i].from) != names::path_key(back[j].from)
        &&& names::path_key(back[i].to) != names::path_key(back[j].to)
    } by {
        assert(names::path_key(p.planned[n - 1 - j].from) != names::path_key(
            p.planned[n - 1 - i].from,
        ));
    }
}

/// Whether place number `k` for a file is free, where `occupied` are the places at which
/// something is.
pub open spec fn is_open_place(p: PlannerView, occupied: Set<Seq<char>>, k: nat) -> bool {
    let place = moves::candidate(p.style, p.search->0.path, k);
    moves::is_free(place, occupied.contains(place), p.reserved)
}

/// A plan after `n` questions of its search, answered by what is at the places.
pub open spec fn probed_times(p: PlannerView, occupied: Set<Seq<char>>, n: nat) -> PlannerView
    decreases n,
{
    if n == 0 {
        p
    } else {
        let before = probed_times(p, occupied, (n - 1) as nat);
        let search = before.search->0;
        probed(
            before,
            occupied.contains(moves::candidate(before.style, search.path, search.number)),
        ).0
    }
}

proof fn search_goes_on(p: PlannerView, occupied: Set<Seq<char>>, n: nat)
    requires
        p.search is Some,
        p.search->0.number == 1,
        forall|k: nat| 1 <= k <= n ==> !#[trigger] is_open_place(p, occupied, k),
    ensures
        probed_times(p, occupied, n) == (PlannerView {
            search: Some(SearchView { number: n + 1, ..p.search->0 }),
            ..p
        }),
    decreases n,
{
    if n > 0 {
        search_goes_on(p, occupied, (n - 1) as nat);
        assert(!is_open_place(p, occupied, n));
    }
}

/// A search takes the least free place: the one that was wished where it is free, else
/// the one with the least number from 2 on in its name that makes it free. It promises
/// that place and no other.
pub proof fn a_search_takes_the_least_free_place(
    p: PlannerView,
    occupied: Set<Seq<char>>,
    k: nat,
)
    requires
        p.probes(),
        p.search->0.number == 1,
        k >= 1,
        is_open_place(p, occupied, k),
        forall|j: nat| 1 <= j < k ==> !#[trigger] is_open_place(p, occupied, j),
    ensures
        ({
            let search = p.search->0;
            let place = if k == 1 {
                search.path
            } else {
                paths::with_file_name(
                    p.style,
                    search.path,
                    moves::numbered_name(p.style, search.path, k),
                )
            };
            let q = probed_times(p, occupied, k);
            &&& q.planned == p.planned.push(MoveView { from: search.from, to: place })
            &&& q.reserved == p.reserved.insert(names::path_key(place))
            &&& q.search is None
            &&& q.next == p.next + 1
            &&& !occupied.contains(place)
            &&& !p.reserved.contains(names::path_key(place))
        }),
{
    assert forall|j: nat| 1 <= j <= (k - 1) as nat implies !#[trigger] is_open_place(
        p,
        occupied,
        j,
    ) by {}
    search_goes_on(p, occupied, (k - 1) as nat);
}

} // verus!
