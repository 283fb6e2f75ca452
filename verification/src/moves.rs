//! Moves of files, and names for them that nothing else has.

use crate::names;
use crate::paths;
use crate::paths::Style;
use crate::records::{PlanItem, PlanItemView};
use crate::records;
use crate::text;
use vstd::prelude::*;

verus! {

// ---------------------------------------------------------------------------
// Moves
// ---------------------------------------------------------------------------

/// A move of a file.
#[derive(Debug)]
pub struct PlannedMove {
    pub from: String,
    pub to: String,
}

/// What a [`PlannedMove`] stands for.
#[verifier::ext_equal]
pub struct MoveView {
    pub from: Seq<char>,
    pub to: Seq<char>,
}

impl View for PlannedMove {
    type V = MoveView;

    open spec fn view(&self) -> MoveView {
        MoveView { from: self.from@, to: self.to@ }
    }
}

impl Clone for PlannedMove {
    fn clone(&self) -> (copy: Self)
        ensures
            copy@ == self@,
    {
        PlannedMove { from: self.from.clone(), to: self.to.clone() }
    }
}

/// What a list of moves stands for.
pub open spec fn move_views(list: Seq<PlannedMove>) -> Seq<MoveView> {
    Seq::new(list.len(), |i: int| list[i]@)
}

/// The moves that a plan asks for: those of the items that are included.
pub open spec fn wished_moves(items: Seq<PlanItemView>) -> Seq<MoveView>
    decreases items.len(),
{
    if items.len() == 0 {
        Seq::empty()
    } else {
        let before = wished_moves(items.drop_last());
        if items.last().included {
            before.push(MoveView { from: items.last().source, to: items.last().target })
        } else {
            before
        }
    }
}

/// The moves that a plan asks for.
pub fn included_moves(items: &Vec<PlanItem>) -> (list: Vec<PlannedMove>)
    ensures
        move_views(list@) == wished_moves(records::item_views(items@)),
{
    let ghost views = records::item_views(items@);
    let mut list: Vec<PlannedMove> = Vec::new();
    assert(views.take(0) =~= Seq::<PlanItemView>::empty());
    assert(move_views(list@) =~= Seq::<MoveView>::empty());
    for i in 0..items.len()
        invariant
            views == records::item_views(items@),
            move_views(list@) == wished_moves(views.take(i as int)),
    {
        assert(views.take(i as int + 1).drop_last() =~= views.take(i as int));
        assert(views.take(i as int + 1).last() == items@[i as int]@);
        if items[i].included {
            let ghost before = list@;
            let wish = PlannedMove { from: items[i].source.clone(), to: items[i].target.clone() };
            list.push(wish);
            assert(move_views(list@) =~= move_views(before).push(wish@));
        }
    }
    assert(views.take(items@.len() as int) =~= views);
    list
}

/// The moves that undo some moves: each the other way round, the last one first.
pub open spec fn reversed(list: Seq<MoveView>) -> Seq<MoveView> {
    Seq::new(
        list.len(),
        |i: int|
            MoveView { from: list[list.len() - 1 - i].to, to: list[list.len() - 1 - i].from },
    )
}

/// The moves that undo some moves.
pub fn reversed_moves(list: &Vec<PlannedMove>) -> (back: Vec<PlannedMove>)
    ensures
        move_views(back@) == reversed(move_views(list@)),
{
    let mut back: Vec<PlannedMove> = Vec::new();
    let ghost views = move_views(list@);
    let mut left: usize = list.len();
    while left > 0
        invariant
            left <= list@.len(),
            views == move_views(list@),
            back@.len() == list@.len() - left,
            forall|i: int| 0 <= i < back@.len() ==> (#[trigger] back@[i])@ == reversed(views)[i],
        decreases left,
    {
        left -= 1;
        assert(views[left as int] == list@[left as int]@);
        back.push(PlannedMove { from: list[left].to.clone(), to: list[left].from.clone() });
    }
    assert(move_views(back@) =~= reversed(views));
    back
}

// ---------------------------------------------------------------------------
// Names that nothing else has
// ---------------------------------------------------------------------------

/// The name of a file with a number, which stands before the extension.
pub open spec fn numbered_name(style: Style, path: Seq<char>, n: nat) -> Seq<char> {
    let (stem, ending) = match paths::file_name(style, path) {
        Some(name) => (
            paths::stem_of(name),
            match paths::extension_of(name) {
                Some(extension) => "."@ + extension,
                None => Seq::empty(),
            },
        ),
        None => ("file"@, Seq::empty()),
    };
    stem + " ("@ + text::decimal(n) + ")"@ + ending
}

/// The place number `n` that is tried for a file: the first is the one that was wished,
/// the others have the number in their name.
pub open spec fn candidate(style: Style, path: Seq<char>, n: nat) -> Seq<char> {
    if n == 1 {
        path
    } else {
        paths::with_file_name(style, path, numbered_name(style, path, n))
    }
}

/// The place number `n` that is tried for a file.
pub fn candidate_path(style: Style, path: &str, n: u32) -> (place: String)
    ensures
        place@ == candidate(style, path@, n as nat),
{
    if n == 1 {
        return path.to_owned();
    }
    let mut name = String::new();
    let mut ending = String::new();
    match paths::file_name_of(style, path) {
        Some(full) => {
            name.append(&paths::stem(&full));
            if let Some(extension) = paths::extension(&full) {
                ending.append(".");
                ending.append(&extension);
            }
        },
        None => {
            name.append("file");
        },
    }
    name.append(" (");
    name.append(&text::decimal_of(n as u64));
    name.append(")");
    name.append(&ending);
    proof {
        assert(name@ =~= numbered_name(style, path@, n as nat));
    }
    paths::renamed(style, path, &name)
}

// ---------------------------------------------------------------------------
// Keys
// ---------------------------------------------------------------------------

/// The keys of some paths.
pub struct Keys {
    entries: Vec<String>,
}

impl View for Keys {
    type V = Set<Seq<char>>;

    closed spec fn view(&self) -> Set<Seq<char>> {
        Set::new(
            |key: Seq<char>|
                exists|i: int| 0 <= i < self.entries@.len() && (#[trigger] self.entries@[i])@ == key,
        )
    }
}

impl Keys {
    /// No keys.
    pub fn new() -> (none: Keys)
        ensures
            none@ == Set::<Seq<char>>::empty(),
    {
        let none = Keys { entries: Vec::new() };
        assert(none@ =~= Set::<Seq<char>>::empty());
        none
    }

    /// Whether a key is there.
    pub fn holds(&self, key: &str) -> (yes: bool)
        ensures
            yes == self@.contains(key@),
    {
        let mut i: usize = 0;
        while i < self.entries.len()
            invariant
                i <= self.entries@.len(),
                forall|j: int| 0 <= j < i ==> (#[trigger] self.entries@[j])@ != key@,
            decreases self.entries@.len() - i,
        {
            if text::same_text(&self.entries[i], key) {
                return true;
            }
            i += 1;
        }
        false
    }

    /// Puts a key in; says whether it was not there.
    pub fn insert(&mut self, key: String) -> (new: bool)
        ensures
            new == !old(self)@.contains(key@),
            final(self)@ == old(self)@.insert(key@),
    {
        let ghost before = self@;
        if self.holds(&key) {
            assert(before =~= before.insert(key@));
            return false;
        }
        let ghost entries = self.entries@;
        let ghost one = key@;
        self.entries.push(key);
        proof {
            assert forall|other: Seq<char>| self@.contains(other) <==> before.insert(one).contains(
                other,
            ) by {
                if self@.contains(other) && other != one {
                    let i = choose|i: int|
                        0 <= i < self.entries@.len() && (#[trigger] self.entries@[i])@ == other;
                    assert(entries[i]@ == other);
                }
                if before.contains(other) {
                    let i = choose|i: int|
                        0 <= i < entries.len() && (#[trigger] entries[i])@ == other;
                    assert(self.entries@[i]@ == other);
                }
                if other == one {
                    assert(self.entries@[entries.len() as int]@ == other);
                }
            }
            assert(self@ =~= before.insert(one));
        }
        true
    }
}

/// Whether a place can be taken: nothing is there, and it was not promised.
pub open spec fn is_free(place: Seq<char>, exists: bool, reserved: Set<Seq<char>>) -> bool {
    !exists && !reserved.contains(names::path_key(place))
}

/// Takes a place where it can be taken, given whether something is there.
pub fn conflict_free_reserved(place: &str, exists: bool, reserved: &mut Keys) -> (taken: bool)
    ensures
        taken == is_free(place@, exists, old(reserved)@),
        final(reserved)@ == if taken {
            old(reserved)@.insert(names::path_key(place@))
        } else {
            old(reserved)@
        },
{
    if exists {
        return false;
    }
    let ghost before = reserved@;
    let taken = reserved.insert(names::normalized_path_key(place));
    proof {
        if !taken {
            assert(before.insert(names::path_key(place@)) =~= before);
        }
    }
    taken
}

// ---------------------------------------------------------------------------
// Candidates stay in their folder
// ---------------------------------------------------------------------------

proof fn numbered_names_are_names(style: Style, path: Seq<char>, n: nat)
    requires
        paths::file_name(style, path) is Some,
        paths::holds_no_mark(style, paths::file_name(style, path)->0),
    ensures
        paths::holds_no_mark(style, numbered_name(style, path, n)),
        numbered_name(style, path, n).len() >= 3,
{
    let name = paths::file_name(style, path)->0;
    let full = numbered_name(style, path, n);
    let stem = paths::stem_of(name);
    let digits = text::decimal(n);
    text::decimal_is_digits(n);
    reveal_strlit(" (");
    reveal_strlit(")");
    reveal_strlit(".");
    paths::last_dot_is_a_dot(name);
    let ending = match paths::extension_of(name) {
        Some(extension) => "."@ + extension,
        None => Seq::empty(),
    };
    assert(full == stem + " ("@ + digits + ")"@ + ending);
    let set = paths::separators(style, None);
    assert forall|i: int| 0 <= i < full.len() implies !paths::separates(set, #[trigger] full[i])
        && (style == Style::Windows ==> full[i] != ':') by {
        if i < stem.len() {
            assert(full[i] == name[i]);
            assert(!paths::separates(set, name[i]));
            if name[i] == ':' {
                assert(name.contains(':'));
            }
        } else if i < stem.len() + 2 {
            assert(full[i] == " ("@[i - stem.len()]);
        } else if i < stem.len() + 2 + digits.len() {
            assert(full[i] == digits[i - stem.len() - 2]);
            assert(text::is_ascii_digit(digits[i - stem.len() - 2]));
        } else if i == stem.len() + 2 + digits.len() {
            assert(full[i] == ")"@[0]);
        } else {
            let k = i - stem.len() - 3 - digits.len();
            assert(full[i] == ending[k]);
            if k > 0 {
                let at = paths::last_dot(name) + k;
                assert(name[at] == ending[k]);
                assert(!paths::separates(set, name[at]));
                if name[at] == ':' {
                    assert(name.contains(':'));
                }
            }
        }
    }
    if full.contains(':') {
        let i = choose|i: int| 0 <= i < full.len() && full[i] == ':';
        assert(style == Style::Windows ==> full[i] != ':');
    }
}

/// Every place that is tried for a file lies in the folder of the one that was wished.
pub proof fn candidates_stay_in_their_folder(style: Style, path: Seq<char>, n: nat)
    requires
        paths::file_name(style, path) is Some,
        paths::is_settled(style, path),
        style == Style::Windows ==> paths::holds_no_mark(
            style,
            paths::file_name(style, path)->0,
        ),
    ensures
        paths::parts(style, candidate(style, path, n)).drop_last() == paths::parts(
            style,
            path,
        ).drop_last(),
        paths::parts(style, candidate(style, path, n)).len() == paths::parts(style, path).len(),
        n != 1 ==> paths::file_name(style, candidate(style, path, n)) == Some(
            numbered_name(style, path, n),
        ),
{
    if n != 1 {
        let name = numbered_name(style, path, n);
        paths::file_names_hold_no_separator(style, path);
        numbered_names_are_names(style, path, n);
        paths::unmarked_names_are_plain(style, name);
        paths::renamed_paths_stay_in_their_folder(style, path, name);
        assert(paths::parts(style, candidate(style, path, n)).drop_last() =~= paths::parts(
            style,
            path,
        ).drop_last());
    }
}

/// Whether a path lies in a folder, and is not the folder itself.
pub open spec fn is_within(style: Style, path: Seq<char>, root: Seq<char>) -> bool {
    paths::lies_in(style, path, root) && paths::parts(style, path).len() > paths::parts(
        style,
        root,
    ).len()
}

/// Every place that is tried for a file inside a folder is inside that folder.
pub proof fn candidates_stay_inside(style: Style, root: Seq<char>, path: Seq<char>, n: nat)
    requires
        paths::file_name(style, path) is Some,
        style == Style::Windows ==> paths::holds_no_mark(
            style,
            paths::file_name(style, path)->0,
        ),
        paths::is_settled(style, root),
        is_within(style, path, root),
    ensures
        is_within(style, candidate(style, path, n), root),
{
    let folder = paths::parts(style, root);
    let all = paths::parts(style, path);
    let depth = folder.len() as int;
    assert(paths::is_settled(style, path)) by {
        if style == Style::Windows {
            assert(all[0] == all.take(depth)[0]);
            if depth > 1 {
                assert(all[1] == all.take(depth)[1]);
            }
        }
    }
    candidates_stay_in_their_folder(style, path, n);
    let place = paths::parts(style, candidate(style, path, n));
    assert(place.take(depth) =~= place.drop_last().take(depth));
    assert(all.take(depth) =~= all.drop_last().take(depth));
}

/// Two different numbers give two different names, so that a search does not try the
/// same place twice.
pub proof fn candidates_differ(style: Style, path: Seq<char>, m: nat, n: nat)
    requires
        m != n,
    ensures
        numbered_name(style, path, m) != numbered_name(style, path, n),
{
    if numbered_name(style, path, m) == numbered_name(style, path, n) {
        let (stem, ending) = match paths::file_name(style, path) {
            Some(name) => (
                paths::stem_of(name),
                match paths::extension_of(name) {
                    Some(extension) => "."@ + extension,
                    None => Seq::empty(),
                },
            ),
            None => ("file"@, Seq::empty()),
        };
        reveal_strlit(" (");
        reveal_strlit(")");
        let one = numbered_name(style, path, m);
        let other = numbered_name(style, path, n);
        let a = text::decimal(m);
        let b = text::decimal(n);
        let from = stem.len() + 2;
        assert(one == stem + " ("@ + a + ")"@ + ending);
        assert(other == stem + " ("@ + b + ")"@ + ending);
        assert(a.len() == b.len());
        assert(one.subrange(from as int, (from + a.len()) as int) =~= a);
        assert(other.subrange(from as int, (from + b.len()) as int) =~= b);
        text::decimal_is_injective(m, n);
    }
}

} // verus!
