//! Why the first attempt at a file failed, by the id of the file.

use crate::text;
use vstd::prelude::*;

verus! {

/// Reasons by id.
pub struct Failures {
    entries: Vec<(String, String)>,
    reasons: Ghost<Map<Seq<char>, Seq<char>>>,
}

impl View for Failures {
    type V = Map<Seq<char>, Seq<char>>;

    closed spec fn view(&self) -> Map<Seq<char>, Seq<char>> {
        self.reasons@
    }
}

/// A map after the same reason was noted for some ids.
pub open spec fn with_reason(
    reasons: Map<Seq<char>, Seq<char>>,
    ids: Seq<Seq<char>>,
    reason: Seq<char>,
) -> Map<Seq<char>, Seq<char>>
    decreases ids.len(),
{
    if ids.len() == 0 {
        reasons
    } else {
        with_reason(reasons, ids.drop_last(), reason).insert(ids.last(), reason)
    }
}

/// The reason for an id, where there is one.
pub open spec fn reason_for(reasons: Map<Seq<char>, Seq<char>>, id: Seq<char>) -> Option<Seq<char>> {
    if reasons.dom().contains(id) {
        Some(reasons[id])
    } else {
        None
    }
}

/// What is known of a map after the same reason was noted for some ids.
pub proof fn with_reason_covers_the_ids(
    reasons: Map<Seq<char>, Seq<char>>,
    ids: Seq<Seq<char>>,
    reason: Seq<char>,
)
    requires
        reasons.dom().finite(),
    ensures
        with_reason(reasons, ids, reason).dom().finite(),
        with_reason(reasons, ids, reason).dom().len() <= reasons.dom().len() + ids.len(),
        forall|id: Seq<char>|
            reason_for(#[trigger] with_reason(reasons, ids, reason), id) == if ids.contains(id) {
                Some(reason)
            } else {
                reason_for(reasons, id)
            },
    decreases ids.len(),
{
    if ids.len() > 0 {
        let front = ids.drop_last();
        with_reason_covers_the_ids(reasons, front, reason);
        assert(ids =~= front.push(ids.last()));
        let before = with_reason(reasons, front, reason);
        let after = with_reason(reasons, ids, reason);
        assert forall|id: Seq<char>| reason_for(after, id) == if ids.contains(id) {
            Some(reason)
        } else {
            reason_for(reasons, id)
        } by {
            assert(reason_for(before, id) == if front.contains(id) {
                Some(reason)
            } else {
                reason_for(reasons, id)
            });
            if ids.contains(id) && id != ids.last() {
                let i = choose|i: int| 0 <= i < ids.len() && ids[i] == id;
                assert(front[i] == id);
            }
            if front.contains(id) {
                let i = choose|i: int| 0 <= i < front.len() && front[i] == id;
                assert(ids[i] == id);
            }
            if id == ids.last() {
                assert(ids[ids.len() - 1] == id);
            }
        }
    }
}

impl Failures {
    /// Whether each id has one reason, the one that is noted for it.
    pub closed spec fn is_sound(&self) -> bool {
        &&& self@.dom().finite()
        &&& self@.dom().len() == self.entries@.len()
        &&& forall|i: int|
            0 <= i < self.entries@.len() ==> reason_for(self@, (#[trigger] self.entries@[i]).0@)
                == Some(self.entries@[i].1@)
        &&& forall|i: int, j: int|
            #![trigger self.entries@[i], self.entries@[j]]
            0 <= i < j < self.entries@.len() ==> self.entries@[i].0@ != self.entries@[j].0@
        &&& forall|id: Seq<char>| #[trigger]
            self@.dom().contains(id) ==> exists|i: int|
                0 <= i < self.entries@.len() && (#[trigger] self.entries@[i]).0@ == id
    }

    /// There are finitely many reasons.
    pub proof fn is_finite(&self)
        requires
            self.is_sound(),
        ensures
            self@.dom().finite(),
    {
    }

    /// No reasons.
    pub fn new() -> (none: Failures)
        ensures
            none.is_sound(),
            none@ == Map::<Seq<char>, Seq<char>>::empty(),
    {
        Failures { entries: Vec::new(), reasons: Ghost(Map::empty()) }
    }

    /// The number of ids that have a reason.
    pub fn len(&self) -> (count: usize)
        requires
            self.is_sound(),
        ensures
            count as nat == self@.dom().len(),
            self@.dom().finite(),
    {
        self.entries.len()
    }

    /// The reason for an id.
    pub fn get(&self, id: &str) -> (reason: Option<&String>)
        requires
            self.is_sound(),
        ensures
            match reason {
                Some(reason) => reason_for(self@, id@) == Some(reason@),
                None => reason_for(self@, id@) is None,
            },
    {
        let mut i: usize = 0;
        while i < self.entries.len()
            invariant
                self.is_sound(),
                i <= self.entries@.len(),
                forall|j: int| 0 <= j < i ==> (#[trigger] self.entries@[j]).0@ != id@,
            decreases self.entries@.len() - i,
        {
            if text::same_text(&self.entries[i].0, id) {
                assert(reason_for(self@, self.entries@[i as int].0@) == Some(
                    self.entries@[i as int].1@,
                ));
                return Some(&self.entries[i].1);
            }
            i += 1;
        }
        None
    }

    /// Notes a reason for an id, in place of an earlier one.
    pub fn insert(&mut self, id: &str, reason: &str)
        requires
            old(self).is_sound(),
        ensures
            final(self).is_sound(),
            final(self)@ == old(self)@.insert(id@, reason@),
    {
        let ghost before = self@;
        let ghost entries = self.entries@;
        let ghost after = before.insert(id@, reason@);
        let mut i: usize = 0;
        while i < self.entries.len()
            invariant
                self.is_sound(),
                self@ == before,
                self.entries@ == entries,
                i <= entries.len(),
                forall|j: int| 0 <= j < i ==> (#[trigger] entries[j]).0@ != id@,
            ensures
                self.is_sound(),
                self@ == before,
                self.entries@ == entries,
                i <= entries.len(),
                forall|j: int| 0 <= j < i ==> (#[trigger] entries[j]).0@ != id@,
                i < entries.len() ==> entries[i as int].0@ == id@,
            decreases entries.len() - i,
        {
            if text::same_text(&self.entries[i].0, id) {
                break ;
            }
            i += 1;
        }
        if i < self.entries.len() {
            assert(before.dom().contains(id@)) by {
                assert(reason_for(self@, entries[i as int].0@) == Some(entries[i as int].1@));
            }
            self.entries.set(i, (id.to_owned(), reason.to_owned()));
            self.reasons = Ghost(after);
            proof {
                assert(after.dom() =~= before.dom());
                assert forall|other: Seq<char>| #[trigger] self@.dom().contains(other) implies exists|
                    j: int,
                |
                    0 <= j < self.entries@.len() && (#[trigger] self.entries@[j]).0@ == other by {
                    assert(before.dom().contains(other));
                    let j = choose|j: int|
                        0 <= j < entries.len() && (#[trigger] entries[j]).0@ == other;
                    assert(self.entries@[j].0@ == other);
                }
                assert forall|j: int| 0 <= j < self.entries@.len() implies reason_for(
                    self@,
                    (#[trigger] self.entries@[j]).0@,
                ) == Some(self.entries@[j].1@) by {
                    if j != i {
                        assert(self.entries@[j] == entries[j]);
                        assert(reason_for(before, entries[j].0@) == Some(entries[j].1@));
                    }
                }
            }
        } else {
            assert(!before.dom().contains(id@));
            self.entries.push((id.to_owned(), reason.to_owned()));
            self.reasons = Ghost(after);
            proof {
                assert forall|other: Seq<char>| #[trigger] self@.dom().contains(other) implies exists|
                    j: int,
                |
                    0 <= j < self.entries@.len() && (#[trigger] self.entries@[j]).0@ == other by {
                    if other == id@ {
                        assert(self.entries@[entries.len() as int].0@ == other);
                    } else {
                        assert(before.dom().contains(other));
                        let j = choose|j: int|
                            0 <= j < entries.len() && (#[trigger] entries[j]).0@ == other;
                        assert(self.entries@[j].0@ == other);
                    }
                }
                assert forall|j: int| 0 <= j < self.entries@.len() implies reason_for(
                    self@,
                    (#[trigger] self.entries@[j]).0@,
                ) == Some(self.entries@[j].1@) by {
                    if j < entries.len() {
                        assert(self.entries@[j] == entries[j]);
                        assert(reason_for(before, entries[j].0@) == Some(entries[j].1@));
                    }
                }
            }
        }
    }
}

} // verus!
