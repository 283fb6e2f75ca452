//! What is moved, and what moving back means.

use crate::moves;
use crate::moves::MoveView;
use crate::records::PlanItemView;
use vstd::prelude::*;

verus! {

/// The move that an item stands for.
pub open spec fn move_of(item: PlanItemView) -> MoveView {
    MoveView { from: item.source, to: item.target }
}

/// The items that are included, in their order.
pub open spec fn included_items(items: Seq<PlanItemView>) -> Seq<PlanItemView> {
    items.filter(|item: PlanItemView| item.included)
}

proof fn moves_are_those_of_included_items(items: Seq<PlanItemView>)
    ensures
        moves::wished_moves(items) == included_items(items).map_values(
            |item: PlanItemView| move_of(item),
        ),
    decreases items.len(),
{
    reveal(Seq::filter);
    let all = included_items(items).map_values(|item: PlanItemView| move_of(item));
    if items.len() == 0 {
        assert(all =~= Seq::<MoveView>::empty());
    } else {
        let rest = items.drop_last();
        moves_are_those_of_included_items(rest);
        let before = included_items(rest).map_values(|item: PlanItemView| move_of(item));
        if items.last().included {
            assert(included_items(items) =~= included_items(rest).push(items.last()));
            assert(all =~= before.push(move_of(items.last())));
        } else {
            assert(included_items(items) =~= included_items(rest));
        }
    }
}

/// Every included item is moved from its source to its target, whatever its warning, its
/// state and its category are, in the order of the items. No other item is moved.
pub proof fn included_items_are_moved(items: Seq<PlanItemView>)
    ensures
        moves::wished_moves(items).len() == included_items(items).len(),
        moves::wished_moves(items) == included_items(items).map_values(
            |item: PlanItemView| move_of(item),
        ),
        forall|i: int|
            0 <= i < items.len() && (#[trigger] items[i]).included ==> moves::wished_moves(
                items,
            ).contains(MoveView { from: items[i].source, to: items[i].target }),
{
    moves_are_those_of_included_items(items);
    assert forall|i: int| 0 <= i < items.len() && (
    #[trigger] items[i]).included implies moves::wished_moves(items).contains(
        MoveView { from: items[i].source, to: items[i].target },
    ) by {
        let before = items.take(i);
        let after = items.skip(i + 1);
        items_are_moved_one_by_one(before, items[i], after);
        assert(before + seq![items[i]] + after =~= items);
        let at = moves::wished_moves(before).len() as int;
        assert(moves::wished_moves(items)[at] == MoveView {
            from: items[i].source,
            to: items[i].target,
        });
    }
}

/// An item adds one move where it is included and none where it is not, and changes
/// nothing about the moves of the others.
pub proof fn items_are_moved_one_by_one(
    before: Seq<PlanItemView>,
    item: PlanItemView,
    after: Seq<PlanItemView>,
)
    ensures
        moves::wished_moves(before + seq![item] + after) == moves::wished_moves(before) + if item.included {
            seq![MoveView { from: item.source, to: item.target }]
        } else {
            Seq::empty()
        } + moves::wished_moves(after),
    decreases after.len(),
{
    let all = before + seq![item] + after;
    if after.len() == 0 {
        assert(all.drop_last() =~= before);
        assert(moves::wished_moves(after) =~= Seq::<MoveView>::empty());
        assert(moves::wished_moves(all) =~= moves::wished_moves(before) + if item.included {
            seq![MoveView { from: item.source, to: item.target }]
        } else {
            Seq::empty()
        } + moves::wished_moves(after));
    } else {
        let rest = after.drop_last();
        items_are_moved_one_by_one(before, item, rest);
        assert(all.drop_last() =~= before + seq![item] + rest);
        assert(all.last() == after.last());
        assert(moves::wished_moves(all) =~= moves::wished_moves(before) + if item.included {
            seq![MoveView { from: item.source, to: item.target }]
        } else {
            Seq::empty()
        } + moves::wished_moves(after));
    }
}

/// Two operations are undone by undoing the second and then the first; undoing twice is
/// doing again.
pub proof fn the_last_move_is_undone_first(first: Seq<MoveView>, second: Seq<MoveView>)
    ensures
        moves::reversed(first + second) == moves::reversed(second) + moves::reversed(first),
        moves::reversed(moves::reversed(first)) == first,
        first.len() == 1 ==> moves::reversed(first) == seq![
            MoveView { from: first[0].to, to: first[0].from },
        ],
{
    assert(moves::reversed(first + second) =~= moves::reversed(second) + moves::reversed(first));
    assert(moves::reversed(moves::reversed(first)) =~= first);
    if first.len() == 1 {
        assert(moves::reversed(first) =~= seq![MoveView { from: first[0].to, to: first[0].from }]);
    }
}

} // verus!
