//! What holds of every run of the analysis, whatever the model replies.

use crate::batches;
use crate::categories;
use crate::decisions;
use crate::diagnostics;
use crate::failures;
use crate::names;
use crate::outside;
use crate::paths::Style;
use crate::records::{AiStatus, ContextView, DecisionView, PlanItemView};
use crate::refinement;
use crate::refinement::{ReplyView, RunView, StepView, TurnView};
use crate::text;
use vstd::prelude::*;

verus! {

// ---------------------------------------------------------------------------
// Items with distinct ids
// ---------------------------------------------------------------------------

/// Whether no two items have the same id.
pub open spec fn distinct_items(items: Seq<PlanItemView>) -> bool {
    forall|i: int, j: int|
        #![trigger items[i], items[j]]
        0 <= i < j < items.len() ==> items[i].id != items[j].id
}

/// Whether no two files have the same id.
pub open spec fn distinct_files(contexts: Seq<ContextView>) -> bool {
    forall|i: int, j: int|
        #![trigger contexts[i], contexts[j]]
        0 <= i < j < contexts.len() ==> contexts[i].id != contexts[j].id
}

/// Whether an id is that of one of some files.
pub open spec fn is_among(contexts: Seq<ContextView>, id: Seq<char>) -> bool {
    exists|k: int| 0 <= k < contexts.len() && (#[trigger] contexts[k]).id == id
}

/// Whether two lists of items are the same but for what the model decides.
pub open spec fn same_files(one: Seq<PlanItemView>, other: Seq<PlanItemView>) -> bool {
    &&& one.len() == other.len()
    &&& forall|i: int|
        #![trigger one[i]]
        #![trigger other[i]]
        0 <= i < one.len() ==> {
            &&& one[i].id == other[i].id
            &&& one[i].source == other[i].source
            &&& one[i].relative_path == other[i].relative_path
            &&& one[i].warning == other[i].warning
        }
}

proof fn index_of(items: Seq<PlanItemView>, i: int)
    requires
        distinct_items(items),
        0 <= i < items.len(),
    ensures
        decisions::item_index(items, items[i].id) == Some(i),
{
    decisions::item_index_is_first(items, items[i].id);
    let found = decisions::item_index(items, items[i].id);
    match found {
        Some(j) => {
            if j < i {
                assert(items[j].id != items[i].id);
            } else if i < j {
                assert(items[i].id != items[j].id);
            }
        },
        None => {
            assert(items[i].id != items[i].id);
        },
    }
}

proof fn decision_is_for_its_id(answers: Seq<DecisionView>, id: Seq<char>)
    ensures
        decisions::decision_for(answers, id) is Some ==> decisions::decision_for(answers, id)->0.id
            == id,
    decreases answers.len(),
{
    if answers.len() > 0 {
        decision_is_for_its_id(answers.drop_last(), id);
    }
}

/// An item after the decisions on a batch.
pub open spec fn item_after_batch(
    style: Style,
    mode: Seq<char>,
    item: PlanItemView,
    batch: Seq<ContextView>,
    answers: Seq<DecisionView>,
) -> PlanItemView {
    let decision = decisions::decision_for(answers, item.id);
    if is_among(batch, item.id) && decision is Some {
        decisions::decided(style, mode, item, decision->0)
    } else {
        item
    }
}

/// What the decisions on a batch do to each item: the files of the batch that have a
/// decision are decided, all others stay as they are.
pub proof fn batch_by_item(
    style: Style,
    mode: Seq<char>,
    items: Seq<PlanItemView>,
    batch: Seq<ContextView>,
    answers: Seq<DecisionView>,
)
    requires
        distinct_items(items),
        distinct_files(batch),
    ensures
        decisions::after_batch(style, mode, items, batch, answers) == Seq::new(
            items.len(),
            |i: int| item_after_batch(style, mode, items[i], batch, answers),
        ),
    decreases batch.len(),
{
    let after = decisions::after_batch(style, mode, items, batch, answers);
    let expected = Seq::new(
        items.len(),
        |i: int| item_after_batch(style, mode, items[i], batch, answers),
    );
    if batch.len() == 0 {
        assert(after =~= expected);
    } else {
        let front = batch.drop_last();
        let last = batch.last();
        assert(distinct_files(front)) by {
            assert forall|i: int, j: int|
                #![trigger front[i], front[j]]
                0 <= i < j < front.len() implies front[i].id != front[j].id by {
                assert(front[i] == batch[i] && front[j] == batch[j]);
            }
        }
        batch_by_item(style, mode, items, front, answers);
        let before = decisions::after_batch(style, mode, items, front, answers);
        assert(same_files(items, before));
        assert(distinct_items(before)) by {
            assert forall|i: int, j: int|
                #![trigger before[i], before[j]]
                0 <= i < j < before.len() implies before[i].id != before[j].id by {
                assert(items[i].id != items[j].id);
            }
        }
        decision_is_for_its_id(answers, last.id);
        let decision = decisions::decision_for(answers, last.id);
        assert(decisions::settles(batch, answers, batch.len() - 1) <==> decision is Some) by {
            assert forall|j: int| 0 <= j < batch.len() - 1 implies (#[trigger] batch[j]).id
                != batch[batch.len() - 1].id by {}
        }
        decisions::item_index_is_first(before, last.id);
        assert forall|i: int| 0 <= i < items.len() implies #[trigger] after[i] == expected[i] by {
            let id = items[i].id;
            if id == last.id {
                assert(batch[batch.len() - 1].id == id);
                assert(is_among(batch, id));
                assert(!is_among(front, id)) by {
                    if is_among(front, id) {
                        let k = choose|k: int|
                            0 <= k < front.len() && (#[trigger] front[k]).id == id;
                        assert(batch[k].id == id);
                    }
                }
                assert(before[i] == items[i]);
                index_of(before, i);
            } else {
                assert(is_among(front, id) <==> is_among(batch, id)) by {
                    if is_among(front, id) {
                        let k = choose|k: int|
                            0 <= k < front.len() && (#[trigger] front[k]).id == id;
                        assert(batch[k].id == id);
                    }
                    if is_among(batch, id) {
                        let k = choose|k: int|
                            0 <= k < batch.len() && (#[trigger] batch[k]).id == id;
                        assert(front[k].id == id);
                    }
                }
                assert(before[i] == expected[i]);
                assert(before[i].id == id);
            }
        }
        assert(after =~= expected);
    }
}

/// Which files of a batch the decisions leave open.
pub proof fn missing_by_id(batch: Seq<ContextView>, answers: Seq<DecisionView>)
    requires
        distinct_files(batch),
    ensures
        forall|id: Seq<char>| #[trigger]
            decisions::missing_ids(batch, answers).contains(id) <==> is_among(batch, id)
                && decisions::decision_for(answers, id) is None,
        decisions::missing_ids(batch, answers).no_duplicates(),
        decisions::missing_ids(batch, answers).len() <= batch.len(),
    decreases batch.len(),
{
    let missing = decisions::missing_ids(batch, answers);
    if batch.len() == 0 {
        assert forall|id: Seq<char>| !is_among(batch, id) by {}
    } else {
        let front = batch.drop_last();
        let last = batch.last();
        let before = decisions::missing_ids(front, answers);
        assert(distinct_files(front)) by {
            assert forall|i: int, j: int|
                #![trigger front[i], front[j]]
                0 <= i < j < front.len() implies front[i].id != front[j].id by {
                assert(front[i] == batch[i] && front[j] == batch[j]);
            }
        }
        missing_by_id(front, answers);
        assert(!is_among(front, last.id)) by {
            if is_among(front, last.id) {
                let k = choose|k: int| 0 <= k < front.len() && (#[trigger] front[k]).id == last.id;
                assert(batch[k].id == batch[batch.len() - 1].id);
            }
        }
        assert(decisions::settles(batch, answers, batch.len() - 1) <==> decisions::decision_for(
            answers,
            last.id,
        ) is Some) by {
            assert forall|j: int| 0 <= j < batch.len() - 1 implies (#[trigger] batch[j]).id
                != batch[batch.len() - 1].id by {}
        }
        assert forall|id: Seq<char>| #[trigger] missing.contains(id) <==> is_among(batch, id)
            && decisions::decision_for(answers, id) is None by {
            assert(before.contains(id) <==> is_among(front, id) && decisions::decision_for(
                answers,
                id,
            ) is None);
            assert(is_among(batch, id) <==> is_among(front, id) || id == last.id) by {
                if is_among(front, id) {
                    let k = choose|k: int| 0 <= k < front.len() && (#[trigger] front[k]).id == id;
                    assert(batch[k].id == id);
                }
                if is_among(batch, id) && id != last.id {
                    let k = choose|k: int| 0 <= k < batch.len() && (#[trigger] batch[k]).id == id;
                    assert(front[k].id == id);
                }
                if id == last.id {
                    assert(batch[batch.len() - 1].id == id);
                }
            }
            if missing.contains(id) && missing.len() > before.len() {
                let k = choose|k: int| 0 <= k < missing.len() && missing[k] == id;
                if k < before.len() {
                    assert(before[k] == id);
                }
            }
            if before.contains(id) {
                let k = choose|k: int| 0 <= k < before.len() && before[k] == id;
                assert(missing[k] == id);
            }
            if missing.len() > before.len() {
                assert(missing[missing.len() - 1] == last.id);
            }
        }
        assert(!before.contains(last.id));
    }
}

/// An item after some were given up.
pub open spec fn item_after_giving_up(
    style: Style,
    item: PlanItemView,
    which: Seq<Seq<char>>,
    reasons: Map<Seq<char>, Seq<char>>,
    reason: Seq<char>,
) -> PlanItemView {
    if which.contains(item.id) {
        decisions::given_up(
            style,
            item,
            decisions::given_up_detail(failures::reason_for(reasons, item.id), reason),
        )
    } else {
        item
    }
}

/// What giving up some files does to each item: those files are given up, all others
/// stay as they are.
pub proof fn giving_up_by_item(
    style: Style,
    items: Seq<PlanItemView>,
    which: Seq<Seq<char>>,
    reasons: Map<Seq<char>, Seq<char>>,
    reason: Seq<char>,
)
    requires
        distinct_items(items),
        which.no_duplicates(),
    ensures
        refinement::after_giving_up_all(style, items, which, reasons, reason) == Seq::new(
            items.len(),
            |i: int| item_after_giving_up(style, items[i], which, reasons, reason),
        ),
    decreases which.len(),
{
    let after = refinement::after_giving_up_all(style, items, which, reasons, reason);
    let expected = Seq::new(
        items.len(),
        |i: int| item_after_giving_up(style, items[i], which, reasons, reason),
    );
    if which.len() == 0 {
        assert(after =~= expected);
    } else {
        let front = which.drop_last();
        let last = which.last();
        giving_up_by_item(style, items, front, reasons, reason);
        let before = refinement::after_giving_up_all(style, items, front, reasons, reason);
        assert(same_files(items, before));
        assert(distinct_items(before)) by {
            assert forall|i: int, j: int|
                #![trigger before[i], before[j]]
                0 <= i < j < before.len() implies before[i].id != before[j].id by {
                assert(items[i].id != items[j].id);
            }
        }
        decisions::item_index_is_first(before, last);
        assert forall|i: int| 0 <= i < items.len() implies #[trigger] after[i] == expected[i] by {
            let id = items[i].id;
            if id == last {
                assert(which[which.len() - 1] == id);
                assert(!front.contains(id)) by {
                    if front.contains(id) {
                        let k = choose|k: int| 0 <= k < front.len() && front[k] == id;
                        assert(which[k] == which[which.len() - 1]);
                    }
                }
                assert(before[i] == items[i]);
                index_of(before, i);
            } else {
                assert(front.contains(id) <==> which.contains(id)) by {
                    if front.contains(id) {
                        let k = choose|k: int| 0 <= k < front.len() && front[k] == id;
                        assert(which[k] == id);
                    }
                    if which.contains(id) {
                        let k = choose|k: int| 0 <= k < which.len() && which[k] == id;
                        assert(front[k] == id);
                    }
                }
                assert(before[i] == expected[i]);
                assert(before[i].id == id);
            }
        }
        assert(after =~= expected);
    }
}

// ---------------------------------------------------------------------------
// Counts
// ---------------------------------------------------------------------------

proof fn count_after_update(items: Seq<PlanItemView>, i: int, item: PlanItemView, status: AiStatus)
    requires
        0 <= i < items.len(),
    ensures
        decisions::count_with(items.update(i, item), status) == decisions::count_with(items, status)
            + (if item.ai_status == status {
            1int
        } else {
            0
        }) - (if items[i].ai_status == status {
            1int
        } else {
            0
        }),
    decreases items.len(),
{
    let after = items.update(i, item);
    if i == items.len() - 1 {
        assert(after.drop_last() =~= items.drop_last());
    } else {
        count_after_update(items.drop_last(), i, item, status);
        assert(after.drop_last() =~= items.drop_last().update(i, item));
    }
}

/// Every item is in one of the three states.
pub proof fn states_add_up(items: Seq<PlanItemView>)
    ensures
        decisions::count_with(items, AiStatus::Processed) + decisions::count_with(
            items,
            AiStatus::RetryPending,
        ) + decisions::count_with(items, AiStatus::Unprocessed) == items.len(),
    decreases items.len(),
{
    if items.len() > 0 {
        states_add_up(items.drop_last());
    }
}

/// Whether each of some files has an item that waits for a decision.
pub open spec fn all_open(items: Seq<PlanItemView>, which: Seq<Seq<char>>) -> bool {
    forall|k: int|
        0 <= k < which.len() ==> decisions::status_of(items, #[trigger] which[k]) == Some(
            AiStatus::RetryPending,
        )
}

proof fn status_by_item(items: Seq<PlanItemView>, id: Seq<char>)
    ensures
        decisions::status_of(items, id) is Some ==> exists|i: int|
            0 <= i < items.len() && (#[trigger] items[i]).id == id && decisions::status_of(items, id)
                == Some(items[i].ai_status) && decisions::item_index(items, id) == Some(i),
{
    decisions::item_index_is_first(items, id);
}

proof fn batch_counts(
    style: Style,
    mode: Seq<char>,
    items: Seq<PlanItemView>,
    batch: Seq<ContextView>,
    answers: Seq<DecisionView>,
)
    requires
        distinct_items(items),
        distinct_files(batch),
        all_open(items, refinement::ids(batch)),
    ensures
        decisions::count_with(
            decisions::after_batch(style, mode, items, batch, answers),
            AiStatus::Processed,
        ) == decisions::count_with(items, AiStatus::Processed) + batch.len()
            - decisions::missing_ids(batch, answers).len(),
        decisions::count_with(
            decisions::after_batch(style, mode, items, batch, answers),
            AiStatus::Unprocessed,
        ) == decisions::count_with(items, AiStatus::Unprocessed),
    decreases batch.len(),
{
    if batch.len() > 0 {
        let front = batch.drop_last();
        let last = batch.last();
        let all = refinement::ids(batch);
        assert(distinct_files(front)) by {
            assert forall|i: int, j: int|
                #![trigger front[i], front[j]]
                0 <= i < j < front.len() implies front[i].id != front[j].id by {
                assert(front[i] == batch[i] && front[j] == batch[j]);
            }
        }
        assert forall|k: int| 0 <= k < front.len() implies decisions::status_of(
            items,
            #[trigger] refinement::ids(front)[k],
        ) == Some(AiStatus::RetryPending) by {
            assert(refinement::ids(front)[k] == all[k]);
        }
        batch_counts(style, mode, items, front, answers);
        batch_by_item(style, mode, items, front, answers);
        let before = decisions::after_batch(style, mode, items, front, answers);
        if decisions::settles(batch, answers, batch.len() - 1) {
            decision_is_for_its_id(answers, last.id);
            let decision = decisions::decision_for(answers, last.id)->0;
            assert(all[batch.len() - 1] == last.id);
            status_by_item(items, last.id);
            let i = choose|i: int|
                0 <= i < items.len() && (#[trigger] items[i]).id == last.id
                    && decisions::status_of(items, last.id) == Some(items[i].ai_status)
                    && decisions::item_index(items, last.id) == Some(i);
            assert(!is_among(front, last.id)) by {
                if is_among(front, last.id) {
                    let k = choose|k: int|
                        0 <= k < front.len() && (#[trigger] front[k]).id == last.id;
                    assert(batch[k].id == batch[batch.len() - 1].id);
                }
            }
            assert(before[i] == items[i]);
            assert(distinct_items(before)) by {
                assert forall|m: int, n: int|
                    #![trigger before[m], before[n]]
                    0 <= m < n < before.len() implies before[m].id != before[n].id by {
                    assert(items[m].id != items[n].id);
                }
            }
            index_of(before, i);
            let item = decisions::decided(style, mode, before[i], decision);
            count_after_update(before, i, item, AiStatus::Processed);
            count_after_update(before, i, item, AiStatus::Unprocessed);
        }
    }
}

proof fn giving_up_counts(
    style: Style,
    items: Seq<PlanItemView>,
    which: Seq<Seq<char>>,
    reasons: Map<Seq<char>, Seq<char>>,
    reason: Seq<char>,
)
    requires
        distinct_items(items),
        which.no_duplicates(),
        all_open(items, which),
    ensures
        decisions::count_with(
            refinement::after_giving_up_all(style, items, which, reasons, reason),
            AiStatus::Processed,
        ) == decisions::count_with(items, AiStatus::Processed),
        decisions::count_with(
            refinement::after_giving_up_all(style, items, which, reasons, reason),
            AiStatus::Unprocessed,
        ) == decisions::count_with(items, AiStatus::Unprocessed) + which.len(),
    decreases which.len(),
{
    if which.len() > 0 {
        let front = which.drop_last();
        let last = which.last();
        assert forall|k: int| 0 <= k < front.len() implies decisions::status_of(
            items,
            #[trigger] front[k],
        ) == Some(AiStatus::RetryPending) by {
            assert(front[k] == which[k]);
        }
        giving_up_counts(style, items, front, reasons, reason);
        giving_up_by_item(style, items, front, reasons, reason);
        let before = refinement::after_giving_up_all(style, items, front, reasons, reason);
        assert(which[which.len() - 1] == last);
        status_by_item(items, last);
        let i = choose|i: int|
            0 <= i < items.len() && (#[trigger] items[i]).id == last && decisions::status_of(
                items,
                last,
            ) == Some(items[i].ai_status) && decisions::item_index(items, last) == Some(i);
        assert(!front.contains(last)) by {
            if front.contains(last) {
                let k = choose|k: int| 0 <= k < front.len() && front[k] == last;
                assert(which[k] == which[which.len() - 1]);
            }
        }
        assert(before[i] == items[i]);
        assert(distinct_items(before)) by {
            assert forall|m: int, n: int|
                #![trigger before[m], before[n]]
                0 <= m < n < before.len() implies before[m].id != before[n].id by {
                assert(items[m].id != items[n].id);
            }
        }
        index_of(before, i);
        let item = decisions::given_up(
            style,
            before[i],
            decisions::given_up_detail(failures::reason_for(reasons, last), reason),
        );
        count_after_update(before, i, item, AiStatus::Processed);
        count_after_update(before, i, item, AiStatus::Unprocessed);
    }
}

// ---------------------------------------------------------------------------
// The state of a run
// ---------------------------------------------------------------------------

/// Whether every item waits for a decision, and the files are those of the items.
pub open spec fn is_paired(items: Seq<PlanItemView>, contexts: Seq<ContextView>) -> bool {
    &&& items.len() == contexts.len()
    &&& contexts.len() <= usize::MAX
    &&& distinct_items(items)
    &&& forall|i: int|
        #![trigger items[i]]
        #![trigger contexts[i]]
        0 <= i < items.len() ==> items[i].id == contexts[i].id && items[i].ai_status
            == AiStatus::RetryPending
}

/// Whether an item was given up after two attempts: it goes into the folder for such
/// files, and what is said of it tells why each attempt failed.
pub open spec fn is_given_up(
    style: Style,
    item: PlanItemView,
    reasons: Map<Seq<char>, Seq<char>>) -> bool {
    &&& item.category == categories::UNPROCESSED_CATEGORY@
    &&& item.target == names::target(style, categories::UNPROCESSED_CATEGORY@, item.relative_path)
    &&& item.included
    &&& item.confidence.bits == 0
    &&& reasons.dom().contains(item.id)
    &&& item.ai_error == Some(item.explanation)
    &&& exists|second: Seq<char>|
        item.explanation == #[trigger] decisions::given_up_detail(Some(reasons[item.id]), second)
}

/// Whether the first pass is in order: the files whose request was answered are decided
/// or have a reason why not, the others are as they were.
pub open spec fn first_pass_holds(
    start: Seq<PlanItemView>,
    contexts: Seq<ContextView>,
    s: RunView,
) -> bool {
    &&& s.queue == contexts
    &&& s.retry_succeeded == 0
    &&& forall|i: int|
        #![trigger s.items[i]]
        0 <= i < s.attempted() ==> {
            ||| s.items[i].ai_status == AiStatus::Processed && !s.failures.dom().contains(
                s.items[i].id,
            )
            ||| s.items[i].ai_status == AiStatus::RetryPending && s.failures.dom().contains(
                s.items[i].id,
            )
        }
    &&& forall|i: int|
        #![trigger s.items[i]]
        s.attempted() <= i < s.items.len() ==> s.items[i] == start[i]
            && !s.failures.dom().contains(s.items[i].id)
    &&& decisions::count_with(s.items, AiStatus::Processed) + s.failures.dom().len()
        == s.attempted()
    &&& decisions::count_with(s.items, AiStatus::Unprocessed) == 0
}

/// Whether the second pass is in order: its files had a failed attempt before, those
/// whose request was answered are decided or given up, the others are still open.
pub open spec fn second_pass_holds(s: RunView) -> bool {
    &&& distinct_files(s.queue)
    &&& s.queue.len() == s.failures.dom().len()
    &&& forall|j: int|
        0 <= j < s.queue.len() ==> s.failures.dom().contains((#[trigger] s.queue[j]).id)
    &&& forall|j: int|
        s.attempted() <= j < s.queue.len() ==> decisions::status_of(
            s.items,
            (#[trigger] s.queue[j]).id,
        ) == Some(AiStatus::RetryPending)
    &&& decisions::count_with(s.items, AiStatus::Processed) + s.queue.len() == s.items.len()
        + s.retry_succeeded
    &&& decisions::count_with(s.items, AiStatus::Unprocessed) + s.retry_succeeded == s.attempted()
    &&& forall|i: int|
        0 <= i < s.items.len() && (#[trigger] s.items[i]).ai_status == AiStatus::Unprocessed
            ==> is_given_up(s.style, s.items[i], s.failures)
}

/// Whether a run that started with the given items and files is in order.
pub open spec fn is_in_order(
    start: Seq<PlanItemView>,
    contexts: Seq<ContextView>,
    s: RunView,
) -> bool {
    &&& same_files(start, s.items)
    &&& s.queue.len() <= usize::MAX
    &&& batches::splits(s.queue, s.ranges)
    &&& s.index <= s.ranges.len()
    &&& s.failures.dom().finite()
    &&& if s.retry {
        second_pass_holds(s)
    } else {
        first_pass_holds(start, contexts, s)
    }
}

proof fn reasons_add_up(
    reasons: Map<Seq<char>, Seq<char>>,
    which: Seq<Seq<char>>,
    reason: Seq<char>,
)
    requires
        reasons.dom().finite(),
        which.no_duplicates(),
        forall|k: int| 0 <= k < which.len() ==> !reasons.dom().contains(#[trigger] which[k]),
    ensures
        failures::with_reason(reasons, which, reason).dom().len() == reasons.dom().len()
            + which.len(),
        failures::with_reason(reasons, which, reason).dom().finite(),
        forall|id: Seq<char>| #[trigger]
            failures::with_reason(reasons, which, reason).dom().contains(id)
                <==> reasons.dom().contains(id) || which.contains(id),
    decreases which.len(),
{
    if which.len() > 0 {
        let front = which.drop_last();
        let last = which.last();
        assert forall|k: int| 0 <= k < front.len() implies !reasons.dom().contains(
            #[trigger] front[k],
        ) by {
            assert(front[k] == which[k]);
        }
        reasons_add_up(reasons, front, reason);
        let before = failures::with_reason(reasons, front, reason);
        assert(which[which.len() - 1] == last);
        assert(!front.contains(last)) by {
            if front.contains(last) {
                let k = choose|k: int| 0 <= k < front.len() && front[k] == last;
                assert(which[k] == which[which.len() - 1]);
            }
        }
        assert(!before.dom().contains(last));
        assert forall|id: Seq<char>| #[trigger]
            failures::with_reason(reasons, which, reason).dom().contains(id)
                <==> reasons.dom().contains(id) || which.contains(id) by {
            if front.contains(id) {
                let k = choose|k: int| 0 <= k < front.len() && front[k] == id;
                assert(which[k] == id);
            }
            if which.contains(id) && id != last {
                let k = choose|k: int| 0 <= k < which.len() && which[k] == id;
                assert(front[k] == id);
            }
        }
    }
}

/// A run starts in order.
pub proof fn runs_start_in_order(
    style: Style,
    items: Seq<PlanItemView>,
    contexts: Seq<ContextView>,
)
    requires
        is_paired(items, contexts),
    ensures
        is_in_order(items, contexts, refinement::first_pass(style, items, contexts)),
{
    let s = refinement::first_pass(style, items, contexts);
    batches::a_split_exists(contexts);
    assert(s.attempted() == 0) by {
        if s.ranges.len() > 0 {
            assert(s.ranges[0].start == 0);
        }
    }
    all_wait(items);
}

proof fn all_wait(items: Seq<PlanItemView>)
    requires
        forall|i: int|
            0 <= i < items.len() ==> (#[trigger] items[i]).ai_status == AiStatus::RetryPending,
    ensures
        decisions::count_with(items, AiStatus::Processed) == 0,
        decisions::count_with(items, AiStatus::Unprocessed) == 0,
    decreases items.len(),
{
    if items.len() > 0 {
        assert(items[items.len() - 1].ai_status == AiStatus::RetryPending);
        assert forall|i: int| 0 <= i < items.drop_last().len() implies (
        #[trigger] items.drop_last()[i]).ai_status == AiStatus::RetryPending by {
            assert(items.drop_last()[i] == items[i]);
        }
        all_wait(items.drop_last());
    }
}

proof fn ids_stay_distinct(start: Seq<PlanItemView>, items: Seq<PlanItemView>)
    requires
        distinct_items(start),
        same_files(start, items),
    ensures
        distinct_items(items),
{
    assert forall|i: int, j: int|
        #![trigger items[i], items[j]]
        0 <= i < j < items.len() implies items[i].id != items[j].id by {
        assert(start[i].id != start[j].id);
    }
}

/// The files of a part of the queue.
proof fn part_of_queue(queue: Seq<ContextView>, from: int, to: int)
    requires
        distinct_files(queue),
        0 <= from <= to <= queue.len(),
    ensures
        distinct_files(queue.subrange(from, to)),
        refinement::ids(queue.subrange(from, to)).no_duplicates(),
        forall|j: int|
            0 <= j < queue.len() ==> (is_among(queue.subrange(from, to), (#[trigger] queue[j]).id)
                <==> from <= j < to),
        forall|id: Seq<char>| #[trigger]
            refinement::ids(queue.subrange(from, to)).contains(id) <==> is_among(
                queue.subrange(from, to),
                id,
            ),
{
    let part = queue.subrange(from, to);
    let all = refinement::ids(part);
    assert forall|i: int, j: int|
        #![trigger part[i], part[j]]
        0 <= i < j < part.len() implies part[i].id != part[j].id by {
        assert(part[i] == queue[from + i] && part[j] == queue[from + j]);
    }
    assert forall|i: int, j: int| 0 <= i < all.len() && 0 <= j < all.len() && i != j implies all[i]
        != all[j] by {
        assert(all[i] == part[i].id && all[j] == part[j].id);
    }
    assert forall|j: int| 0 <= j < queue.len() implies (is_among(part, (#[trigger] queue[j]).id)
        <==> from <= j < to) by {
        if is_among(part, queue[j].id) {
            let k = choose|k: int| 0 <= k < part.len() && (#[trigger] part[k]).id == queue[j].id;
            assert(part[k] == queue[from + k]);
        }
        if from <= j < to {
            assert(part[j - from] == queue[j]);
        }
    }
    assert forall|id: Seq<char>| #[trigger] all.contains(id) <==> is_among(part, id) by {
        if all.contains(id) {
            let k = choose|k: int| 0 <= k < all.len() && all[k] == id;
            assert(part[k].id == id);
        }
        if is_among(part, id) {
            let k = choose|k: int| 0 <= k < part.len() && (#[trigger] part[k]).id == id;
            assert(all[k] == id);
        }
    }
}

proof fn first_pass_settles(
    start: Seq<PlanItemView>,
    contexts: Seq<ContextView>,
    s: RunView,
    t: RunView,
    which: Seq<Seq<char>>,
    reason: Seq<char>,
)
    requires
        is_paired(start, contexts),
        distinct_files(contexts),
        is_in_order(start, contexts, s),
        !s.retry,
        s.is_waiting(),
        which.no_duplicates(),
        forall|k: int| 0 <= k < which.len() ==> is_among(s.batch(), #[trigger] which[k]),
        same_files(start, t.items),
        forall|i: int|
            0 <= i < t.items.len() ==> {
                let open = is_among(s.batch(), (#[trigger] t.items[i]).id);
                ||| t.items[i] == s.items[i] && (open ==> which.contains(t.items[i].id))
                ||| open && t.items[i].ai_status == AiStatus::Processed && !which.contains(
                    t.items[i].id,
                )
            },
        decisions::count_with(t.items, AiStatus::Processed) == decisions::count_with(
            s.items,
            AiStatus::Processed,
        ) + s.batch().len() - which.len(),
        decisions::count_with(t.items, AiStatus::Unprocessed) == 0,
        t == (RunView {
            items: t.items,
            index: s.index + 1,
            failures: failures::with_reason(s.failures, which, reason),
            warnings: t.warnings,
            ..s
        }),
    ensures
        is_in_order(start, contexts, t),
{
    refinement::answered_files(s);
    let from = s.attempted() as int;
    let batch = s.batch();
    let to = from + batch.len();
    assert(t.attempted() == to);
    part_of_queue(contexts, from, to);
    assert forall|k: int| 0 <= k < which.len() implies !s.failures.dom().contains(
        #[trigger] which[k],
    ) by {
        let n = choose|n: int| 0 <= n < batch.len() && (#[trigger] batch[n]).id == which[k];
        assert(batch[n] == contexts[from + n]);
        assert(s.items[from + n].id == start[from + n].id);
    }
    reasons_add_up(s.failures, which, reason);
    assert forall|i: int| 0 <= i < t.items.len() implies (#[trigger] t.items[i]).id
        == s.items[i].id && (is_among(batch, t.items[i].id) <==> from <= i < to) && (
    t.failures.dom().contains(t.items[i].id) <==> s.failures.dom().contains(t.items[i].id)
        || which.contains(t.items[i].id)) by {
        assert(t.items[i].id == start[i].id);
        assert(s.items[i].id == start[i].id);
        assert(contexts[i].id == start[i].id);
    }
    assert forall|i: int|
        0 <= i < t.items.len() && !is_among(batch, (#[trigger] t.items[i]).id) implies !(
    which.contains(t.items[i].id)) by {
        if which.contains(t.items[i].id) {
            let k = choose|k: int| 0 <= k < which.len() && which[k] == t.items[i].id;
            assert(is_among(batch, which[k]));
        }
    }
}

proof fn first_pass_goes_on(
    start: Seq<PlanItemView>,
    contexts: Seq<ContextView>,
    mode: Seq<char>,
    s: RunView,
    reply: ReplyView,
)
    requires
        is_paired(start, contexts),
        is_in_order(start, contexts, s),
        !s.retry,
        s.is_waiting(),
        !(reply is Cancelled),
    ensures
        is_in_order(start, contexts, refinement::answered(mode, s, reply)),
{
    let t = refinement::answered(mode, s, reply);
    refinement::answered_files(s);
    let from = s.attempted() as int;
    let batch = s.batch();
    assert(distinct_files(contexts)) by {
        assert forall|i: int, j: int|
            #![trigger contexts[i], contexts[j]]
            0 <= i < j < contexts.len() implies contexts[i].id != contexts[j].id by {
            assert(start[i].id != start[j].id);
        }
    }
    ids_stay_distinct(start, s.items);
    part_of_queue(contexts, from, from + batch.len());
    let all = refinement::ids(batch);
    assert forall|k: int| 0 <= k < all.len() implies decisions::status_of(
        s.items,
        #[trigger] all[k],
    ) == Some(AiStatus::RetryPending) && is_among(batch, all[k]) by {
        assert(batch[k] == contexts[from + k]);
        assert(s.items[from + k].id == start[from + k].id);
        index_of(s.items, from + k);
    }
    match reply {
        ReplyView::Decisions(answers) => {
            let missing = decisions::missing_ids(batch, answers);
            missing_by_id(batch, answers);
            batch_by_item(s.style, mode, s.items, batch, answers);
            batch_counts(s.style, mode, s.items, batch, answers);
            assert forall|k: int| 0 <= k < missing.len() implies is_among(
                batch,
                #[trigger] missing[k],
            ) by {
                assert(missing.contains(missing[k]));
            }
            assert forall|i: int| 0 <= i < t.items.len() implies #[trigger] t.items[i]
                == item_after_batch(s.style, mode, s.items[i], batch, answers) by {}
            first_pass_settles(start, contexts, s, t, missing, refinement::PARTIAL_REASON@);
        },
        ReplyView::Failure(error) => {
            assert forall|i: int| 0 <= i < t.items.len() && is_among(
                batch,
                (#[trigger] t.items[i]).id,
            ) implies all.contains(t.items[i].id) by {}
            first_pass_settles(start, contexts, s, t, all, diagnostics::error_detail(error));
        },
        ReplyView::Cancelled => {},
    }
}

/// Whether a file of the queue is that of an open item before position `n`.
spec fn is_open_before(
    items: Seq<PlanItemView>,
    contexts: Seq<ContextView>,
    context: ContextView,
    n: int,
) -> bool {
    exists|i: int|
        0 <= i < n && #[trigger] contexts[i] == context && items[i].ai_status
            == AiStatus::RetryPending
}

proof fn open_files(items: Seq<PlanItemView>, contexts: Seq<ContextView>, n: int)
    requires
        items.len() == contexts.len(),
        distinct_items(items),
        forall|i: int|
            #![trigger items[i]]
            #![trigger contexts[i]]
            0 <= i < items.len() ==> items[i].id == contexts[i].id,
        0 <= n <= contexts.len(),
    ensures
        distinct_files(refinement::still_open(items, contexts.take(n))),
        forall|j: int|
            0 <= j < refinement::still_open(items, contexts.take(n)).len() ==> is_open_before(
                items,
                contexts,
                #[trigger] refinement::still_open(items, contexts.take(n))[j],
                n,
            ),
        refinement::still_open(items, contexts.take(n)).len() == decisions::count_with(
            items.take(n),
            AiStatus::RetryPending,
        ),
        refinement::still_open(items, contexts.take(n)).len() <= n,
    decreases n,
{
    let queue = refinement::still_open(items, contexts.take(n));
    if n > 0 {
        open_files(items, contexts, n - 1);
        let before = refinement::still_open(items, contexts.take(n - 1));
        assert(contexts.take(n).drop_last() =~= contexts.take(n - 1));
        assert(items.take(n).drop_last() =~= items.take(n - 1));
        index_of(items, n - 1);
        assert(contexts[n - 1].id == items[n - 1].id);
        assert forall|j: int| 0 <= j < queue.len() implies is_open_before(
            items,
            contexts,
            #[trigger] queue[j],
            n,
        ) by {
            if j < before.len() {
                assert(queue[j] == before[j]);
                let i = choose|i: int|
                    0 <= i < n - 1 && #[trigger] contexts[i] == before[j] && items[i].ai_status
                        == AiStatus::RetryPending;
                assert(contexts[i] == queue[j]);
            } else {
                assert(contexts[n - 1] == queue[j]);
            }
        }
        assert forall|i: int, j: int|
            #![trigger queue[i], queue[j]]
            0 <= i < j < queue.len() implies queue[i].id != queue[j].id by {
            assert(queue[i] == before[i]);
            if j < before.len() {
                assert(queue[j] == before[j]);
            } else {
                let k = choose|k: int|
                    0 <= k < n - 1 && #[trigger] contexts[k] == before[i] && items[k].ai_status
                        == AiStatus::RetryPending;
                assert(items[k].id != items[n - 1].id);
            }
        }
    }
}

proof fn second_pass_starts_in_order(
    start: Seq<PlanItemView>,
    contexts: Seq<ContextView>,
    s: RunView,
)
    requires
        is_paired(start, contexts),
        is_in_order(start, contexts, s),
        !s.retry,
        !s.is_waiting(),
    ensures
        is_in_order(start, contexts, refinement::second_pass(s)),
        refinement::second_pass(s).queue.len() == s.failures.dom().len(),
{
    let t = refinement::second_pass(s);
    ids_stay_distinct(start, s.items);
    assert forall|i: int|
        #![trigger s.items[i]]
        #![trigger contexts[i]]
        0 <= i < s.items.len() implies s.items[i].id == contexts[i].id by {
        assert(start[i].id == s.items[i].id);
    }
    open_files(s.items, contexts, contexts.len() as int);
    assert(contexts.take(contexts.len() as int) =~= contexts);
    assert(s.items.take(contexts.len() as int) =~= s.items);
    batches::a_split_exists(t.queue);
    assert(t.attempted() == 0) by {
        if t.ranges.len() > 0 {
            assert(t.ranges[0].start == 0);
        }
    }
    states_add_up(s.items);
    assert forall|j: int| 0 <= j < t.queue.len() implies t.failures.dom().contains(
        (#[trigger] t.queue[j]).id,
    ) && decisions::status_of(t.items, t.queue[j].id) == Some(AiStatus::RetryPending) by {
        assert(is_open_before(s.items, contexts, t.queue[j], contexts.len() as int));
        let i = choose|i: int|
            0 <= i < contexts.len() && #[trigger] contexts[i] == t.queue[j] && s.items[i].ai_status
                == AiStatus::RetryPending;
        index_of(s.items, i);
        assert(s.items[i].id == contexts[i].id);
    }
    no_item_is(s.items, AiStatus::Unprocessed);
}

proof fn no_item_is(items: Seq<PlanItemView>, status: AiStatus)
    requires
        decisions::count_with(items, status) == 0,
    ensures
        forall|i: int| 0 <= i < items.len() ==> (#[trigger] items[i]).ai_status != status,
    decreases items.len(),
{
    if items.len() > 0 {
        no_item_is(items.drop_last(), status);
        assert forall|i: int| 0 <= i < items.len() implies (#[trigger] items[i]).ai_status
            != status by {
            if i < items.len() - 1 {
                assert(items.drop_last()[i] == items[i]);
            }
        }
    }
}

proof fn second_pass_settles(
    start: Seq<PlanItemView>,
    contexts: Seq<ContextView>,
    s: RunView,
    t: RunView,
    middle: Seq<PlanItemView>,
    which: Seq<Seq<char>>,
    reason: Seq<char>,
)
    requires
        distinct_items(start),
        is_in_order(start, contexts, s),
        s.retry,
        s.is_waiting(),
        same_files(start, middle),
        which.no_duplicates(),
        which.len() <= s.batch().len(),
        forall|k: int| 0 <= k < which.len() ==> is_among(s.batch(), #[trigger] which[k]),
        forall|i: int|
            0 <= i < middle.len() ==> {
                ||| (#[trigger] middle[i]) == s.items[i]
                ||| middle[i].ai_status == AiStatus::Processed && is_among(
                    s.batch(),
                    s.items[i].id,
                ) && !which.contains(s.items[i].id)
            },
        decisions::count_with(middle, AiStatus::Processed) == decisions::count_with(
            s.items,
            AiStatus::Processed,
        ) + s.batch().len() - which.len(),
        decisions::count_with(middle, AiStatus::Unprocessed) == decisions::count_with(
            s.items,
            AiStatus::Unprocessed,
        ),
        t == (RunView {
            items: refinement::after_giving_up_all(s.style, middle, which, s.failures, reason),
            index: s.index + 1,
            warnings: t.warnings,
            retry_succeeded: (s.retry_succeeded + s.batch().len() - which.len()) as nat,
            ..s
        }),
    ensures
        is_in_order(start, contexts, t),
{
    refinement::answered_files(s);
    let from = s.attempted() as int;
    let batch = s.batch();
    let to = from + batch.len();
    assert(t.attempted() == to);
    ids_stay_distinct(start, middle);
    part_of_queue(s.queue, from, to);
    assert forall|k: int| 0 <= k < which.len() implies decisions::status_of(
        middle,
        #[trigger] which[k],
    ) == Some(AiStatus::RetryPending) by {
        assert(is_among(batch, which[k]));
        let n = choose|n: int| 0 <= n < batch.len() && (#[trigger] batch[n]).id == which[k];
        assert(batch[n] == s.queue[from + n]);
        status_by_item(s.items, which[k]);
        let i = choose|i: int|
            0 <= i < s.items.len() && (#[trigger] s.items[i]).id == which[k]
                && decisions::status_of(s.items, which[k]) == Some(s.items[i].ai_status)
                && decisions::item_index(s.items, which[k]) == Some(i);
        assert(which.contains(which[k]));
        assert(middle[i] == s.items[i]);
        index_of(middle, i);
    }
    giving_up_by_item(s.style, middle, which, s.failures, reason);
    giving_up_counts(s.style, middle, which, s.failures, reason);
    assert forall|i: int|
        #![trigger start[i]]
        #![trigger t.items[i]]
        0 <= i < start.len() implies {
        &&& start[i].id == t.items[i].id
        &&& start[i].source == t.items[i].source
        &&& start[i].relative_path == t.items[i].relative_path
        &&& start[i].warning == t.items[i].warning
    } by {
        assert(start[i].id == middle[i].id);
        assert(t.items[i] == item_after_giving_up(s.style, middle[i], which, s.failures, reason));
    }
    ids_stay_distinct(start, t.items);
    assert forall|j: int| t.attempted() <= j < t.queue.len() implies decisions::status_of(
        t.items,
        (#[trigger] t.queue[j]).id,
    ) == Some(AiStatus::RetryPending) by {
        let id = s.queue[j].id;
        assert(!is_among(batch, id));
        status_by_item(s.items, id);
        let i = choose|i: int|
            0 <= i < s.items.len() && (#[trigger] s.items[i]).id == id && decisions::status_of(
                s.items,
                id,
            ) == Some(s.items[i].ai_status) && decisions::item_index(s.items, id) == Some(i);
        assert(middle[i] == s.items[i]);
        assert(!which.contains(id)) by {
            if which.contains(id) {
                let k = choose|k: int| 0 <= k < which.len() && which[k] == id;
                assert(is_among(batch, which[k]));
            }
        }
        assert(t.items[i] == s.items[i]);
        index_of(t.items, i);
    }
    assert forall|i: int|
        0 <= i < t.items.len() && (#[trigger] t.items[i]).ai_status
            == AiStatus::Unprocessed implies is_given_up(t.style, t.items[i], t.failures) by {
        assert(middle[i].id == start[i].id);
        if which.contains(middle[i].id) {
            let k = choose|k: int| 0 <= k < which.len() && which[k] == middle[i].id;
            assert(is_among(batch, which[k]));
            let n = choose|n: int| 0 <= n < batch.len() && (#[trigger] batch[n]).id == which[k];
            assert(batch[n] == s.queue[from + n]);
            assert(t.items[i].explanation == decisions::given_up_detail(
                Some(t.failures[t.items[i].id]),
                reason,
            ));
        } else {
            assert(t.items[i] == middle[i]);
            assert(middle[i] == s.items[i]);
        }
    }
}

proof fn second_pass_goes_on(
    start: Seq<PlanItemView>,
    contexts: Seq<ContextView>,
    mode: Seq<char>,
    s: RunView,
    reply: ReplyView,
)
    requires
        is_paired(start, contexts),
        is_in_order(start, contexts, s),
        s.retry,
        s.is_waiting(),
        !(reply is Cancelled),
    ensures
        is_in_order(start, contexts, refinement::answered(mode, s, reply)),
{
    let t = refinement::answered(mode, s, reply);
    refinement::answered_files(s);
    let from = s.attempted() as int;
    let batch = s.batch();
    ids_stay_distinct(start, s.items);
    part_of_queue(s.queue, from, from + batch.len());
    let all = refinement::ids(batch);
    assert forall|k: int| 0 <= k < all.len() implies decisions::status_of(
        s.items,
        #[trigger] all[k],
    ) == Some(AiStatus::RetryPending) && is_among(batch, all[k]) by {
        assert(batch[k] == s.queue[from + k]);
    }
    match reply {
        ReplyView::Decisions(answers) => {
            let middle = decisions::after_batch(s.style, mode, s.items, batch, answers);
            let which = decisions::missing_ids(batch, answers);
            missing_by_id(batch, answers);
            batch_by_item(s.style, mode, s.items, batch, answers);
            batch_counts(s.style, mode, s.items, batch, answers);
            assert(same_files(start, middle));
            assert forall|k: int| 0 <= k < which.len() implies is_among(
                batch,
                #[trigger] which[k],
            ) by {
                assert(which.contains(which[k]));
            }
            second_pass_settles(
                start,
                contexts,
                s,
                t,
                middle,
                which,
                refinement::PARTIAL_AGAIN_REASON@,
            );
        },
        ReplyView::Failure(error) => {
            second_pass_settles(
                start,
                contexts,
                s,
                t,
                s.items,
                all,
                diagnostics::error_detail(error),
            );
        },
        ReplyView::Cancelled => {},
    }
}

// ---------------------------------------------------------------------------
// Courses
// ---------------------------------------------------------------------------

/// Where a run has come to after some replies, each with the duration of its request.
pub open spec fn course(
    style: Style,
    mode: Seq<char>,
    items: Seq<PlanItemView>,
    contexts: Seq<ContextView>,
    replies: Seq<(ReplyView, u64)>,
) -> TurnView
    decreases replies.len(),
{
    if replies.len() == 0 {
        refinement::beginning(style, items, contexts)
    } else {
        refinement::continuing(
            mode,
            course(style, mode, items, contexts, replies.drop_last()).state,
            replies.last().0,
            replies.last().1,
        )
    }
}

/// Whether each of the replies answers a request.
pub open spec fn is_course(
    style: Style,
    mode: Seq<char>,
    items: Seq<PlanItemView>,
    contexts: Seq<ContextView>,
    replies: Seq<(ReplyView, u64)>,
) -> bool
    decreases replies.len(),
{
    replies.len() > 0 ==> {
        &&& is_course(style, mode, items, contexts, replies.drop_last())
        &&& course(style, mode, items, contexts, replies.drop_last()).step is Request
    }
}

proof fn proceeding_keeps_order(start: Seq<PlanItemView>, contexts: Seq<ContextView>, s: RunView)
    requires
        is_paired(start, contexts),
        is_in_order(start, contexts, s),
    ensures
        is_in_order(start, contexts, refinement::proceeding(s).state),
        refinement::proceeding(s).step is Request <==> refinement::proceeding(s).state.is_waiting(),
        refinement::proceeding(s).step is Finished ==> refinement::proceeding(s).state.retry,
{
    if !s.is_waiting() && !s.retry {
        second_pass_starts_in_order(start, contexts, s);
    }
}

/// A run is in order wherever it has come to.
pub proof fn runs_stay_in_order(
    style: Style,
    mode: Seq<char>,
    items: Seq<PlanItemView>,
    contexts: Seq<ContextView>,
    replies: Seq<(ReplyView, u64)>,
)
    requires
        is_paired(items, contexts),
        is_course(style, mode, items, contexts, replies),
    ensures
        is_in_order(items, contexts, course(style, mode, items, contexts, replies).state),
        course(style, mode, items, contexts, replies).state.style == style,
        course(style, mode, items, contexts, replies).step is Request ==> course(
            style,
            mode,
            items,
            contexts,
            replies,
        ).state.is_waiting(),
        course(style, mode, items, contexts, replies).step is Finished && items.len() > 0 ==> {
            &&& course(style, mode, items, contexts, replies).state.retry
            &&& !course(style, mode, items, contexts, replies).state.is_waiting()
        },
    decreases replies.len(),
{
    runs_start_in_order(style, items, contexts);
    if replies.len() == 0 {
        if items.len() == 0 {
            assert(contexts =~= Seq::<ContextView>::empty());
        } else {
            proceeding_keeps_order(items, contexts, refinement::first_pass(style, items, contexts));
        }
    } else {
        let before = replies.drop_last();
        let reply = replies.last().0;
        runs_stay_in_order(style, mode, items, contexts, before);
        let s = course(style, mode, items, contexts, before).state;
        if !(reply is Cancelled) {
            if s.retry {
                second_pass_goes_on(items, contexts, mode, s, reply);
            } else {
                first_pass_goes_on(items, contexts, mode, s, reply);
            }
            proceeding_keeps_order(items, contexts, refinement::answered(mode, s, reply));
        }
    }
}

/// When a run has finished, no file is left open: each is decided, or it was given up
/// after two attempts. The counts that are told are those of the plan, and all files
/// that the second pass was about are decided or given up.
pub proof fn every_file_is_settled(
    style: Style,
    mode: Seq<char>,
    items: Seq<PlanItemView>,
    contexts: Seq<ContextView>,
    replies: Seq<(ReplyView, u64)>,
)
    requires
        is_paired(items, contexts),
        is_course(style, mode, items, contexts, replies),
        course(style, mode, items, contexts, replies).step is Finished,
    ensures
        ({
            let end = course(style, mode, items, contexts, replies);
            &&& end.step->processed + end.step->unprocessed == items.len()
            &&& end.step->processed == decisions::count_with(end.state.items, AiStatus::Processed)
            &&& end.step->retry_succeeded + end.step->unprocessed == end.state.failures.dom().len()
            &&& same_files(items, end.state.items)
            &&& forall|i: int|
                0 <= i < items.len() ==> {
                    ||| (#[trigger] end.state.items[i]).ai_status == AiStatus::Processed
                    ||| end.state.items[i].ai_status == AiStatus::Unprocessed && is_given_up(
                        style,
                        end.state.items[i],
                        end.state.failures,
                    )
                }
        }),
{
    let end = course(style, mode, items, contexts, replies);
    runs_stay_in_order(style, mode, items, contexts, replies);
    if items.len() == 0 {
        no_course_without_files(style, mode, items, contexts, replies);
        assert(end.state.failures =~= Map::<Seq<char>, Seq<char>>::empty());
    } else {
        states_add_up(end.state.items);
        no_item_is(end.state.items, AiStatus::RetryPending);
    }
}

proof fn no_course_without_files(
    style: Style,
    mode: Seq<char>,
    items: Seq<PlanItemView>,
    contexts: Seq<ContextView>,
    replies: Seq<(ReplyView, u64)>,
)
    requires
        items.len() == 0,
        is_course(style, mode, items, contexts, replies),
    ensures
        replies.len() == 0,
    decreases replies.len(),
{
    if replies.len() > 0 {
        no_course_without_files(style, mode, items, contexts, replies.drop_last());
    }
}

/// Only a cancellation stops a run before its end: a request that failed, or that was
/// answered in part, does not keep the following ones from being made. A cancellation
/// leaves the plan as it is.
pub proof fn only_a_cancellation_stops_a_run(
    mode: Seq<char>,
    s: RunView,
    reply: ReplyView,
    duration_ms: u64,
)
    ensures
        refinement::continuing(mode, s, reply, duration_ms).step is Cancelled <==> reply
            is Cancelled,
        reply is Cancelled ==> refinement::continuing(mode, s, reply, duration_ms).state == s,
        !(reply is Cancelled) && s.index + 1 < s.ranges.len() ==> refinement::continuing(
            mode,
            s,
            reply,
            duration_ms,
        ).step is Request,
{
}

/// A request is never about more files than a request may hold, nor about more bytes,
/// unless it is about one file only.
pub proof fn requests_are_bounded(
    style: Style,
    mode: Seq<char>,
    items: Seq<PlanItemView>,
    contexts: Seq<ContextView>,
    replies: Seq<(ReplyView, u64)>,
)
    requires
        is_paired(items, contexts),
        is_course(style, mode, items, contexts, replies),
        course(style, mode, items, contexts, replies).step is Request,
    ensures
        ({
            let batch = course(style, mode, items, contexts, replies).step->Request_0;
            &&& 1 <= batch.len() <= batches::AI_BATCH_SIZE
            &&& batch.len() == 1 || batches::bytes_between(batch, 0, batch.len() as int)
                <= batches::MAX_BATCH_CONTEXT_BYTES
        }),
{
    let turn = course(style, mode, items, contexts, replies);
    runs_stay_in_order(style, mode, items, contexts, replies);
    request_is_due(style, mode, items, contexts, replies);
    let s = turn.state;
    refinement::answered_files(s);
    let range = s.ranges[s.index as int];
    assert(batches::is_batch(s.queue, range.start as int, range.end as int));
    bytes_of_part(s.queue, range.start as int, range.end as int, range.end as int);
}

proof fn request_is_due(
    style: Style,
    mode: Seq<char>,
    items: Seq<PlanItemView>,
    contexts: Seq<ContextView>,
    replies: Seq<(ReplyView, u64)>,
)
    requires
        course(style, mode, items, contexts, replies).step is Request,
    ensures
        course(style, mode, items, contexts, replies).step->Request_0 == course(
            style,
            mode,
            items,
            contexts,
            replies,
        ).state.batch(),
{
}

proof fn bytes_of_part(contexts: Seq<ContextView>, from: int, to: int, n: int)
    requires
        0 <= from <= n <= to <= contexts.len(),
    ensures
        batches::bytes_between(contexts.subrange(from, to), 0, n - from) == batches::bytes_between(
            contexts,
            from,
            n,
        ),
    decreases n - from,
{
    if from < n {
        bytes_of_part(contexts, from, to, n - 1);
        assert(contexts.subrange(from, to)[n - from - 1] == contexts[n - 1]);
    }
}

/// The files that are said to be pending are those that wait for a decision. In the
/// first pass every file is either pending or processed.
pub proof fn pending_files_are_open(
    start: Seq<PlanItemView>,
    contexts: Seq<ContextView>,
    s: RunView,
    message: Seq<char>,
)
    requires
        is_paired(start, contexts),
        is_in_order(start, contexts, s),
    ensures
        refinement::progress(s, message).pending_files == decisions::count_with(
            s.items,
            AiStatus::RetryPending,
        ),
        refinement::progress(s, message).processed_files + refinement::progress(
            s,
            message,
        ).pending_files <= start.len(),
        !s.retry ==> refinement::progress(s, message).processed_files + refinement::progress(
            s,
            message,
        ).pending_files == start.len(),
{
    states_add_up(s.items);
    if s.is_waiting() {
        refinement::answered_files(s);
    }
}

proof fn few_requests(s: RunView, i: int)
    requires
        batches::splits(s.queue, s.ranges),
        0 <= i < s.ranges.len(),
    ensures
        i < s.ranges[i].end <= s.queue.len(),
    decreases i,
{
    assert(batches::is_batch(s.queue, s.ranges[i].start as int, s.ranges[i].end as int));
    if i > 0 {
        few_requests(s, i - 1);
        assert(s.ranges[i - 1].end == s.ranges[i].start);
    }
}

/// A run comes to an end: it makes at most two requests for each file.
pub proof fn runs_come_to_an_end(
    style: Style,
    mode: Seq<char>,
    items: Seq<PlanItemView>,
    contexts: Seq<ContextView>,
    replies: Seq<(ReplyView, u64)>,
)
    requires
        is_paired(items, contexts),
        is_course(style, mode, items, contexts, replies),
    ensures
        replies.len() <= 2 * contexts.len(),
        course(style, mode, items, contexts, replies).step is Request ==> replies.len() < 2
            * contexts.len(),
    decreases replies.len(),
{
    let turn = course(style, mode, items, contexts, replies);
    replies_are_counted(style, mode, items, contexts, replies);
    runs_stay_in_order(style, mode, items, contexts, replies);
    if turn.step is Request {
        few_requests(turn.state, turn.state.ranges.len() - 1);
    } else if replies.len() > 0 {
        runs_come_to_an_end(style, mode, items, contexts, replies.drop_last());
    }
}

proof fn proceeding_counts(s: RunView)
    ensures
        ({
            let next = refinement::proceeding(s);
            &&& next.state.main_batches == s.main_batches
            &&& next.state.queue.len() <= s.queue.len()
            &&& s.is_waiting() ==> next.state == s
            &&& !s.is_waiting() && next.step is Request ==> {
                &&& !s.retry
                &&& next.state.retry
                &&& next.state.index == 0
            }
            &&& s.retry ==> next.state == s
        }),
{
    open_is_shorter(s.items, s.queue);
}

/// Whether the replies so far are as many as the requests that were answered.
spec fn is_counted(contexts: Seq<ContextView>, turn: TurnView, replies: nat) -> bool {
    let s = turn.state;
    &&& s.main_batches <= contexts.len()
    &&& s.queue.len() <= contexts.len()
    &&& turn.step is Request ==> {
        &&& !s.retry ==> s.main_batches == s.ranges.len()
        &&& replies == s.index + if s.retry {
            s.main_batches
        } else {
            0
        }
    }
}

proof fn replies_are_counted(
    style: Style,
    mode: Seq<char>,
    items: Seq<PlanItemView>,
    contexts: Seq<ContextView>,
    replies: Seq<(ReplyView, u64)>,
)
    requires
        is_paired(items, contexts),
        is_course(style, mode, items, contexts, replies),
    ensures
        is_counted(contexts, course(style, mode, items, contexts, replies), replies.len()),
    decreases replies.len(),
{
    let turn = course(style, mode, items, contexts, replies);
    if replies.len() == 0 {
        let first = refinement::first_pass(style, items, contexts);
        runs_start_in_order(style, items, contexts);
        if first.ranges.len() > 0 {
            few_requests(first, first.ranges.len() - 1);
        }
        if items.len() > 0 {
            proceeding_counts(first);
            if !first.is_waiting() {
                assert(first.queue.len() == 0) by {
                    assert(first.ranges.len() == 0);
                }
                assert(refinement::second_pass(first).queue.len() == 0);
                runs_stay_in_order(style, mode, items, contexts, replies);
                if turn.state.is_waiting() {
                    refinement::answered_files(turn.state);
                }
            }
        } else {
            assert(contexts =~= Seq::<ContextView>::empty());
        }
    } else {
        let before = replies.drop_last();
        let reply = replies.last().0;
        replies_are_counted(style, mode, items, contexts, before);
        let s = course(style, mode, items, contexts, before).state;
        if !(reply is Cancelled) {
            proceeding_counts(refinement::answered(mode, s, reply));
        }
    }
}

proof fn open_is_shorter(items: Seq<PlanItemView>, queue: Seq<ContextView>)
    ensures
        refinement::still_open(items, queue).len() <= queue.len(),
    decreases queue.len(),
{
    if queue.len() > 0 {
        open_is_shorter(items, queue.drop_last());
    }
}

// ---------------------------------------------------------------------------
// Folders
// ---------------------------------------------------------------------------

/// Whether an item goes into a folder that it may go into: that of its category, which
/// is a standard one, or that of the files that were given up.
pub open spec fn is_filed(style: Style, item: PlanItemView) -> bool {
    &&& text::one_of(item.category, categories::standard_categories()) || item.category
        == categories::UNPROCESSED_CATEGORY@
    &&& item.target == names::target(style, item.category, item.relative_path)
}

/// Whether all items go into folders that they may go into.
pub open spec fn all_filed(style: Style, items: Seq<PlanItemView>) -> bool {
    forall|i: int| 0 <= i < items.len() ==> is_filed(style, #[trigger] items[i])
}

proof fn decisions_keep_filed(
    style: Style,
    mode: Seq<char>,
    items: Seq<PlanItemView>,
    batch: Seq<ContextView>,
    answers: Seq<DecisionView>,
)
    requires
        all_filed(style, items),
    ensures
        all_filed(style, decisions::after_batch(style, mode, items, batch, answers)),
    decreases batch.len(),
{
    if batch.len() > 0 {
        decisions_keep_filed(style, mode, items, batch.drop_last(), answers);
        let before = decisions::after_batch(style, mode, items, batch.drop_last(), answers);
        if decisions::settles(batch, answers, batch.len() - 1) {
            let decision = decisions::decision_for(answers, batch.last().id)->0;
            decisions::item_index_is_first(before, decision.id);
            if let Some(i) = decisions::item_index(before, decision.id) {
                assert(is_filed(style, before[i]));
                categories::choices_are_standard(
                    outside::lowercase(text::trim(decision.category)),
                    before[i].category,
                );
                assert(is_filed(style, decisions::decided(style, mode, before[i], decision)));
            }
        }
    }
}

proof fn giving_up_keeps_filed(
    style: Style,
    items: Seq<PlanItemView>,
    which: Seq<Seq<char>>,
    reasons: Map<Seq<char>, Seq<char>>,
    reason: Seq<char>,
)
    requires
        all_filed(style, items),
    ensures
        all_filed(style, refinement::after_giving_up_all(style, items, which, reasons, reason)),
    decreases which.len(),
{
    if which.len() > 0 {
        giving_up_keeps_filed(style, items, which.drop_last(), reasons, reason);
        let before = refinement::after_giving_up_all(style, items, which.drop_last(), reasons, reason);
        decisions::item_index_is_first(before, which.last());
    }
}

/// Whatever the model replies, no file goes into a folder of the model's making: the
/// target of a file is that of its category, which is a standard one or that of the
/// files that were given up.
pub proof fn replies_make_no_new_folders(mode: Seq<char>, s: RunView, reply: ReplyView, duration_ms: u64)
    requires
        all_filed(s.style, s.items),
    ensures
        all_filed(s.style, refinement::continuing(mode, s, reply, duration_ms).state.items),
{
    let batch = s.batch();
    match reply {
        ReplyView::Decisions(answers) => {
            decisions_keep_filed(s.style, mode, s.items, batch, answers);
            giving_up_keeps_filed(
                s.style,
                decisions::after_batch(s.style, mode, s.items, batch, answers),
                decisions::missing_ids(batch, answers),
                s.failures,
                refinement::PARTIAL_AGAIN_REASON@,
            );
        },
        ReplyView::Failure(error) => {
            giving_up_keeps_filed(
                s.style,
                s.items,
                refinement::ids(batch),
                s.failures,
                diagnostics::error_detail(error),
            );
        },
        ReplyView::Cancelled => {},
    }
}

} // verus!
