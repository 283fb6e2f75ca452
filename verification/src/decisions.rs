//! What an answer of the model, or its absence, does to the plan.

use crate::categories;
use crate::names;
use crate::paths::Style;
use crate::records::{
    AiDecision, AiFileContext, AiStatus, Confidence, ContextView, DecisionView, PlanItem,
    PlanItemView, SortSettings,
};
use crate::records;
use crate::text;
use vstd::prelude::*;

verus! {

/// What is said of a category that the model gave no reason for.
pub const ASSIGNED_BY_AI: &'static str = "Категория назначена ИИ.";

/// What is said of a first attempt that left no reason.
pub const NO_FIRST_REASON: &'static str = "модель не вернула решение";

/// The mode in which installers stay where they are.
pub const STANDARD_MODE: &'static str = "standard";

/// The bits of 1.0.
pub const ONE: u32 = 0x3f80_0000;

/// The bits of infinity.
pub const INFINITY: u32 = 0x7f80_0000;

/// The bits of -0.0.
pub const MINUS_ZERO: u32 = 0x8000_0000;

// ---------------------------------------------------------------------------
// Confidence
// ---------------------------------------------------------------------------

/// The confidence held between 0 and 1. What is not a number stays as it is.
pub open spec fn clamped(confidence: Confidence) -> Confidence {
    let bits = confidence.bits;
    let negative = bits >= MINUS_ZERO;
    let magnitude = if negative {
        bits - MINUS_ZERO
    } else {
        bits as int
    };
    if magnitude > INFINITY {
        confidence
    } else if negative && magnitude != 0 {
        Confidence { bits: 0 }
    } else if !negative && magnitude > ONE {
        Confidence { bits: ONE }
    } else {
        confidence
    }
}

/// The confidence held between 0 and 1.
pub fn clamp_confidence(confidence: Confidence) -> (held: Confidence)
    ensures
        held == clamped(confidence),
{
    let bits = confidence.bits;
    let negative = bits >= MINUS_ZERO;
    let magnitude: u32 = if negative {
        bits - MINUS_ZERO
    } else {
        bits
    };
    if magnitude > INFINITY {
        confidence
    } else if negative && magnitude != 0 {
        Confidence { bits: 0 }
    } else if !negative && magnitude > ONE {
        Confidence { bits: ONE }
    } else {
        confidence
    }
}

// ---------------------------------------------------------------------------
// Finding an item
// ---------------------------------------------------------------------------

/// The position of the first item with the given id.
pub open spec fn item_index(items: Seq<PlanItemView>, id: Seq<char>) -> Option<int>
    decreases items.len(),
{
    if items.len() == 0 {
        None
    } else {
        match item_index(items.drop_last(), id) {
            Some(i) => Some(i),
            None => if items.last().id == id {
                Some(items.len() - 1)
            } else {
                None
            },
        }
    }
}

/// What `item_index` says.
pub proof fn item_index_is_first(items: Seq<PlanItemView>, id: Seq<char>)
    ensures
        match item_index(items, id) {
            Some(i) => {
                &&& 0 <= i < items.len()
                &&& items[i].id == id
                &&& forall|j: int| 0 <= j < i ==> (#[trigger] items[j]).id != id
            },
            None => forall|j: int| 0 <= j < items.len() ==> (#[trigger] items[j]).id != id,
        },
    decreases items.len(),
{
    if items.len() > 0 {
        let front = items.drop_last();
        item_index_is_first(front, id);
        match item_index(front, id) {
            Some(i) => {
                assert(items[i] == front[i]);
                assert forall|j: int| 0 <= j < i implies (#[trigger] items[j]).id != id by {
                    assert(items[j] == front[j]);
                }
            },
            None => {
                assert forall|j: int| 0 <= j < items.len() - 1 implies (
                #[trigger] items[j]).id != id by {
                    assert(items[j] == front[j]);
                }
            },
        }
    }
}

/// The position of the first item with the given id.
pub fn find_item(items: &Vec<PlanItem>, id: &str) -> (position: Option<usize>)
    ensures
        match position {
            Some(i) => item_index(records::item_views(items@), id@) == Some(i as int),
            None => item_index(records::item_views(items@), id@) is None,
        },
{
    let ghost views = records::item_views(items@);
    let mut i: usize = 0;
    while i < items.len()
        invariant
            i <= items@.len(),
            views == records::item_views(items@),
            forall|j: int| 0 <= j < i ==> (#[trigger] views[j]).id != id@,
        decreases items@.len() - i,
    {
        assert(views[i as int] == items@[i as int]@);
        if text::same_text(&items[i].id, id) {
            proof {
                item_index_is_first(views, id@);
            }
            return Some(i);
        }
        i += 1;
    }
    proof {
        item_index_is_first(views, id@);
    }
    None
}

/// How far the model has come with the file of the given id.
pub open spec fn status_of(items: Seq<PlanItemView>, id: Seq<char>) -> Option<AiStatus> {
    match item_index(items, id) {
        Some(i) => Some(items[i].ai_status),
        None => None,
    }
}

/// How far the model has come with the file of the given id.
pub fn item_status(items: &Vec<PlanItem>, id: &str) -> (status: Option<AiStatus>)
    ensures
        status == status_of(records::item_views(items@), id@),
{
    proof {
        item_index_is_first(records::item_views(items@), id@);
    }
    match find_item(items, id) {
        Some(i) => Some(items[i].ai_status),
        None => None,
    }
}

/// The number of items in a state.
pub open spec fn count_with(items: Seq<PlanItemView>, status: AiStatus) -> nat
    decreases items.len(),
{
    if items.len() == 0 {
        0
    } else {
        count_with(items.drop_last(), status) + if items.last().ai_status == status {
            1nat
        } else {
            0
        }
    }
}

fn count_status(items: &Vec<PlanItem>, status: AiStatus) -> (count: usize)
    ensures
        count as nat == count_with(records::item_views(items@), status),
        count <= items@.len(),
{
    let ghost views = records::item_views(items@);
    let mut count: usize = 0;
    for i in 0..items.len()
        invariant
            views == records::item_views(items@),
            count as nat == count_with(views.take(i as int), status),
            count <= i,
    {
        assert(views.take(i as int + 1).drop_last() =~= views.take(i as int));
        assert(views.take(i as int + 1).last() == items@[i as int]@);
        if items[i].ai_status == status {
            count += 1;
        }
    }
    assert(views.take(items@.len() as int) =~= views);
    count
}

/// The number of items that the model settled.
pub fn processed_count(items: &Vec<PlanItem>) -> (count: usize)
    ensures
        count as nat == count_with(records::item_views(items@), AiStatus::Processed),
        count <= items@.len(),
{
    count_status(items, AiStatus::Processed)
}

/// The number of items that wait for a decision.
pub fn retry_pending_count(items: &Vec<PlanItem>) -> (count: usize)
    ensures
        count as nat == count_with(records::item_views(items@), AiStatus::RetryPending),
        count <= items@.len(),
{
    count_status(items, AiStatus::RetryPending)
}

/// The number of items that were given up.
pub fn unprocessed_count(items: &Vec<PlanItem>) -> (count: usize)
    ensures
        count as nat == count_with(records::item_views(items@), AiStatus::Unprocessed),
        count <= items@.len(),
{
    count_status(items, AiStatus::Unprocessed)
}

// ---------------------------------------------------------------------------
// One decision
// ---------------------------------------------------------------------------

/// Whether a decision leaves the category of an item alone: an installer stays one.
pub open spec fn keeps_category(mode: Seq<char>, item: PlanItemView) -> bool {
    mode == STANDARD_MODE@ && item.category == categories::DOWNLOADS@
}

/// What a decision says of its reason.
pub open spec fn reason_given(decision: DecisionView) -> Seq<char> {
    match decision.explanation {
        Some(reason) => if text::trim(reason).len() > 0 {
            reason
        } else {
            ASSIGNED_BY_AI@
        },
        None => ASSIGNED_BY_AI@,
    }
}

/// An item after a decision on it.
pub open spec fn decided(
    style: Style,
    mode: Seq<char>,
    item: PlanItemView,
    decision: DecisionView,
) -> PlanItemView {
    let category = if keeps_category(mode, item) {
        item.category
    } else {
        categories::restricted(decision.category, item.category)
    };
    PlanItemView {
        category,
        target: if keeps_category(mode, item) {
            item.target
        } else {
            names::target(style, category, item.relative_path)
        },
        explanation: reason_given(decision),
        confidence: match decision.confidence {
            Some(confidence) => clamped(confidence),
            None => item.confidence,
        },
        ai_status: AiStatus::Processed,
        ai_error: None,
        ..item
    }
}

/// The items after a decision: the first one with its id is decided.
pub open spec fn after_decision(
    style: Style,
    mode: Seq<char>,
    items: Seq<PlanItemView>,
    decision: DecisionView,
) -> Seq<PlanItemView> {
    match item_index(items, decision.id) {
        Some(i) => items.update(i, decided(style, mode, items[i], decision)),
        None => items,
    }
}

/// The items after a decision.
pub fn apply_ai_decision(
    style: Style,
    sort: &SortSettings,
    items: &mut Vec<PlanItem>,
    decision: &AiDecision,
)
    ensures
        records::item_views(final(items)@) == after_decision(
            style,
            sort.mode@,
            records::item_views(old(items)@),
            decision@,
        ),
{
    let ghost before = records::item_views(items@);
    proof {
        item_index_is_first(before, decision@.id);
    }
    let i = match find_item(items, &decision.id) {
        Some(i) => i,
        None => {
            return ;
        },
    };
    assert(before[i as int] == items@[i as int]@);
    let keeps = text::same_text(&sort.mode, STANDARD_MODE) && text::same_text(
        &items[i].category,
        categories::DOWNLOADS,
    );
    let category = if keeps {
        items[i].category.clone()
    } else {
        categories::restricted_category(&decision.category, &items[i].category)
    };
    let target = if keeps {
        items[i].target.clone()
    } else {
        names::planned_target(style, &category, &items[i].relative_path)
    };
    let explanation = match &decision.explanation {
        Some(reason) => {
            let chars = text::chars_of(reason);
            if text::trimmed(&chars).len() > 0 {
                reason.clone()
            } else {
                ASSIGNED_BY_AI.to_owned()
            }
        },
        None => ASSIGNED_BY_AI.to_owned(),
    };
    let item = &mut items[i];
    item.category = category;
    item.target = target;
    item.explanation = explanation;
    match decision.confidence {
        Some(confidence) => {
            item.confidence = clamp_confidence(confidence);
        },
        None => {},
    }
    item.ai_status = AiStatus::Processed;
    item.ai_error = None;
    assert(records::item_views(items@) =~= after_decision(style, sort.mode@, before, decision@));
}

// ---------------------------------------------------------------------------
// Giving up
// ---------------------------------------------------------------------------

pub const GIVEN_UP: &'static str = "ИИ не обработал файл после двух попыток. Первая попытка: ";

pub const SECOND_ATTEMPT: &'static str = " Повторная попытка: ";

/// What is said of a file that two attempts did not settle.
pub open spec fn given_up_detail(first_error: Option<Seq<char>>, retry_error: Seq<char>) -> Seq<
    char,
> {
    GIVEN_UP@ + (match first_error {
        Some(error) => error,
        None => NO_FIRST_REASON@,
    }) + SECOND_ATTEMPT@ + retry_error
}

/// An item after two failed attempts.
pub open spec fn given_up(style: Style, item: PlanItemView, detail: Seq<char>) -> PlanItemView {
    PlanItemView {
        category: categories::UNPROCESSED_CATEGORY@,
        target: names::target(style, categories::UNPROCESSED_CATEGORY@, item.relative_path),
        explanation: detail,
        confidence: Confidence { bits: 0 },
        included: true,
        ai_status: AiStatus::Unprocessed,
        ai_error: Some(detail),
        ..item
    }
}

/// The items after the one with the given id was given up.
pub open spec fn after_giving_up(
    style: Style,
    items: Seq<PlanItemView>,
    id: Seq<char>,
    first_error: Option<Seq<char>>,
    retry_error: Seq<char>,
) -> Seq<PlanItemView> {
    match item_index(items, id) {
        Some(i) => items.update(
            i,
            given_up(style, items[i], given_up_detail(first_error, retry_error)),
        ),
        None => items,
    }
}

/// Gives up on the file of the given id.
pub fn mark_unprocessed(
    style: Style,
    items: &mut Vec<PlanItem>,
    id: &str,
    first_error: Option<&String>,
    retry_error: &str,
)
    ensures
        records::item_views(final(items)@) == after_giving_up(
            style,
            records::item_views(old(items)@),
            id@,
            match first_error {
                Some(error) => Some(error@),
                None => None,
            },
            retry_error@,
        ),
{
    let ghost before = records::item_views(items@);
    proof {
        item_index_is_first(before, id@);
    }
    let i = match find_item(items, id) {
        Some(i) => i,
        None => {
            return ;
        },
    };
    assert(before[i as int] == items@[i as int]@);
    let mut detail = GIVEN_UP.to_owned();
    match first_error {
        Some(error) => {
            detail.append(error);
        },
        None => {
            detail.append(NO_FIRST_REASON);
        },
    }
    detail.append(SECOND_ATTEMPT);
    detail.append(retry_error);
    let target = names::planned_target(
        style,
        categories::UNPROCESSED_CATEGORY,
        &items[i].relative_path,
    );
    let item = &mut items[i];
    item.category = categories::UNPROCESSED_CATEGORY.to_owned();
    item.target = target;
    item.explanation = detail.clone();
    item.confidence = Confidence { bits: 0 };
    item.included = true;
    item.ai_status = AiStatus::Unprocessed;
    item.ai_error = Some(detail);
    let ghost first = match first_error {
        Some(error) => Some(error@),
        None => None,
    };
    assert(records::item_views(items@) =~= after_giving_up(style, before, id@, first, retry_error@));
}

// ---------------------------------------------------------------------------
// The decisions on a batch
// ---------------------------------------------------------------------------

/// The first decision with the given id.
pub open spec fn decision_for(decisions: Seq<DecisionView>, id: Seq<char>) -> Option<DecisionView>
    decreases decisions.len(),
{
    if decisions.len() == 0 {
        None
    } else {
        match decision_for(decisions.drop_last(), id) {
            Some(decision) => Some(decision),
            None => if decisions.last().id == id {
                Some(decisions.last())
            } else {
                None
            },
        }
    }
}

/// Whether the decisions settle the file at position `k` of a batch: there is one for
/// its id, and no file before it in the batch has used it up.
pub open spec fn settles(
    batch: Seq<ContextView>,
    decisions: Seq<DecisionView>,
    k: int,
) -> bool {
    &&& decision_for(decisions, batch[k].id) is Some
    &&& forall|j: int| 0 <= j < k ==> (#[trigger] batch[j]).id != batch[k].id
}

/// The items after the decisions on a batch.
pub open spec fn after_batch(
    style: Style,
    mode: Seq<char>,
    items: Seq<PlanItemView>,
    batch: Seq<ContextView>,
    decisions: Seq<DecisionView>,
) -> Seq<PlanItemView>
    decreases batch.len(),
{
    if batch.len() == 0 {
        items
    } else {
        let before = after_batch(style, mode, items, batch.drop_last(), decisions);
        if settles(batch, decisions, batch.len() - 1) {
            after_decision(style, mode, before, decision_for(decisions, batch.last().id)->0)
        } else {
            before
        }
    }
}

/// The ids of the files of a batch that the decisions do not settle, in order.
pub open spec fn missing_ids(batch: Seq<ContextView>, decisions: Seq<DecisionView>) -> Seq<
    Seq<char>,
>
    decreases batch.len(),
{
    if batch.len() == 0 {
        Seq::empty()
    } else {
        let before = missing_ids(batch.drop_last(), decisions);
        if settles(batch, decisions, batch.len() - 1) {
            before
        } else {
            before.push(batch.last().id)
        }
    }
}

fn find_decision(decisions: &Vec<AiDecision>, id: &str) -> (position: Option<usize>)
    ensures
        match position {
            Some(i) => i < decisions@.len() && decision_for(
                records::decision_views(decisions@),
                id@,
            ) == Some(decisions@[i as int]@),
            None => decision_for(records::decision_views(decisions@), id@) is None,
        },
        position is Some ==> decisions@[position->0 as int].id@ == id@,
{
    let ghost views = records::decision_views(decisions@);
    let mut i: usize = 0;
    while i < decisions.len()
        invariant
            i <= decisions@.len(),
            views == records::decision_views(decisions@),
            decision_for(views.take(i as int), id@) is None,
        decreases decisions@.len() - i,
    {
        assert(views.take(i as int + 1).drop_last() =~= views.take(i as int));
        assert(views.take(i as int + 1).last() == decisions@[i as int]@);
        if text::same_text(&decisions[i].id, id) {
            proof {
                first_decision_stays(views, i as int + 1, id@);
            }
            return Some(i);
        }
        i += 1;
    }
    assert(views.take(i as int) =~= views);
    None
}

proof fn first_decision_stays(decisions: Seq<DecisionView>, n: int, id: Seq<char>)
    requires
        0 <= n <= decisions.len(),
        decision_for(decisions.take(n), id) is Some,
    ensures
        decision_for(decisions, id) == decision_for(decisions.take(n), id),
    decreases decisions.len(),
{
    if n == decisions.len() {
        assert(decisions.take(n) =~= decisions);
    } else {
        assert(decisions.drop_last().take(n) =~= decisions.take(n));
        first_decision_stays(decisions.drop_last(), n, id);
    }
}

fn seen_before(batch: &[AiFileContext], k: usize) -> (seen: bool)
    requires
        k < batch@.len(),
    ensures
        seen == exists|j: int|
            0 <= j < k && (#[trigger] records::context_views(batch@)[j]).id == batch@[k as int].id@,
{
    for j in 0..k
        invariant
            k < batch@.len(),
            forall|i: int|
                0 <= i < j ==> (#[trigger] records::context_views(batch@)[i]).id
                    != batch@[k as int].id@,
    {
        assert(records::context_views(batch@)[j as int] == batch@[j as int]@);
        if text::same_text(&batch[j].id, &batch[k].id) {
            return true;
        }
    }
    false
}

/// Applies the decisions on a batch; returns the ids of the files that they leave open.
pub fn apply_batch_decisions(
    style: Style,
    sort: &SortSettings,
    items: &mut Vec<PlanItem>,
    batch: &[AiFileContext],
    decisions: &Vec<AiDecision>,
) -> (missing: Vec<String>)
    ensures
        records::item_views(final(items)@) == after_batch(
            style,
            sort.mode@,
            records::item_views(old(items)@),
            records::context_views(batch@),
            records::decision_views(decisions@),
        ),
        records::text_views(missing@) == missing_ids(
            records::context_views(batch@),
            records::decision_views(decisions@),
        ),
        final(items)@.len() == old(items)@.len(),
        missing@.len() <= batch@.len(),
{
    let ghost views = records::context_views(batch@);
    let ghost answers = records::decision_views(decisions@);
    let ghost start = records::item_views(items@);
    let mut missing: Vec<String> = Vec::new();
    assert(views.take(0) =~= Seq::<ContextView>::empty());
    assert(records::text_views(missing@) =~= missing_ids(views.take(0), answers));
    for k in 0..batch.len()
        invariant
            views == records::context_views(batch@),
            answers == records::decision_views(decisions@),
            records::item_views(items@) == after_batch(
                style,
                sort.mode@,
                start,
                views.take(k as int),
                answers,
            ),
            records::text_views(missing@) == missing_ids(views.take(k as int), answers),
            items@.len() == start.len(),
            missing@.len() <= k,
    {
        let ghost part = views.take(k as int + 1);
        assert(part.drop_last() =~= views.take(k as int));
        assert(part.last() == batch@[k as int]@);
        let seen = seen_before(batch, k);
        let found = if seen {
            None
        } else {
            find_decision(decisions, &batch[k].id)
        };
        assert(settles(part, answers, k as int) <==> found is Some) by {
            if seen {
                let j = choose|j: int|
                    0 <= j < k && (#[trigger] views[j]).id == batch@[k as int].id@;
                assert(part[j] == views[j]);
                assert(part[j].id == part[k as int].id);
            } else {
                assert forall|j: int| 0 <= j < k implies (#[trigger] part[j]).id
                    != part[k as int].id by {
                    assert(part[j] == views[j]);
                }
            }
        }
        let ghost before = records::item_views(items@);
        match found {
            Some(i) => {
                apply_ai_decision(style, sort, items, &decisions[i]);
                proof {
                    item_index_is_first(before, decisions@[i as int]@.id);
                    assert(records::item_views(items@).len() == items@.len());
                }
            },
            None => {
                let ghost before_missing = missing@;
                missing.push(batch[k].id.clone());
                assert(records::text_views(missing@) =~= records::text_views(before_missing).push(
                    part.last().id,
                ));
            },
        }
    }
    assert(views.take(batch@.len() as int) =~= views);
    missing
}

/// An installer stays where installers go, whatever the model decides, unless the user
/// gave instructions of their own.
pub proof fn installers_stay_put(
    style: Style,
    item: PlanItemView,
    decision: DecisionView,
    name: Seq<char>,
    ext: Seq<char>,
)
    requires
        categories::is_installer(name, ext),
        item.category == categories::suggested(name, ext),
    ensures
        item.category == categories::DOWNLOADS@,
        decided(style, STANDARD_MODE@, item, decision).category == item.category,
        decided(style, STANDARD_MODE@, item, decision).target == item.target,
{
}

} // verus!
