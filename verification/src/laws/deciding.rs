//! What the answers of the model, and their absence, do to the files.

use crate::categories;
use crate::decisions;
use crate::names;
use crate::paths::Style;
use crate::records::{AiStatus, Confidence, ContextView, DecisionView, PlanItemView};
use crate::text;
use vstd::prelude::*;

verus! {

// ---------------------------------------------------------------------------
// One file
// ---------------------------------------------------------------------------

/// A decision settles its file: it gets the category that was decided, and the place that
/// belongs to it, unless it is an installer and the standard mode is on. What the file is and
/// whether it is included does not change.
pub proof fn a_decision_settles_its_file(
    style: Style,
    mode: Seq<char>,
    item: PlanItemView,
    decision: DecisionView,
)
    ensures
        ({
            let after = decisions::decided(style, mode, item, decision);
            &&& after.id == item.id
            &&& after.source == item.source
            &&& after.relative_path == item.relative_path
            &&& after.included == item.included
            &&& after.warning == item.warning
            &&& after.ai_status == AiStatus::Processed
            &&& after.ai_error is None
            &&& mode == "standard"@ && item.category == "Загрузчики"@ ==> after.category
                == item.category && after.target == item.target
            &&& mode != "standard"@ || item.category != "Загрузчики"@ ==> after.category
                == categories::restricted(decision.category, item.category) && after.target
                == names::target(style, after.category, item.relative_path)
        }),
{
}

/// The reason that the model gives is kept, word for word, where it gives one that is not blank.
pub proof fn reasons_are_kept(
    style: Style,
    mode: Seq<char>,
    item: PlanItemView,
    decision: DecisionView,
)
    ensures
        decision.explanation is Some && text::trim(decision.explanation->0).len() > 0
            ==> decisions::decided(style, mode, item, decision).explanation
            == decision.explanation->0,
        decision.explanation is None || text::trim(decision.explanation->0).len() == 0
            ==> decisions::decided(style, mode, item, decision).explanation
            == "Категория назначена ИИ."@,
        decision.confidence is None ==> decisions::decided(style, mode, item, decision).confidence
            == item.confidence,
        decision.confidence is Some ==> decisions::decided(style, mode, item, decision).confidence
            == decisions::clamped(decision.confidence->0),
{
}

/// A confidence is held between 0 and 1, by the order of the numbers that the bits stand for:
/// what lies between stays, what is greater becomes 1, what is less becomes 0, and what is no
/// number stays none.
pub proof fn confidences_lie_between_none_and_full(bits: u32)
    ensures
        bits <= 0x3f80_0000 ==> decisions::clamped(Confidence { bits }).bits == bits,
        0x3f80_0000 < bits <= 0x7f80_0000 ==> decisions::clamped(Confidence { bits }).bits
            == 0x3f80_0000,
        0x7f80_0000 < bits <= 0x8000_0000 ==> decisions::clamped(Confidence { bits }).bits == bits,
        0x8000_0000 < bits <= 0xff80_0000 ==> decisions::clamped(Confidence { bits }).bits == 0,
        0xff80_0000 < bits ==> decisions::clamped(Confidence { bits }).bits == bits,
        decisions::clamped(decisions::clamped(Confidence { bits })) == decisions::clamped(
            Confidence { bits },
        ),
{
}

/// A file that two attempts did not settle goes into a folder of its own and is still moved; what
/// went wrong in both attempts is said of it.
pub proof fn unsettled_files_are_set_apart(
    style: Style,
    item: PlanItemView,
    first: Option<Seq<char>>,
    second: Seq<char>,
)
    ensures
        ({
            let detail = decisions::given_up_detail(first, second);
            let after = decisions::given_up(style, item, detail);
            &&& after.id == item.id
            &&& after.source == item.source
            &&& after.relative_path == item.relative_path
            &&& after.warning == item.warning
            &&& after.category == "Не обработано ИИ"@
            &&& after.target == names::target(style, "Не обработано ИИ"@, item.relative_path)
            &&& after.included
            &&& after.confidence.bits == 0
            &&& after.ai_status == AiStatus::Unprocessed
            &&& after.explanation == detail
            &&& after.ai_error == Some(detail)
        }),
        first is Some ==> decisions::given_up_detail(first, second)
            == "ИИ не обработал файл после двух попыток. Первая попытка: "@ + first->0
            + " Повторная попытка: "@ + second,
        first is None ==> decisions::given_up_detail(first, second)
            == "ИИ не обработал файл после двух попыток. Первая попытка: модель не вернула решение Повторная попытка: "@
            + second,
{
    reveal_strlit(
        "ИИ не обработал файл после двух попыток. Первая попытка: модель не вернула решение Повторная попытка: ",
    );
    reveal_strlit("ИИ не обработал файл после двух попыток. Первая попытка: ");
    reveal_strlit("модель не вернула решение");
    reveal_strlit(" Повторная попытка: ");
    assert("ИИ не обработал файл после двух попыток. Первая попытка: модель не вернула решение Повторная попытка: "@
        =~= "ИИ не обработал файл после двух попыток. Первая попытка: "@
        + "модель не вернула решение"@ + " Повторная попытка: "@);
}

// ---------------------------------------------------------------------------
// Which file
// ---------------------------------------------------------------------------

/// A decision changes the first file with its id, and no other file.
pub proof fn a_decision_changes_one_file(
    style: Style,
    mode: Seq<char>,
    items: Seq<PlanItemView>,
    decision: DecisionView,
    k: int,
)
    requires
        0 <= k < items.len(),
    ensures
        decisions::after_decision(style, mode, items, decision).len() == items.len(),
        items[k].id == decision.id && (forall|j: int|
            0 <= j < k ==> (#[trigger] items[j]).id != decision.id) ==> decisions::after_decision(
            style,
            mode,
            items,
            decision,
        ) == items.update(k, decisions::decided(style, mode, items[k], decision)),
        items[k].id != decision.id ==> decisions::after_decision(style, mode, items, decision)[k]
            == items[k],
{
    decisions::item_index_is_first(items, decision.id);
}

/// Giving up changes the first file with the given id, and no other file.
pub proof fn giving_up_changes_one_file(
    style: Style,
    items: Seq<PlanItemView>,
    id: Seq<char>,
    first: Option<Seq<char>>,
    second: Seq<char>,
    k: int,
)
    requires
        0 <= k < items.len(),
    ensures
        decisions::after_giving_up(style, items, id, first, second).len() == items.len(),
        items[k].id == id && (forall|j: int| 0 <= j < k ==> (#[trigger] items[j]).id != id)
            ==> decisions::after_giving_up(style, items, id, first, second) == items.update(
            k,
            decisions::given_up(style, items[k], decisions::given_up_detail(first, second)),
        ),
        items[k].id != id ==> decisions::after_giving_up(style, items, id, first, second)[k]
            == items[k],
{
    decisions::item_index_is_first(items, id);
}

/// The state of a file is that of the first item with its id.
pub proof fn states_are_those_of_the_items(items: Seq<PlanItemView>, id: Seq<char>, k: int)
    requires
        0 <= k < items.len(),
    ensures
        items[k].id == id && (forall|j: int| 0 <= j < k ==> (#[trigger] items[j]).id != id)
            ==> decisions::status_of(items, id) == Some(items[k].ai_status),
        (forall|j: int| 0 <= j < items.len() ==> (#[trigger] items[j]).id != id)
            ==> decisions::status_of(items, id) is None,
{
    decisions::item_index_is_first(items, id);
}

/// The files in a state are counted one by one.
pub proof fn states_are_counted(items: Seq<PlanItemView>, status: AiStatus)
    ensures
        decisions::count_with(items, status) == items.filter(
            |item: PlanItemView| item.ai_status == status,
        ).len(),
    decreases items.len(),
{
    reveal(Seq::filter);
    if items.len() > 0 {
        states_are_counted(items.drop_last(), status);
    }
}

/// Of several decisions for a file the first one counts.
pub proof fn the_first_decision_counts(answers: Seq<DecisionView>, id: Seq<char>, k: int)
    requires
        0 <= k < answers.len(),
    ensures
        answers[k].id == id && (forall|j: int| 0 <= j < k ==> (#[trigger] answers[j]).id != id)
            ==> decisions::decision_for(answers, id) == Some(answers[k]),
        (forall|j: int| 0 <= j < answers.len() ==> (#[trigger] answers[j]).id != id)
            ==> decisions::decision_for(answers, id) is None,
    decreases answers.len(),
{
    let front = answers.drop_last();
    let n = answers.len() as int;
    if n > 1 {
        if k < n - 1 {
            assert(front[k] == answers[k]);
            assert((forall|j: int| 0 <= j < k ==> (#[trigger] answers[j]).id != id) ==> (forall|
                j: int,
            |
                0 <= j < k ==> (#[trigger] front[j]).id != id));
            the_first_decision_counts(front, id, k);
        } else {
            the_first_decision_counts(front, id, 0);
        }
        if forall|j: int| 0 <= j < n - 1 ==> (#[trigger] answers[j]).id != id {
            assert forall|j: int| 0 <= j < front.len() implies (#[trigger] front[j]).id != id by {
                assert(front[j] == answers[j]);
            }
            the_first_decision_counts(front, id, 0);
        }
    } else {
        assert(front.len() == 0);
        assert(decisions::decision_for(front, id) is None);
        assert(answers.last() == answers[0]);
    }
}

/// Whether the answers speak of a file.
pub open spec fn is_answered(answers: Seq<DecisionView>, id: Seq<char>) -> bool {
    exists|j: int| 0 <= j < answers.len() && (#[trigger] answers[j]).id == id
}

/// The files that no answer speaks of are asked about again, in their order; those that one speaks
/// of are not.
pub proof fn unanswered_files_are_missing(
    batch: Seq<ContextView>,
    context: ContextView,
    answers: Seq<DecisionView>,
)
    requires
        forall|j: int| 0 <= j < batch.len() ==> (#[trigger] batch[j]).id != context.id,
    ensures
        is_answered(answers, context.id) ==> decisions::missing_ids(batch.push(context), answers)
            == decisions::missing_ids(batch, answers),
        !is_answered(answers, context.id) ==> decisions::missing_ids(batch.push(context), answers)
            == decisions::missing_ids(batch, answers).push(context.id),
        decisions::missing_ids(Seq::empty(), answers).len() == 0,
{
    let all = batch.push(context);
    assert(all.drop_last() =~= batch);
    assert forall|j: int| 0 <= j < all.len() - 1 implies (#[trigger] all[j]).id != all[all.len()
        - 1].id by {
        assert(all[j] == batch[j]);
    }
    answered_means_found(answers, context.id);
}

proof fn answered_means_found(answers: Seq<DecisionView>, id: Seq<char>)
    ensures
        decisions::decision_for(answers, id) is Some <==> is_answered(answers, id),
    decreases answers.len(),
{
    if answers.len() > 0 {
        let front = answers.drop_last();
        answered_means_found(front, id);
        if is_answered(front, id) {
            let j = choose|j: int| 0 <= j < front.len() && (#[trigger] front[j]).id == id;
            assert(answers[j].id == id);
        }
        if is_answered(answers, id) {
            let j = choose|j: int| 0 <= j < answers.len() && (#[trigger] answers[j]).id == id;
            if j < front.len() {
                assert(front[j].id == id);
            }
        }
        if answers.last().id == id {
            assert(answers[answers.len() - 1].id == id);
        }
    }
}

/// The answers on a batch are taken file by file: a file that an answer speaks of is settled by the
/// first such answer, and a file that none speaks of stays as it is.
pub proof fn answers_settle_files_one_by_one(
    style: Style,
    mode: Seq<char>,
    items: Seq<PlanItemView>,
    batch: Seq<ContextView>,
    context: ContextView,
    answers: Seq<DecisionView>,
)
    requires
        forall|j: int| 0 <= j < batch.len() ==> (#[trigger] batch[j]).id != context.id,
    ensures
        ({
            let before = decisions::after_batch(style, mode, items, batch, answers);
            let after = decisions::after_batch(style, mode, items, batch.push(context), answers);
            &&& is_answered(answers, context.id) ==> decisions::decision_for(answers, context.id)
                is Some && after == decisions::after_decision(
                style,
                mode,
                before,
                decisions::decision_for(answers, context.id)->0,
            )
            &&& !is_answered(answers, context.id) ==> after == before
        }),
        decisions::after_batch(style, mode, items, Seq::empty(), answers) == items,
{
    let all = batch.push(context);
    assert(all.drop_last() =~= batch);
    assert forall|j: int| 0 <= j < all.len() - 1 implies (#[trigger] all[j]).id != all[all.len()
        - 1].id by {
        assert(all[j] == batch[j]);
    }
    answered_means_found(answers, context.id);
}

} // verus!
