//! Batches: how much of a file the model is told, and which files go into one request.

use crate::json;
use crate::records::{AiFileContext, ContextView};
use crate::records;
use crate::text;
use std::ops::Range;
use vstd::prelude::*;

verus! {

/// The number of files in one request.
pub const AI_BATCH_SIZE: usize = 10;

/// The number of bytes that the contexts of one request take, whatever the limit on
/// the text of a file is: a local model never receives an unbounded prompt.
pub const MAX_BATCH_CONTEXT_BYTES: usize = 8_000;

pub const SHORTENED_STATUS: &'static str =
    "Текст сокращён до безопасного размера ИИ-запроса; использованы также метаданные файла.";

// ---------------------------------------------------------------------------
// Sizes
// ---------------------------------------------------------------------------

/// The number of bytes of a context in a request.
pub open spec fn context_bytes(context: ContextView) -> nat {
    text::utf8_len(json::context_json(context))
}

/// The number of bytes of the contexts from position `from` to `to`.
pub open spec fn bytes_between(contexts: Seq<ContextView>, from: int, to: int) -> nat
    decreases to - from,
{
    if to <= from {
        0
    } else {
        bytes_between(contexts, from, to - 1) + context_bytes(contexts[to - 1])
    }
}

/// The number that a machine word holds in place of `n`.
pub open spec fn saturated(n: nat) -> nat {
    if n <= usize::MAX {
        n
    } else {
        usize::MAX as nat
    }
}

/// The number of bytes of a context in a request.
pub fn model_context_bytes(context: &AiFileContext) -> (bytes: usize)
    ensures
        bytes as nat == context_bytes(context@),
{
    text::byte_length(&json::write_context(context))
}

/// The number of bytes of a list of contexts in a request.
pub fn model_batch_context_bytes(batch: &[AiFileContext]) -> (bytes: usize)
    ensures
        bytes as nat == saturated(
            bytes_between(records::context_views(batch@), 0, batch@.len() as int),
        ),
{
    let ghost views = records::context_views(batch@);
    let mut total: usize = 0;
    for i in 0..batch.len()
        invariant
            views == records::context_views(batch@),
            total as nat == saturated(bytes_between(views, 0, i as int)),
    {
        assert(views[i as int] == batch@[i as int]@);
        total = total.saturating_add(model_context_bytes(&batch[i]));
    }
    total
}

// ---------------------------------------------------------------------------
// The text of one file
// ---------------------------------------------------------------------------

/// The first characters of a text.
pub fn shorten_text(value: &str, maximum_chars: usize) -> (short: String)
    ensures
        short@ == text::first_chars(value@, maximum_chars as nat),
{
    let chars = text::chars_of(value);
    text::string_of(text::leading_chars(&chars, maximum_chars))
}

/// A context with another text.
pub open spec fn with_text(context: ContextView, s: Seq<char>) -> ContextView {
    ContextView { content_extract: Some(s), ..context }
}

/// A context with the first `n` characters of its text.
pub open spec fn cut_to(context: ContextView, n: nat) -> ContextView {
    with_text(context, context.content_extract->0.take(n as int))
}

/// The number of characters that are tried after `n` turned out too many: three
/// quarters of them, but at least one.
pub open spec fn fewer(n: nat) -> nat {
    if saturated(3 * n) / 4 == 0 {
        1
    } else {
        saturated(3 * n) / 4
    }
}

/// The number of characters that stay of a text of `n`: the first of `n`, three
/// quarters of `n`, and so on with which the context fits a request.
pub open spec fn kept_chars(context: ContextView, n: nat) -> nat
    decreases n,
{
    if n <= 1 || context_bytes(cut_to(context, n)) <= MAX_BATCH_CONTEXT_BYTES {
        n
    } else {
        proof {
            assert(fewer(n) < n);
        }
        kept_chars(context, fewer(n))
    }
}

/// Whether there is text to cut.
pub open spec fn has_text(context: ContextView) -> bool {
    context.content_extract is Some && context.content_extract->0.len() > 0
}

/// Whether a context can be made to fit a request by cutting its text: with a single
/// character of it, it does. A context without text has nothing to cut.
pub open spec fn can_be_cut(context: ContextView) -> bool {
    has_text(context) ==> context_bytes(cut_to(context, 1)) <= MAX_BATCH_CONTEXT_BYTES
}

/// A context cut to fit a request.
pub open spec fn fitted(context: ContextView) -> ContextView {
    if has_text(context) && context_bytes(context) > MAX_BATCH_CONTEXT_BYTES {
        ContextView {
            content_status: SHORTENED_STATUS@,
            ..cut_to(context, kept_chars(context, context.content_extract->0.len()))
        }
    } else {
        context
    }
}

/// Whether a context can be made to fit a request by cutting its text.
pub fn can_fit_model_budget(context: &AiFileContext) -> (yes: bool)
    ensures
        yes == can_be_cut(context@),
{
    match &context.content_extract {
        None => true,
        Some(value) => {
            let chars = text::chars_of(value);
            if chars.len() == 0 {
                return true;
            }
            let mut smallest = context.clone();
            let short = shorten_text(value, 1);
            proof {
                assert(short@ =~= value@.take(1));
            }
            smallest.content_extract = Some(short);
            assert(smallest@ == cut_to(context@, 1));
            model_context_bytes(&smallest) <= MAX_BATCH_CONTEXT_BYTES
        },
    }
}

fn fewer_chars(n: usize) -> (less: usize)
    ensures
        less as nat == fewer(n as nat),
{
    let tripled: usize = if n > usize::MAX / 3 {
        usize::MAX
    } else {
        3 * n
    };
    if tripled / 4 == 0 {
        1
    } else {
        tripled / 4
    }
}

/// Cuts the text of a context until it fits a request.
pub fn fit_context_into_model_budget(context: &mut AiFileContext)
    requires
        can_be_cut(old(context)@),
    ensures
        final(context)@ == fitted(old(context)@),
        has_text(old(context)@) ==> context_bytes(
            ContextView { content_status: old(context)@.content_status, ..final(context)@ },
        ) <= MAX_BATCH_CONTEXT_BYTES,
{
    let ghost start = context@;
    let ghost whole = start.content_extract->0;
    let mut was_shortened = false;
    let mut over = model_context_bytes(context) > MAX_BATCH_CONTEXT_BYTES;
    proof {
        assert(whole.take(whole.len() as int) =~= whole);
        if has_text(start) {
            assert(cut_to(start, whole.len()) == start);
        }
    }
    let ghost mut n: nat = whole.len();
    while over
        invariant
            can_be_cut(start),
            over == (context_bytes(context@) > MAX_BATCH_CONTEXT_BYTES),
            whole == start.content_extract->0,
            !was_shortened ==> context@ == start && n == whole.len(),
            was_shortened ==> {
                &&& has_text(start)
                &&& 1 <= n <= whole.len()
                &&& context@ == cut_to(start, n)
                &&& context_bytes(start) > MAX_BATCH_CONTEXT_BYTES
            },
            has_text(start) ==> cut_to(start, whole.len()) == start,
            has_text(start) ==> kept_chars(start, whole.len()) == kept_chars(start, n),
        ensures
            !was_shortened ==> context@ == start,
            was_shortened ==> {
                &&& has_text(start)
                &&& context@ == cut_to(start, kept_chars(start, whole.len()))
                &&& context_bytes(start) > MAX_BATCH_CONTEXT_BYTES
            },
            has_text(start) ==> context_bytes(context@) <= MAX_BATCH_CONTEXT_BYTES,
        decreases n,
    {
        let reduced = match &context.content_extract {
            None => {
                break;
            },
            Some(value) => {
                let length = text::chars_of(value).len();
                if length == 0 {
                    break;
                }
                proof {
                    assert(has_text(start));
                    assert(context@ == cut_to(start, n));
                    assert(length == n);
                    if n == 1 {
                        assert(cut_to(start, 1) == context@);
                    }
                }
                let reduced_length = fewer_chars(length);
                let short = shorten_text(value, reduced_length);
                proof {
                    assert(fewer(n) < n);
                    assert(short@ =~= whole.take(fewer(n) as int));
                }
                short
            },
        };
        context.content_extract = Some(reduced);
        was_shortened = true;
        proof {
            n = fewer(n);
            assert(context@ == cut_to(start, n));
        }
        over = model_context_bytes(context) > MAX_BATCH_CONTEXT_BYTES;
    }
    if was_shortened {
        context.content_status = SHORTENED_STATUS.to_owned();
    }
}

/// Cutting a context takes nothing from it but the end of its text, and puts the note
/// in place of its status. Apart from what the note is longer than the status, it fits
/// a request.
pub proof fn fitted_contexts_fit(context: ContextView)
    requires
        has_text(context),
        can_be_cut(context),
    ensures
        context_bytes(fitted(context)) <= MAX_BATCH_CONTEXT_BYTES
            || context_bytes(fitted(context)) + text::utf8_len(json::quoted(context.content_status))
            <= MAX_BATCH_CONTEXT_BYTES + text::utf8_len(json::quoted(SHORTENED_STATUS@)),
        fitted(context).content_extract is Some,
        0 < fitted(context).content_extract->0.len() <= context.content_extract->0.len(),
        fitted(context).content_extract->0 == context.content_extract->0.take(
            fitted(context).content_extract->0.len() as int,
        ),
{
    let whole = context.content_extract->0;
    assert(whole.take(whole.len() as int) =~= whole);
    if context_bytes(context) > MAX_BATCH_CONTEXT_BYTES {
        kept_chars_fit(context, whole.len());
        let kept = kept_chars(context, whole.len());
        let cut = cut_to(context, kept);
        status_bytes(cut, SHORTENED_STATUS@);
        assert(fitted(context) == ContextView { content_status: SHORTENED_STATUS@, ..cut });
        assert(fitted(context).content_extract->0 == whole.take(kept as int));
    } else {
        assert(fitted(context) == context);
    }
}

/// What stays of a text fits, where a single character does.
proof fn kept_chars_fit(context: ContextView, n: nat)
    requires
        has_text(context),
        can_be_cut(context),
        1 <= n <= context.content_extract->0.len(),
    ensures
        1 <= kept_chars(context, n) <= n,
        context_bytes(cut_to(context, kept_chars(context, n))) <= MAX_BATCH_CONTEXT_BYTES,
    decreases n,
{
    if n > 1 && context_bytes(cut_to(context, n)) > MAX_BATCH_CONTEXT_BYTES {
        assert(fewer(n) < n);
        kept_chars_fit(context, fewer(n));
    }
}

/// Another status changes the size by the difference of the two.
proof fn status_bytes(context: ContextView, status: Seq<char>)
    ensures
        context_bytes(ContextView { content_status: status, ..context }) + text::utf8_len(
            json::quoted(context.content_status),
        ) == context_bytes(context) + text::utf8_len(json::quoted(status)),
{
    let changed = ContextView { content_status: status, ..context };
    let front = json::context_head(context) + json::quoted_or_null(context.content_extract);
    assert(json::context_head(changed) == json::context_head(context));
    text::utf8_len_of_sum(front, json::context_tail(context));
    text::utf8_len_of_sum(front, json::context_tail(changed));
    tail_bytes(context);
    tail_bytes(changed);
}

proof fn tail_bytes(context: ContextView)
    ensures
        text::utf8_len(json::context_tail(context)) == text::utf8_len(",\"contentStatus\":"@)
            + text::utf8_len(json::quoted(context.content_status)) + text::utf8_len("}"@),
{
    let name = ",\"contentStatus\":"@;
    let status = json::quoted(context.content_status);
    text::utf8_len_of_sum(name, status);
    text::utf8_len_of_sum(name + status, "}"@);
}

// ---------------------------------------------------------------------------
// Which files go together
// ---------------------------------------------------------------------------

/// Whether the files from `from` to `to` make a request: there is at least one and not
/// too many, and they are not too big together, unless it is one that is too big alone.
pub open spec fn is_batch(contexts: Seq<ContextView>, from: int, to: int) -> bool {
    &&& 0 <= from < to <= contexts.len()
    &&& to - from <= AI_BATCH_SIZE
    &&& to - from == 1 || bytes_between(contexts, from, to) <= MAX_BATCH_CONTEXT_BYTES
}

/// Whether the next file would make the request from `from` to `to` too long or too big.
pub open spec fn is_full(contexts: Seq<ContextView>, from: int, to: int) -> bool {
    ||| to == contexts.len()
    ||| to - from >= AI_BATCH_SIZE
    ||| bytes_between(contexts, from, to + 1) > MAX_BATCH_CONTEXT_BYTES
}

/// Whether the ranges split the files up to `end` into full requests, in order.
pub open spec fn splits_up_to(
    contexts: Seq<ContextView>,
    ranges: Seq<Range<usize>>,
    end: int,
) -> bool {
    &&& ranges.len() == 0 ==> end == 0
    &&& ranges.len() > 0 ==> ranges[0].start == 0 && ranges.last().end == end
    &&& forall|i: int|
        0 <= i < ranges.len() ==> is_batch(
            contexts,
            (#[trigger] ranges[i]).start as int,
            ranges[i].end as int,
        ) && is_full(contexts, ranges[i].start as int, ranges[i].end as int)
    &&& forall|i: int, j: int|
        0 <= i && j == i + 1 && j < ranges.len() ==> (#[trigger] ranges[i]).end == (
        #[trigger] ranges[j]).start
}

/// Whether the ranges split the files into full requests, in order.
pub open spec fn splits(contexts: Seq<ContextView>, ranges: Seq<Range<usize>>) -> bool {
    splits_up_to(contexts, ranges, contexts.len() as int)
}

/// The files of each request.
pub open spec fn ranges_of(contexts: Seq<ContextView>) -> Seq<Range<usize>> {
    choose|ranges: Seq<Range<usize>>| splits(contexts, ranges)
}

/// The files of each request.
pub fn model_batch_ranges(contexts: &[AiFileContext]) -> (ranges: Vec<Range<usize>>)
    ensures
        ranges@ == ranges_of(records::context_views(contexts@)),
        splits(records::context_views(contexts@), ranges@),
        ranges@.len() <= contexts@.len(),
{
    let ghost views = records::context_views(contexts@);
    let mut ranges: Vec<Range<usize>> = Vec::new();
    if contexts.len() == 0 {
        proof {
            split_is_unique(views, ranges@, ranges_of(views));
        }
        return ranges;
    }
    let mut start: usize = 0;
    let mut current_bytes: usize = 0;
    let mut index: usize = 0;
    while index < contexts.len()
        invariant
            views == records::context_views(contexts@),
            start <= index <= contexts@.len(),
            index > 0 ==> start < index && is_batch(views, start as int, index as int),
            index == 0 ==> start == 0,
            current_bytes as nat == saturated(bytes_between(views, start as int, index as int)),
            splits_up_to(views, ranges@, start as int),
            ranges@.len() <= start,
        decreases contexts@.len() - index,
    {
        assert(views[index as int] == contexts@[index as int]@);
        let bytes = model_context_bytes(&contexts[index]);
        let count: usize = index - start;
        if count > 0 && (count >= AI_BATCH_SIZE || current_bytes.saturating_add(bytes)
            > MAX_BATCH_CONTEXT_BYTES) {
            proof {
                assert(is_full(views, start as int, index as int));
                one_more_batch(views, ranges@, start, index);
            }
            ranges.push(start..index);
            start = index;
            current_bytes = 0;
        }
        assert(bytes_between(views, start as int, index as int + 1) == bytes_between(
            views,
            start as int,
            index as int,
        ) + context_bytes(views[index as int]));
        current_bytes = current_bytes.saturating_add(bytes);
        index += 1;
    }
    proof {
        one_more_batch(views, ranges@, start, index);
    }
    ranges.push(start..contexts.len());
    proof {
        split_is_unique(views, ranges@, ranges_of(views));
    }
    ranges
}

// ---------------------------------------------------------------------------
// Laws
// ---------------------------------------------------------------------------

proof fn one_more_batch(
    contexts: Seq<ContextView>,
    ranges: Seq<Range<usize>>,
    start: usize,
    end: usize,
)
    requires
        splits_up_to(contexts, ranges, start as int),
        is_batch(contexts, start as int, end as int),
        is_full(contexts, start as int, end as int),
    ensures
        splits_up_to(contexts, ranges.push(start..end), end as int),
{
    let more = ranges.push(start..end);
    assert forall|i: int| 0 <= i < more.len() implies is_batch(
        contexts,
        (#[trigger] more[i]).start as int,
        more[i].end as int,
    ) && is_full(contexts, more[i].start as int, more[i].end as int) by {
        if i < ranges.len() {
            assert(more[i] == ranges[i]);
        }
    }
    assert forall|i: int, j: int| 0 <= i && j == i + 1 && j < more.len() implies (
    #[trigger] more[i]).end == (#[trigger] more[j]).start by {
        if j < ranges.len() {
            assert(ranges[i].end == ranges[j].start);
        } else {
            assert(ranges.last().end == start);
        }
    }
    if ranges.len() > 0 {
        assert(more[0] == ranges[0]);
    }
}

proof fn full_batch(contexts: Seq<ContextView>, from: int, to: int) -> (end: int)
    requires
        is_batch(contexts, from, to),
    ensures
        to <= end,
        is_batch(contexts, from, end),
        is_full(contexts, from, end),
    decreases contexts.len() - to,
{
    if is_full(contexts, from, to) {
        to
    } else {
        full_batch(contexts, from, to + 1)
    }
}

proof fn split_from(contexts: Seq<ContextView>, ranges: Seq<Range<usize>>, start: int) -> (all: Seq<
    Range<usize>,
>)
    requires
        contexts.len() <= usize::MAX,
        0 <= start <= contexts.len(),
        splits_up_to(contexts, ranges, start),
    ensures
        splits(contexts, all),
    decreases contexts.len() - start,
{
    if start == contexts.len() {
        ranges
    } else {
        let end = full_batch(contexts, start, start + 1);
        one_more_batch(contexts, ranges, start as usize, end as usize);
        split_from(contexts, ranges.push((start as usize)..(end as usize)), end)
    }
}

/// Files can be split into full requests.
pub proof fn a_split_exists(contexts: Seq<ContextView>)
    requires
        contexts.len() <= usize::MAX,
    ensures
        splits(contexts, ranges_of(contexts)),
{
    let all = split_from(contexts, Seq::empty(), 0);
    assert(splits(contexts, all));
}

/// There is one way only to split files into full requests.
pub proof fn split_is_unique(
    contexts: Seq<ContextView>,
    one: Seq<Range<usize>>,
    other: Seq<Range<usize>>,
)
    requires
        splits(contexts, one),
        splits(contexts, other),
    ensures
        one == other,
{
    same_beginning(contexts, one, other, one.len() as int);
    same_beginning(contexts, other, one, other.len() as int);
    assert(one =~= other);
}

proof fn same_beginning(
    contexts: Seq<ContextView>,
    one: Seq<Range<usize>>,
    other: Seq<Range<usize>>,
    n: int,
)
    requires
        splits(contexts, one),
        splits(contexts, other),
        0 <= n <= one.len(),
    ensures
        n <= other.len(),
        forall|i: int| 0 <= i < n ==> one[i] == other[i],
    decreases n,
{
    if n > 0 {
        let k = n - 1;
        same_beginning(contexts, one, other, k);
        let range = one[k];
        assert(is_batch(contexts, range.start as int, range.end as int));
        if k == 0 {
            assert(other.len() > 0);
        } else {
            assert(one[k - 1] == other[k - 1]);
            assert(one[k - 1].end == one[k].start);
            if other.len() == k {
                assert(other.last().end == contexts.len());
            }
            assert(other[k - 1].end == other[k].start);
        }
        let same = other[k];
        assert(range.start == same.start);
        assert(is_batch(contexts, same.start as int, same.end as int));
        if range.end < same.end {
            longer_is_bigger(contexts, range.start as int, range.end as int + 1, same.end as int);
        }
        if same.end < range.end {
            longer_is_bigger(contexts, range.start as int, same.end as int + 1, range.end as int);
        }
        assert(range.end == same.end);
        assert(range == same);
    }
}

/// More files are at least as big.
pub proof fn longer_is_bigger(contexts: Seq<ContextView>, from: int, to: int, further: int)
    requires
        from <= to <= further,
    ensures
        bytes_between(contexts, from, to) <= bytes_between(contexts, from, further),
    decreases further - to,
{
    if to < further {
        longer_is_bigger(contexts, from, to, further - 1);
    }
}

/// Every file is in exactly one request.
pub proof fn every_file_is_in_one_range(
    contexts: Seq<ContextView>,
    ranges: Seq<Range<usize>>,
    k: int,
)
    requires
        splits(contexts, ranges),
        0 <= k < contexts.len(),
    ensures
        exists|i: int|
            0 <= i < ranges.len() && (#[trigger] ranges[i]).start <= k < ranges[i].end,
        forall|i: int, j: int|
            0 <= i < ranges.len() && 0 <= j < ranges.len() && (#[trigger] ranges[i]).start <= k
                < ranges[i].end && (#[trigger] ranges[j]).start <= k < ranges[j].end ==> i == j,
{
    assert(ranges.len() > 0);
    let i = holder(contexts, ranges, k, ranges.len() - 1);
    assert(ranges[i].start <= k < ranges[i].end);
    assert forall|i: int, j: int|
        0 <= i < ranges.len() && 0 <= j < ranges.len() && (#[trigger] ranges[i]).start <= k
            < ranges[i].end && (#[trigger] ranges[j]).start <= k < ranges[j].end implies i == j by {
        if i < j {
            ranges_ascend(contexts, ranges, i, j);
        }
        if j < i {
            ranges_ascend(contexts, ranges, j, i);
        }
    }
}

proof fn holder(contexts: Seq<ContextView>, ranges: Seq<Range<usize>>, k: int, n: int) -> (i: int)
    requires
        splits(contexts, ranges),
        0 <= n < ranges.len(),
        0 <= k < ranges[n].end,
    ensures
        0 <= i <= n,
        ranges[i].start <= k < ranges[i].end,
    decreases n,
{
    if ranges[n].start <= k {
        n
    } else {
        assert(n > 0);
        assert(ranges[n - 1].end == ranges[n].start);
        holder(contexts, ranges, k, n - 1)
    }
}

/// A later request begins where an earlier one has ended, or behind it.
pub proof fn ranges_ascend(contexts: Seq<ContextView>, ranges: Seq<Range<usize>>, i: int, j: int)
    requires
        splits(contexts, ranges),
        0 <= i < j < ranges.len(),
    ensures
        ranges[i].end <= ranges[j].start,
    decreases j - i,
{
    assert(ranges[j - 1].end == ranges[j].start);
    if i < j - 1 {
        ranges_ascend(contexts, ranges, i, j - 1);
        assert(is_batch(contexts, ranges[j - 1].start as int, ranges[j - 1].end as int));
    }
}

/// Whether the ranges split the files into requests that keep to the limits, in order,
/// full or not.
pub open spec fn splits_somehow(contexts: Seq<ContextView>, ranges: Seq<Range<usize>>) -> bool {
    &&& ranges.len() == 0 ==> contexts.len() == 0
    &&& ranges.len() > 0 ==> ranges[0].start == 0 && ranges.last().end == contexts.len()
    &&& forall|i: int|
        0 <= i < ranges.len() ==> is_batch(
            contexts,
            (#[trigger] ranges[i]).start as int,
            ranges[i].end as int,
        )
    &&& forall|i: int, j: int|
        0 <= i && j == i + 1 && j < ranges.len() ==> (#[trigger] ranges[i]).end == (
        #[trigger] ranges[j]).start
}

proof fn earlier_is_bigger(contexts: Seq<ContextView>, earlier: int, from: int, to: int)
    requires
        earlier <= from <= to,
    ensures
        bytes_between(contexts, from, to) <= bytes_between(contexts, earlier, to),
    decreases to - from,
{
    if from < to {
        earlier_is_bigger(contexts, earlier, from, to - 1);
    }
}

proof fn full_requests_are_ahead(
    contexts: Seq<ContextView>,
    full: Seq<Range<usize>>,
    other: Seq<Range<usize>>,
    i: int,
)
    requires
        splits(contexts, full),
        splits_somehow(contexts, other),
        0 <= i < full.len(),
        i < other.len(),
    ensures
        other[i].end <= full[i].end,
    decreases i,
{
    if i > 0 {
        full_requests_are_ahead(contexts, full, other, i - 1);
        assert(full[i - 1].end == full[i].start);
        assert(other[i - 1].end == other[i].start);
    }
    let start = full[i].start as int;
    let end = full[i].end as int;
    let from = other[i].start as int;
    let to = other[i].end as int;
    assert(is_batch(contexts, start, end) && is_full(contexts, start, end));
    assert(is_batch(contexts, from, to));
    if end < to {
        longer_is_bigger(contexts, start, end + 1, to);
        earlier_is_bigger(contexts, from, start, to);
    }
}

/// No other way to split the files takes fewer requests.
pub proof fn full_requests_are_fewest(
    contexts: Seq<ContextView>,
    full: Seq<Range<usize>>,
    other: Seq<Range<usize>>,
)
    requires
        splits(contexts, full),
        splits_somehow(contexts, other),
    ensures
        full.len() <= other.len(),
{
    if other.len() < full.len() {
        let n = other.len() as int;
        assert(is_batch(contexts, full[n].start as int, full[n].end as int));
        if n > 0 {
            full_requests_are_ahead(contexts, full, other, n - 1);
            assert(full[n - 1].end == full[n].start);
        }
    }
}

} // verus!
