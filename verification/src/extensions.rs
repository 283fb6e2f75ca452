//! How often the extensions of a list of files occur. The counts name no file.

use crate::outside;
use crate::records;
use crate::records::{AiFileContext, ContextView, CountView, ExtensionCount};
use crate::text;
use vstd::prelude::*;

verus! {

/// The number of extensions that are named.
pub const MAX_EXTENSIONS: usize = 12;

/// Stands for the extension of a file that has none.
pub const NO_EXTENSION: &'static str = "без расширения";

/// Stands for the extensions that are not named.
pub const OTHER_EXTENSIONS: &'static str = "другие";

// ---------------------------------------------------------------------------
// Labels
// ---------------------------------------------------------------------------

/// What an extension is called.
pub open spec fn label(extension: Seq<char>) -> Seq<char> {
    if text::trim(extension).len() == 0 {
        NO_EXTENSION@
    } else {
        "."@ + outside::lowercase(text::trim(extension))
    }
}

/// What the extensions of the files are called.
pub open spec fn labels(contexts: Seq<ContextView>) -> Seq<Seq<char>> {
    Seq::new(contexts.len(), |i: int| label(contexts[i].extension))
}

/// How often a label occurs.
pub open spec fn occurrences(all: Seq<Seq<char>>, one: Seq<char>) -> nat
    decreases all.len(),
{
    if all.len() == 0 {
        0
    } else {
        occurrences(all.drop_last(), one) + if all.last() == one {
            1nat
        } else {
            0
        }
    }
}

/// Whether a count stands above another one: the larger first, and of two equal ones
/// that of the label that comes first.
pub open spec fn stands_above(a: CountView, b: CountView) -> bool {
    a.count > b.count || a.count == b.count && text::text_before(a.extension, b.extension)
}

/// Whether each count stands above those behind it.
pub open spec fn descends(counts: Seq<CountView>) -> bool {
    forall|i: int, j: int|
        #![trigger counts[i], counts[j]]
        0 <= i < j < counts.len() ==> stands_above(counts[i], counts[j])
}

/// Whether the counts tell, of each label, how often it occurs.
pub open spec fn counts_all(all: Seq<Seq<char>>, counts: Seq<CountView>) -> bool {
    &&& forall|i: int|
        0 <= i < counts.len() ==> {
            &&& (#[trigger] counts[i]).count == occurrences(all, counts[i].extension)
            &&& counts[i].count > 0
        }
    &&& forall|k: int| 0 <= k < all.len() ==> #[trigger] has_label(counts, all[k])
}

/// Whether there is a count for a label.
pub open spec fn has_label(counts: Seq<CountView>, one: Seq<char>) -> bool {
    exists|i: int| 0 <= i < counts.len() && (#[trigger] counts[i]).extension == one
}

/// Whether the counts tell how often each label occurs, the most frequent first.
pub open spec fn is_ranking(all: Seq<Seq<char>>, counts: Seq<CountView>) -> bool {
    counts_all(all, counts) && descends(counts)
}

/// How often each label occurs, the most frequent first.
pub open spec fn ranking(all: Seq<Seq<char>>) -> Seq<CountView> {
    choose|counts: Seq<CountView>| is_ranking(all, counts)
}

/// The sum of some counts.
pub open spec fn total(counts: Seq<CountView>) -> nat
    decreases counts.len(),
{
    if counts.len() == 0 {
        0
    } else {
        total(counts.drop_last()) + counts.last().count
    }
}

/// A ranking of which only the head is named.
pub open spec fn cut(counts: Seq<CountView>) -> Seq<CountView> {
    if counts.len() <= MAX_EXTENSIONS {
        counts
    } else {
        counts.take(MAX_EXTENSIONS as int).push(
            CountView {
                extension: OTHER_EXTENSIONS@,
                count: total(counts.skip(MAX_EXTENSIONS as int)),
            },
        )
    }
}

/// How often the extensions of the files occur.
pub open spec fn summary(contexts: Seq<ContextView>) -> Seq<CountView> {
    cut(ranking(labels(contexts)))
}

// ---------------------------------------------------------------------------
// There is only one ranking
// ---------------------------------------------------------------------------

proof fn above_is_a_strict_order(a: CountView, b: CountView)
    ensures
        !(stands_above(a, b) && stands_above(b, a)),
        stands_above(a, b) || stands_above(b, a) || a == b,
{
    if a.extension != b.extension {
        text::text_order_is_total(a.extension, b.extension);
    }
    if text::text_before(a.extension, b.extension) && text::text_before(b.extension, a.extension) {
        text::text_order_is_transitive(a.extension, b.extension, a.extension);
        text::text_order_is_irreflexive(a.extension);
    }
    text::text_order_is_irreflexive(a.extension);
}

proof fn descending_lists_agree(a: Seq<CountView>, b: Seq<CountView>)
    requires
        descends(a),
        descends(b),
        forall|x: CountView| a.contains(x) <==> b.contains(x),
    ensures
        a == b,
    decreases a.len(),
{
    if a.len() == 0 {
        if b.len() > 0 {
            assert(b.contains(b[0]));
            assert(a.contains(b[0]));
        }
        assert(a =~= b);
    } else {
        assert(a.contains(a[0]));
        let j = choose|j: int| 0 <= j < b.len() && b[j] == a[0];
        assert(b.contains(b[0]));
        let k = choose|k: int| 0 <= k < a.len() && a[k] == b[0];
        above_is_a_strict_order(a[0], b[0]);
        assert(a[0] == b[0]);
        let a1 = a.drop_first();
        let b1 = b.drop_first();
        assert forall|x: CountView| a1.contains(x) implies b1.contains(x) by {
            let i = choose|i: int| 0 <= i < a1.len() && a1[i] == x;
            assert(a[i + 1] == x);
            assert(stands_above(a[0], a[i + 1]));
            above_is_a_strict_order(a[0], x);
            assert(b.contains(x));
            let n = choose|n: int| 0 <= n < b.len() && b[n] == x;
            assert(n != 0);
            assert(b1[n - 1] == x);
        }
        assert forall|x: CountView| b1.contains(x) implies a1.contains(x) by {
            let i = choose|i: int| 0 <= i < b1.len() && b1[i] == x;
            assert(b[i + 1] == x);
            assert(stands_above(b[0], b[i + 1]));
            above_is_a_strict_order(b[0], x);
            assert(a.contains(x));
            let n = choose|n: int| 0 <= n < a.len() && a[n] == x;
            assert(n != 0);
            assert(a1[n - 1] == x);
        }
        descending_lists_agree(a1, b1);
        assert(a =~= seq![a[0]] + a1);
        assert(b =~= seq![b[0]] + b1);
    }
}

proof fn what_occurs_is_there(all: Seq<Seq<char>>, one: Seq<char>)
    requires
        occurrences(all, one) > 0,
    ensures
        exists|k: int| 0 <= k < all.len() && all[k] == one,
    decreases all.len(),
{
    if all.last() == one {
        assert(all[all.len() - 1] == one);
    } else {
        what_occurs_is_there(all.drop_last(), one);
        let k = choose|k: int| 0 <= k < all.drop_last().len() && all.drop_last()[k] == one;
        assert(all[k] == one);
    }
}

proof fn ranking_holds(all: Seq<Seq<char>>, a: Seq<CountView>, b: Seq<CountView>, x: CountView)
    requires
        counts_all(all, a),
        counts_all(all, b),
        a.contains(x),
    ensures
        b.contains(x),
{
    let i = choose|i: int| 0 <= i < a.len() && a[i] == x;
    assert(a[i].count > 0);
    what_occurs_is_there(all, x.extension);
    let k = choose|k: int| 0 <= k < all.len() && all[k] == x.extension;
    assert(has_label(b, all[k]));
    let j = choose|j: int| 0 <= j < b.len() && (#[trigger] b[j]).extension == x.extension;
    assert(b[j] == x);
}

/// There is only one ranking of a list of labels.
pub proof fn ranking_is_unique(all: Seq<Seq<char>>, a: Seq<CountView>, b: Seq<CountView>)
    requires
        is_ranking(all, a),
        is_ranking(all, b),
    ensures
        a == b,
{
    assert forall|x: CountView| a.contains(x) <==> b.contains(x) by {
        if a.contains(x) {
            ranking_holds(all, a, b, x);
        }
        if b.contains(x) {
            ranking_holds(all, b, a, x);
        }
    }
    descending_lists_agree(a, b);
}

// ---------------------------------------------------------------------------
// The counts of a ranking are those of all files
// ---------------------------------------------------------------------------

/// The labels without those that are equal to one of them.
spec fn without(all: Seq<Seq<char>>, one: Seq<char>) -> Seq<Seq<char>>
    decreases all.len(),
{
    if all.len() == 0 {
        all
    } else if all.last() == one {
        without(all.drop_last(), one)
    } else {
        without(all.drop_last(), one).push(all.last())
    }
}

proof fn without_keeps_the_rest(all: Seq<Seq<char>>, one: Seq<char>, other: Seq<char>)
    ensures
        without(all, one).len() + occurrences(all, one) == all.len(),
        occurrences(without(all, one), other) == if other == one {
            0
        } else {
            occurrences(all, other)
        },
        forall|k: int| 0 <= k < without(all, one).len() ==> #[trigger] all.contains(without(all, one)[k]),
        forall|k: int| 0 <= k < without(all, one).len() ==> #[trigger] without(all, one)[k] != one,
    decreases all.len(),
{
    if all.len() > 0 {
        let front = all.drop_last();
        let rest = without(front, one);
        without_keeps_the_rest(front, one, other);
        assert forall|k: int| 0 <= k < without(all, one).len() implies #[trigger] all.contains(
            without(all, one)[k],
        ) by {
            if k < rest.len() {
                assert(front.contains(rest[k]));
                let i = choose|i: int| 0 <= i < front.len() && front[i] == rest[k];
                assert(all[i] == rest[k]);
            } else {
                assert(all[all.len() - 1] == without(all, one)[k]);
            }
        }
        if all.last() != one {
            assert(without(all, one).drop_last() =~= rest);
            assert forall|k: int| 0 <= k < without(all, one).len() implies #[trigger] without(
                all,
                one,
            )[k] != one by {
                if k < rest.len() {
                    assert(rest[k] != one);
                }
            }
        }
    }
}

/// The counts of a ranking sum up to the number of labels.
pub proof fn ranking_counts_everything(all: Seq<Seq<char>>, counts: Seq<CountView>)
    requires
        is_ranking(all, counts),
    ensures
        total(counts) == all.len(),
    decreases counts.len(),
{
    if counts.len() == 0 {
        if all.len() > 0 {
            assert(has_label(counts, all[0]));
        }
    } else {
        let front = counts.drop_last();
        let last = counts.last();
        let rest = without(all, last.extension);
        assert(counts[counts.len() - 1].count == occurrences(all, last.extension));
        without_keeps_the_rest(all, last.extension, last.extension);
        assert(counts_all(rest, front)) by {
            assert forall|i: int| 0 <= i < front.len() implies {
                &&& (#[trigger] front[i]).count == occurrences(rest, front[i].extension)
                &&& front[i].count > 0
            } by {
                assert(counts[i] == front[i]);
                assert(stands_above(counts[i], counts[counts.len() - 1]));
                above_is_a_strict_order(counts[i], last);
                without_keeps_the_rest(all, last.extension, front[i].extension);
                text::text_order_is_irreflexive(last.extension);
            }
            assert forall|k: int| 0 <= k < rest.len() implies #[trigger] has_label(
                front,
                rest[k],
            ) by {
                assert(all.contains(rest[k]));
                let n = choose|n: int| 0 <= n < all.len() && all[n] == rest[k];
                assert(has_label(counts, all[n]));
                let i = choose|i: int|
                    0 <= i < counts.len() && (#[trigger] counts[i]).extension == rest[k];
                assert(rest[k] != last.extension);
                assert(front[i] == counts[i]);
            }
        }
        assert(descends(front)) by {
            assert forall|i: int, j: int|
                #![trigger front[i], front[j]]
                0 <= i < j < front.len() implies stands_above(front[i], front[j]) by {
                assert(counts[i] == front[i] && counts[j] == front[j]);
            }
        }
        ranking_counts_everything(rest, front);
    }
}

proof fn total_of_parts(counts: Seq<CountView>, n: int)
    requires
        0 <= n <= counts.len(),
    ensures
        total(counts) == total(counts.take(n)) + total(counts.skip(n)),
    decreases counts.len(),
{
    if n == counts.len() {
        assert(counts.take(n) =~= counts);
    } else {
        total_of_parts(counts.drop_last(), n);
        assert(counts.drop_last().take(n) =~= counts.take(n));
        assert(counts.drop_last().skip(n) =~= counts.skip(n).drop_last());
    }
}

/// Cutting a ranking keeps the sum of its counts.
pub proof fn cut_counts_everything(counts: Seq<CountView>)
    ensures
        total(cut(counts)) == total(counts),
        cut(counts).len() <= MAX_EXTENSIONS + 1,
{
    if counts.len() > MAX_EXTENSIONS {
        total_of_parts(counts, MAX_EXTENSIONS as int);
        assert(cut(counts).drop_last() =~= counts.take(MAX_EXTENSIONS as int));
    }
}

// ---------------------------------------------------------------------------
// Counting
// ---------------------------------------------------------------------------

/// What an extension is called.
pub fn extension_label(extension: &str) -> (called: String)
    ensures
        called@ == label(extension@),
{
    let chars = text::chars_of(extension);
    let trimmed = text::trimmed(&chars);
    if trimmed.len() == 0 {
        NO_EXTENSION.to_owned()
    } else {
        let mut called = ".".to_owned();
        called.append(&text::string_of(trimmed).to_lowercase());
        called
    }
}

/// Counts one more label.
fn count_label(counts: &mut Vec<ExtensionCount>, called: String, Ghost(all): Ghost<Seq<Seq<char>>>)
    requires
        counts_all(all, records::count_views(old(counts)@)),
        distinct(records::count_views(old(counts)@)),
        all.len() < usize::MAX,
    ensures
        counts_all(all.push(called@), records::count_views(final(counts)@)),
        distinct(records::count_views(final(counts)@)),
{
    let ghost before = records::count_views(counts@);
    let ghost more = all.push(called@);
    proof {
        assert(more.drop_last() =~= all);
        occurrences_fit(all, called@);
    }
    let mut i: usize = 0;
    while i < counts.len()
        invariant
            before == records::count_views(counts@),
            i <= counts@.len(),
            forall|j: int| 0 <= j < i ==> (#[trigger] before[j]).extension != called@,
        ensures
            i <= counts@.len(),
            i < counts@.len() ==> before[i as int].extension == called@,
            i == counts@.len() ==> !has_label(before, called@),
        decreases counts@.len() - i,
    {
        assert(before[i as int] == counts@[i as int]@);
        if text::same_text(&counts[i].extension, &called) {
            break ;
        }
        i += 1;
    }
    if i < counts.len() {
        assert(before[i as int] == counts@[i as int]@);
        let entry = &mut counts[i];
        entry.count = entry.count + 1;
        let ghost after = records::count_views(counts@);
        proof {
            assert(after =~= before.update(
                i as int,
                CountView { extension: called@, count: before[i as int].count + 1 },
            ));
            assert forall|k: int| 0 <= k < more.len() implies #[trigger] has_label(
                after,
                more[k],
            ) by {
                if k < all.len() {
                    assert(has_label(before, all[k]));
                    let n = choose|n: int|
                        0 <= n < before.len() && (#[trigger] before[n]).extension == all[k];
                    assert(after[n].extension == more[k]);
                } else {
                    assert(after[i as int].extension == more[k]);
                }
            }
            assert(counts_all(more, after));
        }
    } else {
        let ghost old_counts = counts@;
        let ghost name = called@;
        counts.push(ExtensionCount { extension: called, count: 1 });
        let ghost after = records::count_views(counts@);
        proof {
            assert(after =~= before.push(CountView { extension: name, count: 1 }));
            if occurrences(all, name) > 0 {
                what_occurs_is_there(all, name);
                let k = choose|k: int| 0 <= k < all.len() && all[k] == name;
                assert(has_label(before, all[k]));
            }
            assert forall|k: int| 0 <= k < more.len() implies #[trigger] has_label(
                after,
                more[k],
            ) by {
                if k < all.len() {
                    assert(has_label(before, all[k]));
                    let n = choose|n: int|
                        0 <= n < before.len() && (#[trigger] before[n]).extension == all[k];
                    assert(after[n].extension == more[k]);
                } else {
                    assert(after[before.len() as int].extension == more[k]);
                }
            }
            assert forall|n: int| 0 <= n < before.len() implies (#[trigger] before[n]).extension
                != name by {
                assert(!has_label(before, name));
            }
            assert(counts_all(more, after));
        }
    }
}

/// Whether no label is counted twice.
spec fn distinct(counts: Seq<CountView>) -> bool {
    forall|i: int, j: int|
        #![trigger counts[i], counts[j]]
        0 <= i < j < counts.len() ==> counts[i].extension != counts[j].extension
}

proof fn occurrences_fit(all: Seq<Seq<char>>, one: Seq<char>)
    ensures
        occurrences(all, one) <= all.len(),
    decreases all.len(),
{
    if all.len() > 0 {
        occurrences_fit(all.drop_last(), one);
    }
}

// ---------------------------------------------------------------------------
// Ranking
// ---------------------------------------------------------------------------

fn is_above(a: &ExtensionCount, b: &ExtensionCount) -> (above: bool)
    ensures
        above == stands_above(a@, b@),
{
    if a.count != b.count {
        a.count > b.count
    } else {
        let left = text::chars_of(&a.extension);
        let right = text::chars_of(&b.extension);
        text::stands_before(&left, &right)
    }
}

proof fn above_is_transitive(a: CountView, b: CountView, c: CountView)
    requires
        stands_above(a, b),
        stands_above(b, c),
    ensures
        stands_above(a, c),
{
    if a.count == b.count && b.count == c.count {
        text::text_order_is_transitive(a.extension, b.extension, c.extension);
    }
}

/// Puts a count where it belongs.
fn place(sorted: &mut Vec<ExtensionCount>, entry: ExtensionCount)
    requires
        descends(records::count_views(old(sorted)@)),
        forall|i: int|
            0 <= i < old(sorted)@.len() ==> (#[trigger] records::count_views(
                old(sorted)@,
            )[i]).extension != entry@.extension,
    ensures
        descends(records::count_views(final(sorted)@)),
        exists|p: int|
            0 <= p <= old(sorted)@.len() && records::count_views(final(sorted)@)
                == #[trigger] records::count_views(old(sorted)@).insert(p, entry@),
{
    let ghost before = records::count_views(sorted@);
    let mut p: usize = 0;
    while p < sorted.len() && !is_above(&entry, &sorted[p])
        invariant
            before == records::count_views(sorted@),
            p <= sorted@.len(),
            forall|i: int| 0 <= i < p ==> !stands_above(entry@, #[trigger] before[i]),
        decreases sorted@.len() - p,
    {
        assert(before[p as int] == sorted@[p as int]@);
        p += 1;
    }
    let ghost one = entry@;
    proof {
        if p < sorted@.len() {
            assert(before[p as int] == sorted@[p as int]@);
        }
    }
    sorted.insert(p, entry);
    let ghost after = records::count_views(sorted@);
    proof {
        assert(after =~= before.insert(p as int, one));
        assert forall|i: int, j: int|
            #![trigger after[i], after[j]]
            0 <= i < j < after.len() implies stands_above(after[i], after[j]) by {
            let from = if i < p {
                i
            } else {
                i - 1
            };
            let to = if j < p {
                j
            } else {
                j - 1
            };
            if i == p {
                assert(after[j] == before[to]);
                if to > p {
                    assert(stands_above(before[p as int], before[to]));
                    above_is_transitive(one, before[p as int], before[to]);
                }
            } else if j == p {
                assert(after[i] == before[from]);
                above_is_a_strict_order(one, before[from]);
            } else {
                assert(after[i] == before[from]);
                assert(after[j] == before[to]);
            }
        }
    }
}

/// Puts counts of distinct labels into their order.
fn rank(counts: Vec<ExtensionCount>) -> (sorted: Vec<ExtensionCount>)
    requires
        distinct(records::count_views(counts@)),
    ensures
        descends(records::count_views(sorted@)),
        forall|x: CountView|
            records::count_views(sorted@).contains(x) <==> records::count_views(
                counts@,
            ).contains(x),
{
    let ghost start = records::count_views(counts@);
    let mut left = counts;
    let mut sorted: Vec<ExtensionCount> = Vec::new();
    assert(records::count_views(sorted@).len() == 0);
    while left.len() > 0
        invariant
            left@.len() <= start.len(),
            distinct(start),
            forall|i: int| 0 <= i < left@.len() ==> (#[trigger] left@[i])@ == start[i],
            descends(records::count_views(sorted@)),
            forall|x: CountView|
                #![trigger records::count_views(sorted@).contains(x)]
                #![trigger start.skip(left@.len() as int).contains(x)]
                records::count_views(sorted@).contains(x) <==> start.skip(
                    left@.len() as int,
                ).contains(x),
        decreases left@.len(),
    {
        let ghost n = left@.len() - 1;
        let ghost before = records::count_views(sorted@);
        let ghost behind = start.skip(n + 1);
        let entry = match left.pop() {
            Some(entry) => entry,
            None => {
                return sorted;
            },
        };
        let ghost one = entry@;
        assert(one == start[n]);
        assert forall|i: int| 0 <= i < before.len() implies (#[trigger] before[i]).extension
            != one.extension by {
            assert(before.contains(before[i]));
            assert(behind.contains(before[i]));
            let k = choose|k: int| 0 <= k < behind.len() && behind[k] == before[i];
            assert(start[n + 1 + k] == before[i]);
        }
        place(&mut sorted, entry);
        let ghost after = records::count_views(sorted@);
        let ghost p = choose|p: int|
            0 <= p <= before.len() && after == #[trigger] before.insert(p, one);
        proof {
            let from = start.skip(n);
            assert forall|x: CountView| after.contains(x) <==> from.contains(x) by {
                if after.contains(x) {
                    let i = choose|i: int| 0 <= i < after.len() && after[i] == x;
                    if i == p {
                        assert(from[0] == x);
                    } else {
                        let b = if i < p {
                            i
                        } else {
                            i - 1
                        };
                        assert(before[b] == x);
                        assert(before.contains(x));
                        assert(behind.contains(x));
                        let k = choose|k: int| 0 <= k < behind.len() && behind[k] == x;
                        assert(from[k + 1] == x);
                    }
                }
                if from.contains(x) {
                    let k = choose|k: int| 0 <= k < from.len() && from[k] == x;
                    if k == 0 {
                        assert(after[p] == x);
                    } else {
                        assert(behind[k - 1] == x);
                        assert(behind.contains(x));
                        assert(before.contains(x));
                        let b = choose|b: int| 0 <= b < before.len() && before[b] == x;
                        let i = if b < p {
                            b
                        } else {
                            b + 1
                        };
                        assert(after[i] == x);
                    }
                }
            }
            assert(left@.len() == n);
        }
    }
    assert(start.skip(0) =~= start);
    sorted
}

fn sum_from(counts: &Vec<ExtensionCount>, from: usize) -> (sum: usize)
    requires
        from <= counts@.len(),
        total(records::count_views(counts@).skip(from as int)) <= usize::MAX,
    ensures
        sum as nat == total(records::count_views(counts@).skip(from as int)),
{
    let ghost all = records::count_views(counts@).skip(from as int);
    let mut sum: usize = 0;
    let mut i: usize = from;
    assert(all.take(0) =~= Seq::<CountView>::empty());
    while i < counts.len()
        invariant
            from <= i <= counts@.len(),
            all == records::count_views(counts@).skip(from as int),
            sum as nat == total(all.take(i - from)),
            total(all) <= usize::MAX,
        decreases counts@.len() - i,
    {
        let ghost part = all.take(i + 1 - from);
        proof {
            assert(part.drop_last() =~= all.take(i - from));
            assert(part.last() == counts@[i as int]@);
            total_of_parts(all, i + 1 - from);
        }
        sum += counts[i].count;
        i += 1;
    }
    assert(all.take(i - from) =~= all);
    sum
}

/// How often the extensions of the files occur, the most frequent first. Only so many
/// are named; the files of the others are counted together.
pub fn extension_summary(contexts: &[AiFileContext]) -> (counts: Vec<ExtensionCount>)
    ensures
        records::count_views(counts@) == summary(records::context_views(contexts@)),
        is_ranking(
            labels(records::context_views(contexts@)),
            ranking(labels(records::context_views(contexts@))),
        ),
        total(records::count_views(counts@)) == contexts@.len(),
{
    let ghost all = labels(records::context_views(contexts@));
    let mut counts: Vec<ExtensionCount> = Vec::new();
    assert(records::count_views(counts@).len() == 0);
    for i in 0..contexts.len()
        invariant
            all == labels(records::context_views(contexts@)),
            counts_all(all.take(i as int), records::count_views(counts@)),
            distinct(records::count_views(counts@)),
    {
        let called = extension_label(&contexts[i].extension);
        assert(records::context_views(contexts@)[i as int] == contexts@[i as int]@);
        assert(all.take(i as int + 1) =~= all.take(i as int).push(called@));
        count_label(&mut counts, called, Ghost(all.take(i as int)));
    }
    assert(all.take(contexts@.len() as int) =~= all);
    let ghost unsorted = records::count_views(counts@);
    let mut sorted = rank(counts);
    let ghost full = records::count_views(sorted@);
    proof {
        assert forall|i: int| 0 <= i < full.len() implies {
            &&& (#[trigger] full[i]).count == occurrences(all, full[i].extension)
            &&& full[i].count > 0
        } by {
            assert(full.contains(full[i]));
            let k = choose|k: int| 0 <= k < unsorted.len() && unsorted[k] == full[i];
            assert(unsorted[k].count > 0);
        }
        assert forall|k: int| 0 <= k < all.len() implies #[trigger] has_label(full, all[k]) by {
            assert(has_label(unsorted, all[k]));
            let n = choose|n: int|
                0 <= n < unsorted.len() && (#[trigger] unsorted[n]).extension == all[k];
            assert(unsorted.contains(unsorted[n]));
            assert(full.contains(unsorted[n]));
            let i = choose|i: int| 0 <= i < full.len() && full[i] == unsorted[n];
            assert(full[i].extension == all[k]);
        }
        assert(is_ranking(all, full));
        ranking_is_unique(all, full, ranking(all));
        ranking_counts_everything(all, full);
        cut_counts_everything(full);
    }
    if sorted.len() > MAX_EXTENSIONS {
        proof {
            total_of_parts(full, MAX_EXTENSIONS as int);
        }
        let other: usize = sum_from(&sorted, MAX_EXTENSIONS);
        sorted.truncate(MAX_EXTENSIONS);
        assert(records::count_views(sorted@) =~= full.take(MAX_EXTENSIONS as int));
        sorted.push(ExtensionCount { extension: OTHER_EXTENSIONS.to_owned(), count: other });
        assert(records::count_views(sorted@) =~= cut(full));
    }
    sorted
}

} // verus!
