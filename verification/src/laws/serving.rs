//! What is asked of a service, and how its answers are read.

use crate::addresses;
use crate::diagnostics;
use crate::endpoints;
use crate::laws::texts;
use crate::models;
use crate::models::EntryView;
use crate::outside;
use crate::records;
use crate::records::{AiSettings, Confidence};
use crate::replies;
use crate::replies::SpokenView;
use crate::text;
use vstd::prelude::*;

verus! {

// ---------------------------------------------------------------------------
// Addresses of a service
// ---------------------------------------------------------------------------

proof fn marks_at_the_end_go(s: Seq<char>, c: char, marks: Seq<char>)
    requires
        s.len() > 0 ==> s.last() != c,
        forall|i: int| 0 <= i < marks.len() ==> (#[trigger] marks[i]) == c,
    ensures
        text::trim_end_any(s + marks, seq![c]) == s,
    decreases marks.len(),
{
    let set = seq![c];
    assert(set[0] == c);
    if marks.len() == 0 {
        assert(s + marks =~= s);
        if s.len() > 0 && set.contains(s.last()) {
            let k = choose|k: int| 0 <= k < set.len() && set[k] == s.last();
        }
    } else {
        assert((s + marks).last() == marks[marks.len() - 1]);
        assert(set.contains(c));
        assert((s + marks).drop_last() =~= s + marks.drop_last());
        marks_at_the_end_go(s, c, marks.drop_last());
    }
}

proof fn one_ending_goes(s: Seq<char>, ending: Seq<char>)
    requires
        ending.len() > 0,
        !text::ends_with(s, ending),
    ensures
        text::trim_end_text(s + ending, ending) == s,
        text::trim_end_text(s, ending) == s,
{
    let whole = s + ending;
    texts::a_part_stands_in_the_whole(s, ending, Seq::empty());
    assert(whole.take(whole.len() - ending.len()) =~= s);
    reveal_with_fuel(text::trim_end_text, 2);
}

/// Where a service is asked: behind its address, without the slashes at the end of it, stands what
/// belongs to the question and to the kind of the service. LM Studio and Ollama list their models
/// outside the versioned interface, and the models of Ollama are asked inside it.
pub proof fn questions_go_to_their_addresses(
    ai: AiSettings,
    place: Seq<char>,
    versioned: bool,
    slashes: Seq<char>,
)
    requires
        place.len() > 0 ==> place.last() != '/',
        !text::ends_with(place, "/v1"@),
        forall|i: int| 0 <= i < slashes.len() ==> (#[trigger] slashes[i]) == '/',
        ai.base_url@ == if versioned {
            place + "/v1"@ + slashes
        } else {
            place + slashes
        },
    ensures
        ({
            let given = if versioned {
                place + "/v1"@
            } else {
                place
            };
            &&& ai.provider@ == "ollama"@ ==> endpoints::chat_url(ai) == place
                + "/v1/chat/completions"@
            &&& ai.provider@ != "ollama"@ ==> endpoints::chat_url(ai) == given
                + "/chat/completions"@
            &&& ai.provider@ == "ollama"@ ==> endpoints::test_url(ai) == place + "/api/tags"@
            &&& ai.provider@ != "ollama"@ ==> endpoints::test_url(ai) == given + "/models"@
            &&& ai.provider@ == "lmstudio"@ ==> endpoints::list_url(ai) == place
                + "/api/v1/models"@
            &&& ai.provider@ == "ollama"@ ==> endpoints::list_url(ai) == place + "/api/tags"@
            &&& ai.provider@ != "lmstudio"@ && ai.provider@ != "ollama"@ ==> endpoints::list_url(ai)
                == given + "/models"@
        }),
{
    addresses_are_read(ai, place, versioned, slashes);
    services_differ();
    let given = if versioned {
        place + "/v1"@
    } else {
        place
    };
    assert(place + "/v1"@ + "/chat/completions"@ =~= place + ("/v1"@ + "/chat/completions"@));
}

proof fn services_differ()
    ensures
        "ollama"@ != "lmstudio"@,
        "/v1/chat/completions"@ == "/v1"@ + "/chat/completions"@,
{
    reveal_strlit("/v1");
    reveal_strlit("ollama");
    reveal_strlit("lmstudio");
    reveal_strlit("/v1/chat/completions");
    reveal_strlit("/chat/completions");
    assert("ollama"@[0] == 'o' && "lmstudio"@[0] == 'l');
    assert("/v1/chat/completions"@ =~= "/v1"@ + "/chat/completions"@);
}

proof fn addresses_are_read(ai: AiSettings, place: Seq<char>, versioned: bool, slashes: Seq<char>)
    requires
        place.len() > 0 ==> place.last() != '/',
        !text::ends_with(place, "/v1"@),
        forall|i: int| 0 <= i < slashes.len() ==> (#[trigger] slashes[i]) == '/',
        ai.base_url@ == if versioned {
            place + "/v1"@ + slashes
        } else {
            place + slashes
        },
    ensures
        endpoints::base(ai) == if versioned {
            place + "/v1"@
        } else {
            place
        },
        endpoints::unversioned(ai) == place,
        text::ends_with(endpoints::base(ai), "/v1"@) == versioned,
{
    reveal_strlit("/v1");
    let given = if versioned {
        place + "/v1"@
    } else {
        place
    };
    assert(versioned ==> given.last() == '1');
    marks_at_the_end_go(given, '/', slashes);
    one_ending_goes(place, "/v1"@);
    texts::a_part_stands_in_the_whole(place, "/v1"@, Seq::empty());
}

/// A request carries the key, as it was given, where that is not blank; else it carries none.
pub proof fn keys_are_sent_as_they_are(ai: AiSettings)
    ensures
        text::trim(ai.api_key@).len() > 0 ==> endpoints::bearer(ai) == Some(ai.api_key@),
        text::trim(ai.api_key@).len() == 0 ==> endpoints::bearer(ai) is None,
{
}

/// A service without an address is not asked, and that is said; any other is asked at the address that
/// belongs to the question, with the key.
pub proof fn services_need_an_address(
    ai: AiSettings,
    request: Result<endpoints::ServiceRequest, String>,
    url: Seq<char>,
)
    requires
        endpoints::is_asked(request, ai, url),
    ensures
        text::trim(ai.base_url@).len() == 0 <==> request is Err,
        request is Err ==> request->Err_0@ == "Укажите базовый URL"@,
        request is Ok ==> request->Ok_0.url@ == url,
        request is Ok && text::trim(ai.api_key@).len() > 0 ==> request->Ok_0.bearer is Some
            && request->Ok_0.bearer->0@ == ai.api_key@,
        request is Ok && text::trim(ai.api_key@).len() == 0 ==> request->Ok_0.bearer is None,
{
}

/// What stands in the way of an analysis: a model without a name first, and else files that would
/// leave this computer without consent.
pub proof fn objections_are_named(model: Seq<char>, local: bool, consent: bool)
    ensures
        text::trim(model).len() == 0 ==> endpoints::objection(model, local, consent) == Some(
            "Укажите имя модели"@,
        ),
        text::trim(model).len() > 0 && !local && !consent ==> endpoints::objection(
            model,
            local,
            consent,
        ) == Some("Нужно подтвердить передачу данных в облако"@),
        text::trim(model).len() > 0 && (local || consent) ==> endpoints::objection(
            model,
            local,
            consent,
        ) is None,
{
}

/// What is said where a service does not answer: that it took too long, in so many words, or what is to be
/// shown of the error.
pub proof fn silent_services_are_told_of(failure: endpoints::ServiceFailure)
    ensures
        failure is TimedOut ==> endpoints::test_failure_message(failure)
            == "Сервис не ответил за 8 секунд"@ && endpoints::list_failure_message(failure)
            == "Список моделей не получен за 12 секунд"@,
        failure matches endpoints::ServiceFailure::Unreachable(error)
            ==> endpoints::test_failure_message(failure) == diagnostics::error_detail(
            "Сервис не ответил: "@ + error@,
        ) && endpoints::list_failure_message(failure) == diagnostics::error_detail(
            "Не удалось получить модели: "@ + error@,
        ),
        failure matches endpoints::ServiceFailure::Refused(error)
            ==> endpoints::test_failure_message(failure) == diagnostics::error_detail(
            "Сервис вернул ошибку HTTP: "@ + error@,
        ) && endpoints::list_failure_message(failure) == diagnostics::error_detail(
            "Сервис вернул ошибку HTTP: "@ + error@,
        ),
{
}

// ---------------------------------------------------------------------------
// This computer
// ---------------------------------------------------------------------------

proof fn pieces_of_a_joined_text(a: Seq<char>, separator: char, b: Seq<char>)
    ensures
        addresses::split(a + seq![separator] + b, separator) == addresses::split(a, separator)
            + addresses::split(b, separator),
        addresses::split(a, separator).len() > 0,
    decreases b.len(),
{
    let whole = a + seq![separator] + b;
    some_pieces(a, separator);
    if b.len() == 0 {
        assert(whole.drop_last() =~= a);
        assert(whole.last() == separator);
        assert(addresses::split(whole, separator) =~= addresses::split(a, separator)
            + addresses::split(b, separator));
    } else {
        pieces_of_a_joined_text(a, separator, b.drop_last());
        some_pieces(b.drop_last(), separator);
        assert(whole.drop_last() =~= a + seq![separator] + b.drop_last());
        assert(whole.last() == b.last());
        let one = addresses::split(a, separator);
        let other = addresses::split(b.drop_last(), separator);
        assert((one + other).last() == other.last());
        assert(addresses::split(whole, separator) =~= one + addresses::split(b, separator));
    }
}

proof fn some_pieces(s: Seq<char>, separator: char)
    ensures
        addresses::split(s, separator).len() > 0,
    decreases s.len(),
{
    if s.len() > 0 {
        some_pieces(s.drop_last(), separator);
    }
}

proof fn a_single_piece(s: Seq<char>, separator: char)
    requires
        forall|i: int| 0 <= i < s.len() ==> (#[trigger] s[i]) != separator,
    ensures
        addresses::split(s, separator) == seq![s],
    decreases s.len(),
{
    if s.len() == 0 {
        assert(s =~= Seq::<char>::empty());
    } else {
        assert(s[s.len() - 1] != separator);
        assert forall|i: int| 0 <= i < s.drop_last().len() implies (#[trigger] s.drop_last()[i])
            != separator by {
            assert(s.drop_last()[i] == s[i]);
        }
        a_single_piece(s.drop_last(), separator);
        assert(s.drop_last().push(s.last()) =~= s);
        assert(addresses::split(s, separator) =~= seq![s]);
    }
}

proof fn the_first_piece_is_the_front(s: Seq<char>, separator: char)
    ensures
        ({
            let pieces = addresses::split(s, separator);
            &&& pieces.len() > 0
            &&& pieces[0].len() <= s.len()
            &&& s.take(pieces[0].len() as int) == pieces[0]
            &&& pieces.len() == 1 ==> pieces[0] == s
            &&& pieces.len() > 1 ==> pieces[0].len() < s.len() && s[pieces[0].len() as int]
                == separator
        }),
    decreases s.len(),
{
    let pieces = addresses::split(s, separator);
    if s.len() == 0 {
        assert(s.take(0) =~= pieces[0]);
        assert(pieces[0] =~= s);
    } else {
        let front = s.drop_last();
        the_first_piece_is_the_front(front, separator);
        let before = addresses::split(front, separator);
        if before.len() > 1 || s.last() == separator {
            assert(pieces[0] == before[0]);
            assert(s.take(pieces[0].len() as int) =~= front.take(pieces[0].len() as int));
        } else {
            assert(pieces[0] =~= s);
            assert(s.take(s.len() as int) =~= s);
        }
    }
}

proof fn hosts_stand_bare(host: Seq<char>)
    requires
        host.len() > 0,
        host[0] != '[',
        host.last() != ']',
        host.last() != '.',
    ensures
        addresses::bare_host(host) == host,
{
    let empty = Seq::<char>::empty();
    let open = seq!['['];
    if open.contains(host[0]) {
        let k = choose|k: int| 0 <= k < open.len() && open[k] == host[0];
    }
    assert(text::trim_start_any(host, open) == host);
    assert(host + empty =~= host);
    marks_at_the_end_go(host, ']', empty);
    marks_at_the_end_go(host, '.', empty);
}

/// Dots at the end of a host and brackets round it do not count.
pub proof fn dots_and_brackets_do_not_count(host: Seq<char>, dots: Seq<char>)
    requires
        host.len() > 0,
        host[0] != '[',
        host.last() != ']',
        host.last() != '.',
        forall|i: int| 0 <= i < dots.len() ==> (#[trigger] dots[i]) == '.',
    ensures
        addresses::is_loopback(host + dots) == addresses::is_loopback(host),
        addresses::is_loopback(seq!['['] + host + seq![']']) == addresses::is_loopback(host),
{
    hosts_stand_bare(host);
    let empty = Seq::<char>::empty();
    let open = seq!['['];
    let dotted = host + dots;
    assert(dotted[0] == host[0]);
    if open.contains(dotted[0]) {
        let k = choose|k: int| 0 <= k < open.len() && open[k] == dotted[0];
    }
    assert(text::trim_start_any(dotted, open) == dotted);
    assert(dotted.last() != ']') by {
        if dots.len() > 0 {
            assert(dotted.last() == dots[dots.len() - 1]);
        } else {
            assert(dotted =~= host);
        }
    }
    assert(dotted + empty =~= dotted);
    marks_at_the_end_go(dotted, ']', empty);
    marks_at_the_end_go(host, '.', dots);
    assert(addresses::bare_host(dotted) == host);
    let closed = host + seq![']'];
    let boxed = seq!['['] + host + seq![']'];
    assert(open[0] == '[');
    assert(open.contains('['));
    assert(boxed[0] == '[');
    assert(boxed.drop_first() =~= closed);
    assert(closed[0] == host[0]);
    if open.contains(closed[0]) {
        let k = choose|k: int| 0 <= k < open.len() && open[k] == closed[0];
    }
    assert(text::trim_start_any(closed, open) == closed);
    assert(text::trim_start_any(boxed, open) == closed);
    marks_at_the_end_go(host, ']', seq![']']);
    assert(host + empty =~= host);
    marks_at_the_end_go(host, '.', empty);
    assert(addresses::bare_host(boxed) == host);
}

/// This computer is called localhost, in whatever case, or has an address of version 4 whose first
/// byte is 127.
pub proof fn this_computer_is_known(host: Seq<char>, a: nat, b: nat, c: nat)
    requires
        a <= 255,
        b <= 255,
        c <= 255,
    ensures
        text::ascii_lower_text(host) == "localhost"@ ==> addresses::is_loopback(host),
        addresses::is_loopback(
            text::decimal(127) + seq!['.'] + (text::decimal(a) + seq!['.'] + (text::decimal(b)
                + seq!['.'] + text::decimal(c))),
        ),
{
    reveal_strlit("localhost");
    if text::ascii_lower_text(host) == "localhost"@ {
        let lower = text::ascii_lower_text(host);
        assert(lower.len() == host.len());
        assert(lower[0] == 'l' && lower[8] == 't');
        assert(lower[0] == text::ascii_lower(host[0]) && lower[8] == text::ascii_lower(host[8]));
        marks_have_no_case(host[0]);
        marks_have_no_case(host[8]);
        hosts_stand_bare(host);
    }
    let da = text::decimal(a);
    let db = text::decimal(b);
    let dc = text::decimal(c);
    let first = text::decimal(127);
    let end = db + seq!['.'] + dc;
    let middle = da + seq!['.'] + end;
    let whole = first + seq!['.'] + middle;
    numbers_hold_no_dot(127);
    numbers_hold_no_dot(a);
    numbers_hold_no_dot(b);
    numbers_hold_no_dot(c);
    a_single_piece(first, '.');
    a_single_piece(da, '.');
    a_single_piece(db, '.');
    a_single_piece(dc, '.');
    pieces_of_a_joined_text(db, '.', dc);
    pieces_of_a_joined_text(da, '.', end);
    pieces_of_a_joined_text(first, '.', middle);
    assert(addresses::split(whole, '.') =~= seq![first, da, db, dc]);
    assert(whole[0] == first[0] && whole.last() == dc.last());
    hosts_stand_bare(whole);
    assert(addresses::is_loopback_v4(whole));
}

proof fn marks_have_no_case(c: char)
    ensures
        text::ascii_lower(c) != '[' ==> c != '[',
        text::ascii_lower(c) != ']' ==> c != ']',
        text::ascii_lower(c) != '.' ==> c != '.',
{
}

proof fn numbers_hold_no_dot(n: nat)
    ensures
        text::decimal(n).len() > 0,
        text::decimal(n)[0] != '[',
        text::decimal(n).last() != ']',
        text::decimal(n).last() != '.',
        forall|i: int| 0 <= i < text::decimal(n).len() ==> (#[trigger] text::decimal(n)[i]) != '.',
{
    text::decimal_is_digits(n);
    texts::decimals_are_read_back(n);
    let digits = text::decimal(n);
    assert('0' <= digits[0] && digits[0] <= '9');
    assert('0' <= digits[digits.len() - 1] && digits[digits.len() - 1] <= '9');
    digits_are_no_marks(digits[0]);
    digits_are_no_marks(digits[digits.len() - 1]);
    assert forall|i: int| 0 <= i < digits.len() implies (#[trigger] digits[i]) != '.' by {
        assert('0' <= digits[i] && digits[i] <= '9');
        digits_are_no_marks(digits[i]);
    }
}

proof fn digits_are_no_marks(c: char)
    requires
        '0' <= c && c <= '9',
    ensures
        c != '.',
        c != '[',
        c != ']',
{
}

/// The groups of an address, with colons between them.
pub open spec fn with_colons(groups: Seq<Seq<char>>) -> Seq<char>
    decreases groups.len(),
{
    if groups.len() == 0 {
        Seq::empty()
    } else if groups.len() == 1 {
        groups[0]
    } else {
        with_colons(groups.drop_last()) + seq![':'] + groups.last()
    }
}

/// Whether a text is a group of up to four digits of which only the last may differ from zero.
pub open spec fn is_small_group(group: Seq<char>, last: char) -> bool {
    &&& 1 <= group.len() <= 4
    &&& group.last() == last
    &&& forall|i: int| 0 <= i < group.len() - 1 ==> (#[trigger] group[i]) == '0'
}

proof fn groups_hold_no_colon(group: Seq<char>, last: char)
    requires
        is_small_group(group, last),
        last == '0' || last == '1',
    ensures
        addresses::split(group, ':') == seq![group],
        last == '0' ==> addresses::is_zero_group(group),
        last == '1' ==> addresses::is_one_group(group),
{
    assert forall|i: int| 0 <= i < group.len() implies (#[trigger] group[i]) != ':' by {
        if i < group.len() - 1 {
            assert(group[i] == '0');
        }
    }
    a_single_piece(group, ':');
    if last == '0' {
        assert forall|i: int| 0 <= i < group.len() implies group[i] == '0' by {
            if i == group.len() - 1 {
                assert(group[i] == group.last());
            }
        }
    }
}

proof fn groups_are_split(groups: Seq<Seq<char>>)
    requires
        groups.len() > 0,
        forall|i: int|
            0 <= i < groups.len() ==> addresses::split(#[trigger] groups[i], ':') == seq![
                groups[i],
            ],
    ensures
        addresses::split(with_colons(groups), ':') == groups,
    decreases groups.len(),
{
    if groups.len() == 1 {
        assert(seq![groups[0]] =~= groups);
        assert(addresses::split(groups[0], ':') == seq![groups[0]]);
    } else {
        let front = groups.drop_last();
        assert forall|i: int| 0 <= i < front.len() implies addresses::split(
            #[trigger] front[i],
            ':',
        ) == seq![front[i]] by {
            assert(front[i] == groups[i]);
        }
        groups_are_split(front);
        let last = groups[groups.len() - 1];
        assert(addresses::split(last, ':') == seq![last]);
        pieces_of_a_joined_text(with_colons(front), ':', last);
        assert(front + seq![last] =~= groups);
    }
}

proof fn all_are_written(groups: Seq<Seq<char>>)
    requires
        forall|i: int| 0 <= i < groups.len() ==> (#[trigger] groups[i]).len() > 0,
    ensures
        addresses::written_zeros(groups) == groups.len(),
    decreases groups.len(),
{
    if groups.len() > 0 {
        assert(groups[groups.len() - 1].len() > 0);
        assert forall|i: int| 0 <= i < groups.drop_last().len() implies (
        #[trigger] groups.drop_last()[i]).len() > 0 by {
            assert(groups.drop_last()[i] == groups[i]);
        }
        all_are_written(groups.drop_last());
    }
}

/// This computer has the address of version 6 whose groups are zero but for the last, which is one,
/// however many zeros the groups are written with.
pub proof fn this_computer_is_known_by_version_six(groups: Seq<Seq<char>>)
    requires
        groups.len() == 8,
        forall|i: int| 0 <= i < 7 ==> is_small_group(#[trigger] groups[i], '0'),
        is_small_group(groups[7], '1'),
    ensures
        addresses::is_loopback_v6(with_colons(groups)),
{
    assert forall|i: int| 0 <= i < groups.len() implies addresses::split(
        #[trigger] groups[i],
        ':',
    ) == seq![groups[i]] by {
        if i < 7 {
            groups_hold_no_colon(groups[i], '0');
        } else {
            groups_hold_no_colon(groups[7], '1');
        }
    }
    groups_are_split(groups);
    let front = groups.drop_last();
    assert forall|i: int| 0 <= i < front.len() implies addresses::is_zero_group(
        #[trigger] front[i],
    ) by {
        assert(front[i] == groups[i]);
        groups_hold_no_colon(groups[i], '0');
    }
    groups_hold_no_colon(groups[7], '1');
    all_are_written(front);
    assert(addresses::last_groups(groups.last()) == 1);
    assert(addresses::zeros_but(front, -1));
    assert(addresses::are_zeros(front, 0));
}

/// Zero groups may be left out once, where two colons follow each other: two colons and the last group are
/// enough.
pub proof fn zero_groups_may_be_left_out(group: Seq<char>)
    requires
        is_small_group(group, '1'),
    ensures
        addresses::is_loopback_v6(seq![':', ':'] + group),
{
    let empty = Seq::<char>::empty();
    groups_hold_no_colon(group, '1');
    a_single_piece(empty, ':');
    let one = empty + seq![':'] + group;
    pieces_of_a_joined_text(empty, ':', group);
    pieces_of_a_joined_text(empty, ':', one);
    assert(empty + seq![':'] + one =~= seq![':', ':'] + group);
    let pieces = seq![empty, empty, group];
    assert(addresses::split(seq![':', ':'] + group, ':') =~= pieces);
    let front = pieces.drop_last();
    assert(front =~= seq![empty, empty]);
    reveal_with_fuel(addresses::written_zeros, 3);
    assert(front.drop_last() =~= seq![empty]);
    assert(seq![empty].drop_last() =~= Seq::<Seq<char>>::empty());
    assert(addresses::written_zeros(front) == 0);
    assert(front.drop_first() =~= seq![empty]);
    assert(addresses::zeros_but(front.drop_first(), 0));
    assert(addresses::are_zeros(front, 7));
}

proof fn gaps_are_not_written(before: Seq<Seq<char>>, after: Seq<Seq<char>>)
    requires
        forall|i: int| 0 <= i < before.len() ==> (#[trigger] before[i]).len() > 0,
        forall|i: int| 0 <= i < after.len() ==> (#[trigger] after[i]).len() > 0,
    ensures
        addresses::written_zeros(before + seq![Seq::<char>::empty()] + after) == before.len()
            + after.len(),
    decreases after.len(),
{
    let gap = seq![Seq::<char>::empty()];
    let all = before + gap + after;
    if after.len() == 0 {
        assert(all.drop_last() =~= before);
        all_are_written(before);
    } else {
        let fewer = after.drop_last();
        assert forall|i: int| 0 <= i < fewer.len() implies (#[trigger] fewer[i]).len() > 0 by {
            assert(fewer[i] == after[i]);
        }
        assert(all.drop_last() =~= before + gap + fewer);
        assert(all.last() == after.last());
        gaps_are_not_written(before, fewer);
    }
}

/// Groups may be left out in the middle too, as long as at least one is.
pub proof fn zero_groups_may_be_left_out_in_between(before: Seq<Seq<char>>, after: Seq<Seq<char>>)
    requires
        before.len() > 0,
        after.len() > 0,
        before.len() + after.len() <= 7,
        forall|i: int| 0 <= i < before.len() ==> is_small_group(#[trigger] before[i], '0'),
        forall|i: int| 0 <= i < after.len() - 1 ==> is_small_group(#[trigger] after[i], '0'),
        is_small_group(after.last(), '1'),
    ensures
        addresses::is_loopback_v6(with_colons(before) + seq![':', ':'] + with_colons(after)),
{
    let empty = Seq::<char>::empty();
    let left = with_colons(before);
    let right = with_colons(after);
    assert forall|i: int| 0 <= i < before.len() implies addresses::split(
        #[trigger] before[i],
        ':',
    ) == seq![before[i]] && addresses::is_zero_group(before[i]) by {
        groups_hold_no_colon(before[i], '0');
    }
    groups_hold_no_colon(after.last(), '1');
    assert forall|i: int| 0 <= i < after.len() implies addresses::split(#[trigger] after[i], ':')
        == seq![after[i]] by {
        if i < after.len() - 1 {
            groups_hold_no_colon(after[i], '0');
        }
    }
    groups_are_split(before);
    groups_are_split(after);
    a_single_piece(empty, ':');
    let tail = empty + seq![':'] + right;
    pieces_of_a_joined_text(empty, ':', right);
    pieces_of_a_joined_text(left, ':', tail);
    let whole = left + seq![':', ':'] + right;
    assert(left + seq![':'] + tail =~= whole);
    let rest = after.drop_last();
    let front = before + seq![empty] + rest;
    let pieces = addresses::split(whole, ':');
    assert(pieces =~= before + (seq![empty] + after));
    assert(pieces.drop_last() =~= front);
    assert(pieces.last() == after.last());
    assert forall|i: int| 0 <= i < rest.len() implies addresses::is_zero_group(
        #[trigger] rest[i],
    ) by {
        assert(rest[i] == after[i]);
        groups_hold_no_colon(after[i], '0');
    }
    gaps_are_not_written(before, rest);
    let k = before.len() as int;
    assert(front[k] == empty);
    assert(addresses::zeros_but(front, k)) by {
        assert forall|i: int| 0 <= i < front.len() && i != k implies addresses::is_zero_group(
            #[trigger] front[i],
        ) by {
            if i < k {
                assert(front[i] == before[i]);
            } else {
                assert(front[i] == rest[i - k - 1]);
            }
        }
    }
    assert(front[k].len() == 0);
    assert(addresses::last_groups(after.last()) == 1);
    assert(addresses::are_zeros(front, 7 - addresses::written_zeros(front)));
}

/// No other host without a colon means this computer: files stay on it unless the host is localhost
/// or begins with 127.
pub proof fn other_hosts_are_elsewhere(host: Seq<char>)
    requires
        forall|i: int|
            0 <= i < addresses::bare_host(host).len() ==> (#[trigger] addresses::bare_host(host)[i])
                != ':',
        text::ascii_lower_text(addresses::bare_host(host)) != "localhost"@,
        !text::starts_with(addresses::bare_host(host), "127."@),
    ensures
        !addresses::is_loopback(host),
{
    let bare = addresses::bare_host(host);
    reveal_strlit("127.");
    if addresses::is_loopback_v4(bare) {
        let first = text::decimal(127);
        the_first_piece_is_the_front(bare, '.');
        reveal_with_fuel(text::decimal, 3);
        assert(first =~= seq!['1', '2', '7']);
        assert(bare.take(3) == first);
        assert(bare[0] == bare.take(3)[0] && bare[1] == bare.take(3)[1] && bare[2] == bare.take(
            3,
        )[2]);
        assert(bare.subrange(0, 4) =~= "127."@);
    }
    a_single_piece(bare, ':');
    let front = seq![bare].drop_last();
    assert(front.len() == 0);
}

proof fn characters_stand_in_pieces(s: Seq<char>, separator: char, i: int)
    requires
        0 <= i < s.len(),
    ensures
        s[i] == separator || exists|k: int|
            0 <= k < addresses::split(s, separator).len() && (#[trigger] addresses::split(
                s,
                separator,
            )[k]).contains(s[i]),
    decreases s.len(),
{
    let front = s.drop_last();
    let pieces = addresses::split(s, separator);
    let before = addresses::split(front, separator);
    some_pieces(front, separator);
    if i < front.len() {
        characters_stand_in_pieces(front, separator, i);
        if s[i] != separator {
            let k = choose|k: int|
                0 <= k < before.len() && (#[trigger] before[k]).contains(front[i]);
            let j = choose|j: int| 0 <= j < before[k].len() && before[k][j] == s[i];
            if s.last() == separator || k < before.len() - 1 {
                assert(pieces[k] == before[k]);
            } else {
                assert(pieces[k] == before[k].push(s.last()));
                assert(pieces[k][j] == s[i]);
            }
            assert(pieces[k].contains(s[i]));
        }
    } else if s[i] != separator {
        let k = before.len() - 1;
        assert(pieces[k] == before[k].push(s.last()));
        assert(pieces[k][before[k].len() as int] == s[i]);
        assert(pieces[k].contains(s[i]));
    }
}

proof fn numbers_are_digits(n: nat, c: char)
    requires
        text::decimal(n).contains(c),
    ensures
        '0' <= c && c <= '9',
{
    texts::decimals_are_read_back(n);
    let k = choose|k: int| 0 <= k < text::decimal(n).len() && text::decimal(n)[k] == c;
    assert('0' <= text::decimal(n)[k] && text::decimal(n)[k] <= '9');
}

/// A host in which anything but digits and dots stands, and no colon, is no address: however much it looks
/// like one at its front, it is elsewhere.
pub proof fn hosts_with_letters_are_elsewhere(host: Seq<char>, i: int)
    requires
        forall|j: int|
            0 <= j < addresses::bare_host(host).len() ==> (#[trigger] addresses::bare_host(host)[j])
                != ':',
        text::ascii_lower_text(addresses::bare_host(host)) != "localhost"@,
        0 <= i < addresses::bare_host(host).len(),
        addresses::bare_host(host)[i] != '.',
        !('0' <= addresses::bare_host(host)[i] && addresses::bare_host(host)[i] <= '9'),
    ensures
        !addresses::is_loopback(host),
{
    let bare = addresses::bare_host(host);
    a_single_piece(bare, ':');
    assert(seq![bare].drop_last().len() == 0);
    if addresses::is_loopback_v4(bare) {
        let pieces = addresses::split(bare, '.');
        characters_stand_in_pieces(bare, '.', i);
        let k = choose|k: int| 0 <= k < pieces.len() && (#[trigger] pieces[k]).contains(bare[i]);
        if k == 0 {
            numbers_are_digits(127, bare[i]);
        } else {
            assert(addresses::is_byte(pieces[k]));
            let n = choose|n: nat| n <= 255 && pieces[k] == #[trigger] text::decimal(n);
            numbers_are_digits(n, bare[i]);
        }
    }
}

proof fn the_last_piece_is_the_end(s: Seq<char>, separator: char)
    requires
        s.len() > 0,
    ensures
        addresses::split(s, separator).len() > 0,
        s.last() == separator ==> addresses::split(s, separator).last().len() == 0,
        s.last() != separator ==> addresses::split(s, separator).last().len() > 0
            && addresses::split(s, separator).last().last() == s.last(),
{
    the_first_piece_is_the_front(s.drop_last(), separator);
}

/// An address of version 6 that means this computer is written with zeros, colons, a one at its end, and
/// dots: whatever holds another character or ends otherwise is elsewhere.
pub proof fn other_addresses_of_version_six_are_elsewhere(s: Seq<char>, i: int)
    requires
        0 <= i < s.len(),
        s.last() != '1' || s[i] != '0' && s[i] != '1' && s[i] != ':' && s[i] != '.',
    ensures
        !addresses::is_loopback_v6(s),
{
    let pieces = addresses::split(s, ':');
    the_last_piece_is_the_end(s, ':');
    reveal_strlit("0.0.0.1");
    if addresses::is_loopback_v6(s) {
        let last = pieces.last();
        let front = pieces.drop_last();
        assert(last.last() == '1');
        assert(s.last() == '1');
        characters_stand_in_pieces(s, ':', i);
        let k = choose|k: int| 0 <= k < pieces.len() && (#[trigger] pieces[k]).contains(s[i]);
        let j = choose|j: int| 0 <= j < pieces[k].len() && pieces[k][j] == s[i];
        if k < front.len() {
            assert(front[k] == pieces[k]);
            pieces_before_the_last_are_zeros(
                front,
                8 - addresses::last_groups(last) - addresses::written_zeros(front),
                k,
            );
            assert(pieces[k][j] == '0');
        } else {
            assert(pieces[k] == last);
        }
    }
}

/// Groups are left out between two colons only: an address that begins with one colon alone is elsewhere.
pub proof fn one_colon_in_front_is_elsewhere(rest: Seq<char>)
    requires
        rest.len() > 0,
        rest[0] != ':',
    ensures
        !addresses::is_loopback_v6(seq![':'] + rest),
{
    let empty = Seq::<char>::empty();
    let whole = seq![':'] + rest;
    a_single_piece(empty, ':');
    pieces_of_a_joined_text(empty, ':', rest);
    the_first_piece_is_the_front(rest, ':');
    assert(empty + seq![':'] + rest =~= whole);
    let pieces = addresses::split(whole, ':');
    assert(pieces =~= seq![empty] + addresses::split(rest, ':'));
    assert(pieces[0] == empty);
    assert(pieces[1] == addresses::split(rest, ':')[0]);
    assert(pieces[1].len() > 0);
    let front = pieces.drop_last();
    assert(front[0] == empty);
    assert(!addresses::is_zero_group(front[0]));
    if front.len() > 1 {
        assert(front[1] == pieces[1]);
    }
}

proof fn pieces_before_the_last_are_zeros(front: Seq<Seq<char>>, missing: int, k: int)
    requires
        addresses::are_zeros(front, missing),
        0 <= k < front.len(),
    ensures
        front[k].len() == 0 || addresses::is_zero_group(front[k]),
{
    if missing == 0 && addresses::zeros_but(front, -1) {
    } else if exists|h: int|
        0 < h < front.len() && (#[trigger] front[h]).len() == 0 && addresses::zeros_but(front, h) {
        let h = choose|h: int|
            0 < h < front.len() && (#[trigger] front[h]).len() == 0 && addresses::zeros_but(
                front,
                h,
            );
        assert(k != h ==> addresses::is_zero_group(front[k]));
    } else {
        if k > 1 {
            assert(front.drop_first()[k - 1] == front[k]);
        }
    }
}

/// An address means this computer where its host does; white space round it does not count, and an
/// address without a host means no computer at all.
pub proof fn addresses_are_told_by_their_hosts(
    before: Seq<char>,
    address: Seq<char>,
    after: Seq<char>,
)
    requires
        forall|i: int| 0 <= i < before.len() ==> text::is_space(#[trigger] before[i]),
        forall|i: int| 0 <= i < after.len() ==> text::is_space(#[trigger] after[i]),
        address.len() > 0 ==> !text::is_space(address[0]) && !text::is_space(address.last()),
    ensures
        endpoints::is_local(before + address + after) == endpoints::is_local(address),
        endpoints::is_local(address) <==> outside::url_host_of(address) is Some
            && addresses::is_loopback(outside::url_host_of(address)->0),
{
    let empty = Seq::<char>::empty();
    texts::trimming_takes_white_space_off(before, address, after);
    texts::trimming_takes_white_space_off(empty, address, empty);
    assert(empty + address + empty =~= address);
}

// ---------------------------------------------------------------------------
// Models
// ---------------------------------------------------------------------------

/// The models that can be asked are those that the service calls language models, in its order, by
/// their names; the others are left out.
pub proof fn language_models_are_offered(entries: Seq<EntryView>)
    ensures
        models::language_models(entries) == entries.filter(
            |entry: EntryView| entry.kind == Some("llm"@) && entry.name is Some,
        ).map_values(|entry: EntryView| entry.name->0),
    decreases entries.len(),
{
    reveal(Seq::filter);
    let all = entries.filter(|entry: EntryView| entry.kind == Some("llm"@) && entry.name is Some);
    let names = all.map_values(|entry: EntryView| entry.name->0);
    if entries.len() == 0 {
        assert(names =~= Seq::<Seq<char>>::empty());
    } else {
        let rest = entries.drop_last();
        language_models_are_offered(rest);
        let before = rest.filter(
            |entry: EntryView| entry.kind == Some("llm"@) && entry.name is Some,
        );
        let last = entries.last();
        if last.kind == Some("llm"@) && last.name is Some {
            assert(all =~= before.push(last));
            assert(names =~= before.map_values(|entry: EntryView| entry.name->0).push(
                last.name->0,
            ));
        } else {
            assert(all =~= before);
        }
    }
}

/// The names of all models, in the order of the service.
pub proof fn all_models_are_named(entries: Seq<EntryView>)
    ensures
        models::all_names(entries) == entries.filter(
            |entry: EntryView| entry.name is Some,
        ).map_values(|entry: EntryView| entry.name->0),
    decreases entries.len(),
{
    reveal(Seq::filter);
    let all = entries.filter(|entry: EntryView| entry.name is Some);
    let names = all.map_values(|entry: EntryView| entry.name->0);
    if entries.len() == 0 {
        assert(names =~= Seq::<Seq<char>>::empty());
    } else {
        let rest = entries.drop_last();
        all_models_are_named(rest);
        let before = rest.filter(|entry: EntryView| entry.name is Some);
        let last = entries.last();
        if last.name is Some {
            assert(all =~= before.push(last));
            assert(names =~= before.map_values(|entry: EntryView| entry.name->0).push(
                last.name->0,
            ));
        } else {
            assert(all =~= before);
        }
    }
}

/// Whether a model can be asked and is loaded.
pub open spec fn is_loaded(entry: EntryView) -> bool {
    entry.kind == Some("llm"@) && entry.instance is Some
}

/// The first language model that is loaded is the one that is active; where none is loaded, none is.
pub proof fn the_first_loaded_model_is_active(entries: Seq<EntryView>, k: int)
    requires
        0 <= k < entries.len(),
    ensures
        is_loaded(entries[k]) && (forall|j: int| 0 <= j < k ==> !is_loaded(#[trigger] entries[j]))
            ==> models::loaded_model(entries) == entries[k].instance,
        (forall|j: int| 0 <= j < entries.len() ==> !is_loaded(#[trigger] entries[j]))
            ==> models::loaded_model(entries) is None,
    decreases entries.len(),
{
    let front = entries.drop_last();
    let n = entries.len() as int;
    if n == 1 {
        assert(models::loaded_model(front) is None);
        assert(entries.last() == entries[0]);
    } else {
        if k < n - 1 {
            assert(front[k] == entries[k]);
            if forall|j: int| 0 <= j < k ==> !is_loaded(#[trigger] entries[j]) {
                assert forall|j: int| 0 <= j < k implies !is_loaded(#[trigger] front[j]) by {
                    assert(front[j] == entries[j]);
                }
            }
            the_first_loaded_model_is_active(front, k);
        }
        if forall|j: int| 0 <= j < n - 1 ==> !is_loaded(#[trigger] entries[j]) {
            assert forall|j: int| 0 <= j < front.len() implies !is_loaded(#[trigger] front[j]) by {
                assert(front[j] == entries[j]);
            }
            the_first_loaded_model_is_active(front, 0);
        }
    }
}

/// Some texts without a given one.
pub open spec fn all_but(texts: Seq<Seq<char>>, one: Seq<char>) -> Seq<Seq<char>> {
    texts.filter(|name: Seq<char>| name != one)
}

/// The active model stands first and once; behind it stand the others, in their order.
pub proof fn the_active_model_stands_first_and_once(entries: Seq<EntryView>)
    ensures
        models::loaded_model(entries) is None ==> models::ordered_models(entries)
            == models::language_models(entries),
        models::loaded_model(entries) is Some ==> models::ordered_models(entries) == seq![
            models::loaded_model(entries)->0,
        ] + all_but(models::language_models(entries), models::loaded_model(entries)->0),
{
    if models::loaded_model(entries) is Some {
        the_others_are_kept(models::language_models(entries), models::loaded_model(entries)->0);
    }
}

proof fn the_others_are_kept(texts: Seq<Seq<char>>, one: Seq<char>)
    ensures
        models::others(texts, one) == all_but(texts, one),
    decreases texts.len(),
{
    reveal(Seq::filter);
    if texts.len() > 0 {
        the_others_are_kept(texts.drop_last(), one);
    } else {
        assert(models::others(texts, one) =~= all_but(texts, one));
    }
}

/// Where a service lists its models and what it calls their names: each kind of service has its own
/// way.
pub proof fn services_list_models_their_own_way(provider: Seq<char>, i: nat)
    ensures
        provider == "lmstudio"@ ==> models::listing(provider) == "/models"@ && models::name_field(
            provider,
        ) == "key"@,
        provider == "ollama"@ ==> models::listing(provider) == "/models"@ && models::name_field(
            provider,
        ) == "name"@,
        provider != "lmstudio"@ && provider != "ollama"@ ==> models::listing(provider) == "/data"@
            && models::name_field(provider) == "id"@,
        models::field_at(models::listing(provider), i, "type"@) == models::listing(provider) + "/"@
            + text::decimal(i) + "/type"@,
        models::field_at(models::listing(provider), i, "loaded_instances"@) == models::listing(
            provider,
        ) + "/"@ + text::decimal(i) + "/loaded_instances"@,
{
    reveal_strlit("ollama");
    reveal_strlit("lmstudio");
    assert("ollama"@[0] == 'o' && "lmstudio"@[0] == 'l');
    reveal_strlit("/");
    reveal_strlit("type");
    reveal_strlit("/type");
    reveal_strlit("loaded_instances");
    reveal_strlit("/loaded_instances");
    let start = models::listing(provider) + "/"@ + text::decimal(i);
    assert(start + "/"@ + "type"@ =~= start + "/type"@);
    assert(start + "/"@ + "loaded_instances"@ =~= start + "/loaded_instances"@);
}

/// What is read of the list of a service: every entry of it, each by its own fields. Where there is
/// no list, nothing is.
pub proof fn every_entry_is_read(
    provider: Seq<char>,
    texts: Map<Seq<char>, Seq<char>>,
    lengths: Map<Seq<char>, nat>,
    i: nat,
)
    ensures
        !lengths.dom().contains(models::listing(provider)) ==> models::entries_of(
            provider,
            texts,
            lengths,
        ) is None,
        lengths.dom().contains(models::listing(provider)) && i < lengths[models::listing(provider)]
            ==> {
            let entries = models::entries_of(provider, texts, lengths);
            let start = models::listing(provider) + "/"@ + text::decimal(i) + "/"@;
            let kind = start + "type"@;
            let name = start + models::name_field(provider);
            let instances = start + "loaded_instances"@;
            let first = instances + "/0/id"@;
            &&& entries is Some
            &&& entries->0.len() == lengths[models::listing(provider)]
            &&& entries->0[i as int].kind == if texts.dom().contains(kind) {
                Some(texts[kind])
            } else {
                None
            }
            &&& entries->0[i as int].name == if texts.dom().contains(name) {
                Some(texts[name])
            } else {
                None
            }
            &&& entries->0[i as int].instance == if lengths.dom().contains(instances)
                && lengths[instances] > 0 && texts.dom().contains(first) {
                Some(texts[first])
            } else {
                None
            }
        },
{
}

/// What a service offers, by what it tells of its models: LM Studio its language models, the active
/// one first, every other service all its models in the order of texts, each once. Where there is
/// none, that is said.
pub proof fn services_offer_their_models(
    provider: Seq<char>,
    entries: Seq<EntryView>,
    list: Result<models::ModelList, String>,
)
    requires
        models::is_offer(provider, entries, list),
    ensures
        provider == "lmstudio"@ ==> (list is Ok <==> models::ordered_models(entries).len() > 0),
        provider == "lmstudio"@ && list is Ok ==> records::text_views(list->Ok_0.models@)
            == models::ordered_models(entries) && records::option_view(list->Ok_0.active_model)
            == models::loaded_model(entries),
        provider == "lmstudio"@ && list is Err ==> list->Err_0@
            == "LM Studio не сообщил доступных языковых моделей"@,
        provider != "lmstudio"@ ==> (list is Ok <==> models::all_names(entries).len() > 0),
        provider != "lmstudio"@ && list is Ok ==> list->Ok_0.active_model is None && (forall|
            name: Seq<char>,
        |
            models::all_names(entries).contains(name) <==> #[trigger] records::text_views(
                list->Ok_0.models@,
            ).contains(name)) && models::ascends(records::text_views(list->Ok_0.models@)),
        provider != "lmstudio"@ && list is Err ==> list->Err_0@
            == "Локальный сервис не сообщил доступных моделей"@,
{
}

// ---------------------------------------------------------------------------
// Replies
// ---------------------------------------------------------------------------

/// The reply of the model stands at one place in the answer of the service; where nothing stands there,
/// that is said.
pub proof fn replies_stand_at_their_place(texts: Map<Seq<char>, Seq<char>>)
    ensures
        texts.dom().contains("/choices/0/message/content"@) ==> replies::reply_among(texts) == Ok::<
            Seq<char>,
            Seq<char>,
        >(replies::unfenced(texts["/choices/0/message/content"@])),
        !texts.dom().contains("/choices/0/message/content"@) ==> replies::reply_among(texts)
            == Err::<Seq<char>, Seq<char>>("Ответ API не содержит choices[0].message.content"@),
{
}

/// A reply counts without the white space round it and without the marks of a block of code,
/// whether these name a language or not.
pub proof fn blocks_of_code_are_opened(
    before: Seq<char>,
    inner: Seq<char>,
    json: Seq<char>,
    outer: Seq<char>,
    after: Seq<char>,
)
    requires
        forall|i: int| 0 <= i < before.len() ==> text::is_space(#[trigger] before[i]),
        forall|i: int| 0 <= i < inner.len() ==> text::is_space(#[trigger] inner[i]),
        forall|i: int| 0 <= i < outer.len() ==> text::is_space(#[trigger] outer[i]),
        forall|i: int| 0 <= i < after.len() ==> text::is_space(#[trigger] after[i]),
        json.len() > 0,
        !text::is_space(json[0]),
        !text::is_space(json.last()),
        json[0] != '`',
        json[0] != 'j',
        json.last() != '`',
    ensures
        replies::unfenced(before + json + after) == json,
        replies::unfenced(before + ("```json"@ + (inner + (json + outer + "```"@))) + after) == json,
        replies::unfenced(before + ("```"@ + (inner + (json + outer + "```"@))) + after) == json,
{
    plain_replies_stay(before, json, after);
    let inside = inner + (json + outer + "```"@);
    assert(inside.len() > 0 && inside[0] != 'j') by {
        if inner.len() > 0 {
            assert(inside[0] == inner[0]);
        } else {
            assert(inside[0] == json[0]);
        }
    }
    marks_open_a_block(inside);
    a_block_is_read(before, "```json"@, inner, json, outer, after);
    a_block_is_read(before, "```"@, inner, json, outer, after);
}

proof fn marks_open_a_block(inside: Seq<char>)
    requires
        inside.len() > 0,
        inside[0] != 'j',
    ensures
        replies::opened("```json"@ + inside) == inside,
        replies::opened("```"@ + inside) == inside,
        "```json"@.len() == 7 && "```json"@[0] == '`',
        "```"@.len() == 3 && "```"@[0] == '`',
{
    reveal_strlit("```");
    reveal_strlit("```json");
    let empty = Seq::<char>::empty();
    let long = "```json"@;
    let fence = "```"@;
    let plain = fence + inside;
    texts::a_part_stands_in_the_whole(empty, long, inside);
    texts::a_part_stands_in_the_whole(empty, fence, inside);
    if text::starts_with(plain, long) {
        assert(plain.subrange(0, 7)[3] == long[3]);
        assert(plain[3] == inside[0]);
    }
    assert((long + inside).skip(7) =~= inside);
    assert(plain.skip(3) =~= inside);
}

proof fn a_block_is_read(
    before: Seq<char>,
    mark: Seq<char>,
    inner: Seq<char>,
    json: Seq<char>,
    outer: Seq<char>,
    after: Seq<char>,
)
    requires
        mark.len() > 0,
        mark[0] == '`',
        forall|i: int| 0 <= i < before.len() ==> text::is_space(#[trigger] before[i]),
        forall|i: int| 0 <= i < inner.len() ==> text::is_space(#[trigger] inner[i]),
        forall|i: int| 0 <= i < outer.len() ==> text::is_space(#[trigger] outer[i]),
        forall|i: int| 0 <= i < after.len() ==> text::is_space(#[trigger] after[i]),
        json.len() > 0,
        !text::is_space(json[0]),
        !text::is_space(json.last()),
        replies::opened(mark + (inner + (json + outer + "```"@))) == inner + (json + outer + "```"@),
    ensures
        replies::unfenced(before + (mark + (inner + (json + outer + "```"@))) + after) == json,
{
    block_is_closed(mark, inner, json, outer);
    texts::trimming_takes_white_space_off(
        before,
        mark + (inner + (json + outer + "```"@)),
        after,
    );
}

proof fn plain_replies_stay(before: Seq<char>, json: Seq<char>, after: Seq<char>)
    requires
        forall|i: int| 0 <= i < before.len() ==> text::is_space(#[trigger] before[i]),
        forall|i: int| 0 <= i < after.len() ==> text::is_space(#[trigger] after[i]),
        json.len() > 0,
        !text::is_space(json[0]),
        !text::is_space(json.last()),
        json[0] != '`',
        json.last() != '`',
    ensures
        replies::unfenced(before + json + after) == json,
{
    reveal_strlit("```");
    reveal_strlit("```json");
    let empty = Seq::<char>::empty();
    let fence = "```"@;
    let long = "```json"@;
    texts::trimming_takes_white_space_off(before, json, after);
    assert(!text::starts_with(json, fence)) by {
        if text::starts_with(json, fence) {
            assert(json.subrange(0, 3)[0] == fence[0]);
        }
    }
    assert(!text::starts_with(json, long)) by {
        if text::starts_with(json, long) {
            assert(json.subrange(0, 7)[0] == long[0]);
        }
    }
    assert(!text::ends_with(json, fence)) by {
        if text::ends_with(json, fence) {
            assert(json.subrange(json.len() - 3, json.len() as int)[2] == fence[2]);
        }
    }
    texts::trimming_takes_white_space_off(empty, json, empty);
    assert(empty + json + empty =~= json);
}

proof fn block_is_closed(mark: Seq<char>, inner: Seq<char>, json: Seq<char>, outer: Seq<char>)
    requires
        mark.len() > 0,
        mark[0] == '`',
        forall|i: int| 0 <= i < inner.len() ==> text::is_space(#[trigger] inner[i]),
        forall|i: int| 0 <= i < outer.len() ==> text::is_space(#[trigger] outer[i]),
        json.len() > 0,
        !text::is_space(json[0]),
        !text::is_space(json.last()),
    ensures
        text::trim(
            replies::without_suffix(text::trim(inner + (json + outer + "```"@)), "```"@),
        ) == json,
        (mark + (inner + (json + outer + "```"@)))[0] == '`',
        (mark + (inner + (json + outer + "```"@))).last() == '`',
        !text::is_space('`'),
{
    reveal_strlit("```");
    let empty = Seq::<char>::empty();
    let fence = "```"@;
    let end = json + outer + fence;
    let inside = inner + end;
    assert(end[0] == json[0] && end.last() == '`');
    assert((mark + inside).last() == end.last());
    texts::trimming_takes_white_space_off(inner, end, empty);
    assert(inner + end + empty =~= inside);
    texts::a_part_stands_in_the_whole(json + outer, fence, empty);
    assert(end.take(end.len() - 3) =~= json + outer);
    texts::trimming_takes_white_space_off(empty, json, outer);
    assert(empty + json + outer =~= json + outer);
}

proof fn one_of_four_texts(s: Seq<char>, w0: &'static str, w1: &'static str, w2: &'static str, w3: &'static str)
    ensures
        text::one_of(s, seq![w0, w1, w2, w3]) <==> (s == w0@ || s == w1@ || s == w2@ || s == w3@),
{
    let list = seq![w0, w1, w2, w3];
    assert(list[0] == w0);
    assert(list[1] == w1);
    assert(list[2] == w2);
    assert(list[3] == w3);
}

proof fn one_of_five_texts(s: Seq<char>, w0: &'static str, w1: &'static str, w2: &'static str, w3: &'static str, w4: &'static str)
    ensures
        text::one_of(s, seq![w0, w1, w2, w3, w4]) <==> (s == w0@ || s == w1@ || s == w2@ || s == w3@ || s == w4@),
{
    let list = seq![w0, w1, w2, w3, w4];
    assert(list[0] == w0);
    assert(list[1] == w1);
    assert(list[2] == w2);
    assert(list[3] == w3);
    assert(list[4] == w4);
}

/// How sure the model is, by the words for it: three grades, in two languages.
pub proof fn words_say_how_sure_the_model_is(s: Seq<char>)
    ensures
        (s == "high"@ || s == "высокая"@ || s == "высокий"@ || s == "высоко"@) ==> replies::spoken(s) == SpokenView::Grade(Confidence { bits: 0x3f40_0000 }),
        (s == "medium"@ || s == "average"@ || s == "средняя"@ || s == "средний"@ || s == "средне"@) ==> replies::spoken(s) == SpokenView::Grade(Confidence { bits: 0x3f00_0000 }),
        (s == "low"@ || s == "низкая"@ || s == "низкий"@ || s == "низко"@) ==> replies::spoken(s) == SpokenView::Grade(Confidence { bits: 0x3e80_0000 }),
        replies::spoken(s) is Grade ==> (s == "high"@ || s == "высокая"@ || s == "высокий"@ || s == "высоко"@ || s == "medium"@ || s == "average"@ || s == "средняя"@ || s == "средний"@ || s == "средне"@ || s == "low"@ || s == "низкая"@ || s == "низкий"@ || s == "низко"@),
{
    one_of_four_texts(s, "high", "высокая", "высокий", "высоко");
    one_of_five_texts(s, "medium", "average", "средняя", "средний", "средне");
    one_of_four_texts(s, "low", "низкая", "низкий", "низко");
    words_differ();
}

proof fn words_differ()
    ensures
        "high"@ != "medium"@,
        "high"@ != "average"@,
        "high"@ != "средняя"@,
        "high"@ != "средний"@,
        "high"@ != "средне"@,
        "high"@ != "low"@,
        "high"@ != "низкая"@,
        "high"@ != "низкий"@,
        "high"@ != "низко"@,
        "высокая"@ != "medium"@,
        "высокая"@ != "average"@,
        "высокая"@ != "средняя"@,
        "высокая"@ != "средний"@,
        "высокая"@ != "средне"@,
        "высокая"@ != "low"@,
        "высокая"@ != "низкая"@,
        "высокая"@ != "низкий"@,
        "высокая"@ != "низко"@,
        "высокий"@ != "medium"@,
        "высокий"@ != "average"@,
        "высокий"@ != "средняя"@,
        "высокий"@ != "средний"@,
        "высокий"@ != "средне"@,
        "высокий"@ != "low"@,
        "высокий"@ != "низкая"@,
        "высокий"@ != "низкий"@,
        "высокий"@ != "низко"@,
        "высоко"@ != "medium"@,
        "высоко"@ != "average"@,
        "высоко"@ != "средняя"@,
        "высоко"@ != "средний"@,
        "высоко"@ != "средне"@,
        "высоко"@ != "low"@,
        "высоко"@ != "низкая"@,
        "высоко"@ != "низкий"@,
        "высоко"@ != "низко"@,
        "medium"@ != "low"@,
        "medium"@ != "низкая"@,
        "medium"@ != "низкий"@,
        "medium"@ != "низко"@,
        "average"@ != "low"@,
        "average"@ != "низкая"@,
        "average"@ != "низкий"@,
        "average"@ != "низко"@,
        "средняя"@ != "low"@,
        "средняя"@ != "низкая"@,
        "средняя"@ != "низкий"@,
        "средняя"@ != "низко"@,
        "средний"@ != "low"@,
        "средний"@ != "низкая"@,
        "средний"@ != "низкий"@,
        "средний"@ != "низко"@,
        "средне"@ != "low"@,
        "средне"@ != "низкая"@,
        "средне"@ != "низкий"@,
        "средне"@ != "низко"@,
{
    reveal_strlit("high");
    assert("high"@[0] == 'h');
    reveal_strlit("высокая");
    assert("высокая"@[0] == 'в');
    reveal_strlit("высокий");
    assert("высокий"@[0] == 'в');
    reveal_strlit("высоко");
    assert("высоко"@[0] == 'в');
    reveal_strlit("medium");
    assert("medium"@[0] == 'm');
    reveal_strlit("average");
    assert("average"@[0] == 'a');
    reveal_strlit("средняя");
    assert("средняя"@[0] == 'с');
    reveal_strlit("средний");
    assert("средний"@[0] == 'с');
    reveal_strlit("средне");
    assert("средне"@[0] == 'с');
    reveal_strlit("low");
    assert("low"@[0] == 'l');
    reveal_strlit("низкая");
    assert("низкая"@[0] == 'н');
    reveal_strlit("низкий");
    assert("низкий"@[0] == 'н');
    reveal_strlit("низко");
    assert("низко"@[0] == 'н');
}

/// How sure the model is, by a number: with a point or a comma, and with or without a sign for
/// hundredths behind it.
pub proof fn numbers_say_how_sure_the_model_is(whole: Seq<char>, part: Seq<char>)
    requires
        forall|i: int| 0 <= i < whole.len() ==> '0' <= (#[trigger] whole[i]) && whole[i] <= '9',
        forall|i: int| 0 <= i < part.len() ==> '0' <= (#[trigger] part[i]) && part[i] <= '9',
        whole.len() > 0,
        part.len() > 0,
    ensures
        replies::spoken(whole) == SpokenView::Number(whole),
        replies::spoken(whole + seq!['.'] + part) == SpokenView::Number(whole + seq!['.'] + part),
        replies::spoken(whole + seq![','] + part) == SpokenView::Number(whole + seq!['.'] + part),
        replies::spoken(whole + seq!['%']) == SpokenView::Percentage(whole),
        replies::spoken(whole + seq![','] + part + seq!['%']) == SpokenView::Percentage(
            whole + seq!['.'] + part,
        ),
        replies::spoken(whole + seq![' '] + seq!['%']) == SpokenView::Percentage(whole),
{
    let empty = Seq::<char>::empty();
    let pointed = whole + seq!['.'] + part;
    let comma = whole + seq![','] + part;
    assert forall|i: int| 0 <= i < pointed.len() implies is_of_a_number(#[trigger] pointed[i]) by {
        if i < whole.len() {
            assert(pointed[i] == whole[i]);
        } else if i > whole.len() {
            assert(pointed[i] == part[i - whole.len() - 1]);
        }
    }
    assert forall|i: int| 0 <= i < comma.len() implies is_of_a_number(#[trigger] comma[i]) by {
        if i < whole.len() {
            assert(comma[i] == whole[i]);
        } else if i > whole.len() {
            assert(comma[i] == part[i - whole.len() - 1]);
        }
    }
    assert forall|i: int| 0 <= i < whole.len() implies is_of_a_number(#[trigger] whole[i]) by {}
    a_number_is_spoken(whole, empty, empty);
    a_number_is_spoken(pointed, empty, empty);
    a_number_is_spoken(comma, empty, empty);
    a_number_is_spoken(whole, empty, seq!['%']);
    a_number_is_spoken(comma, empty, seq!['%']);
    a_number_is_spoken(whole, seq![' '], seq!['%']);
    assert(whole + empty + empty =~= whole);
    assert(pointed + empty + empty =~= pointed);
    assert(comma + empty + empty =~= comma);
    assert(whole + empty + seq!['%'] =~= whole + seq!['%']);
    assert(comma + empty + seq!['%'] =~= comma + seq!['%']);
    assert(text::replace_char(comma, ',', '.') =~= pointed) by {
        digits_stay(whole);
        digits_stay(part);
    }
    assert(text::replace_char(pointed, ',', '.') =~= pointed) by {
        digits_stay(whole);
        digits_stay(part);
    }
    assert(text::replace_char(whole, ',', '.') =~= whole) by {
        digits_stay(whole);
    }
}

/// White space round what the model says of how sure it is does not count, nor does its case.
pub proof fn blanks_round_a_confidence_do_not_count(
    before: Seq<char>,
    value: Seq<char>,
    after: Seq<char>,
)
    requires
        forall|i: int| 0 <= i < before.len() ==> text::is_space(#[trigger] before[i]),
        forall|i: int| 0 <= i < after.len() ==> text::is_space(#[trigger] after[i]),
        value.len() > 0 ==> !text::is_space(value[0]) && !text::is_space(value.last()),
    ensures
        replies::spoken_in(before + value + after) == replies::spoken(outside::lowercase(value)),
{
    texts::trimming_takes_white_space_off(before, value, after);
}

proof fn digits_stay(s: Seq<char>)
    requires
        forall|i: int| 0 <= i < s.len() ==> '0' <= (#[trigger] s[i]) && s[i] <= '9',
    ensures
        forall|i: int| 0 <= i < s.len() ==> (#[trigger] s[i]) != ',',
{
    assert forall|i: int| 0 <= i < s.len() implies (#[trigger] s[i]) != ',' by {
        a_digit_is_no_comma(s[i]);
    }
}

proof fn a_digit_is_no_comma(c: char)
    ensures
        '0' <= c && c <= '9' ==> c != ',',
{
}

/// Whether a character may stand in a number.
pub open spec fn is_of_a_number(c: char) -> bool {
    '0' <= c && c <= '9' || c == '.' || c == ','
}

proof fn number_characters_are_no_others(c: char)
    requires
        is_of_a_number(c),
    ensures
        !text::is_space(c),
        c != '%',
        c != 'h' && c != 'm' && c != 'a' && c != 'l' && c != 'в' && c != 'с' && c != 'н',
{
}

proof fn a_number_is_spoken(number: Seq<char>, blanks: Seq<char>, sign: Seq<char>)
    requires
        number.len() > 0,
        forall|i: int| 0 <= i < number.len() ==> is_of_a_number(#[trigger] number[i]),
        blanks.len() == 0 || blanks == seq![' '] && sign.len() == 1,
        sign.len() == 0 || sign == seq!['%'],
    ensures
        replies::spoken(number + blanks + sign) == if sign.len() > 0 {
            SpokenView::Percentage(text::replace_char(number, ',', '.'))
        } else {
            SpokenView::Number(text::replace_char(number, ',', '.'))
        },
{
    let s = number + blanks + sign;
    let empty = Seq::<char>::empty();
    assert(is_of_a_number(number[0]) && is_of_a_number(number[number.len() - 1]));
    number_characters_are_no_others(number[0]);
    number_characters_are_no_others(number[number.len() - 1]);
    assert(s[0] == number[0]);
    words_say_how_sure_the_model_is(s);
    first_letters_of_words();
    assert(!(replies::spoken(s) is Grade));
    texts::white_space_is_listed(' ');
    assert forall|i: int| 0 <= i < blanks.len() implies text::is_space(#[trigger] blanks[i]) by {}
    let bare = number + blanks;
    assert(bare.last() != '%');
    marks_at_the_end_go(bare, '%', sign);
    assert(text::trim_end_any(s, seq!['%']) == bare);
    texts::trimming_takes_white_space_off(empty, number, blanks);
    assert(empty + number + blanks =~= bare);
    if sign.len() > 0 {
        assert(s.last() == '%');
    } else {
        assert(s =~= bare);
        assert(blanks.len() == 0);
        assert(s.last() == number.last());
    }
}

proof fn first_letters_of_words()
    ensures
        "high"@[0] == 'h' && "high"@.len() > 0,
        "высокая"@[0] == 'в' && "высокая"@.len() > 0,
        "высокий"@[0] == 'в' && "высокий"@.len() > 0,
        "высоко"@[0] == 'в' && "высоко"@.len() > 0,
        "medium"@[0] == 'm' && "medium"@.len() > 0,
        "average"@[0] == 'a' && "average"@.len() > 0,
        "средняя"@[0] == 'с' && "средняя"@.len() > 0,
        "средний"@[0] == 'с' && "средний"@.len() > 0,
        "средне"@[0] == 'с' && "средне"@.len() > 0,
        "low"@[0] == 'l' && "low"@.len() > 0,
        "низкая"@[0] == 'н' && "низкая"@.len() > 0,
        "низкий"@[0] == 'н' && "низкий"@.len() > 0,
        "низко"@[0] == 'н' && "низко"@.len() > 0,
{
    reveal_strlit("high");
    reveal_strlit("высокая");
    reveal_strlit("высокий");
    reveal_strlit("высоко");
    reveal_strlit("medium");
    reveal_strlit("average");
    reveal_strlit("средняя");
    reveal_strlit("средний");
    reveal_strlit("средне");
    reveal_strlit("low");
    reveal_strlit("низкая");
    reveal_strlit("низкий");
    reveal_strlit("низко");
}

} // verus!
