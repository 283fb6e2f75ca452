//! What is told of errors, refusals and files.

use crate::batches;
use crate::diagnostics;
use crate::extensions;
use crate::laws::texts;
use crate::outside;
use crate::records::{ContextView, CountView};
use crate::text;
use vstd::prelude::*;

verus! {

// ---------------------------------------------------------------------------
// Errors
// ---------------------------------------------------------------------------

proof fn either_word(s: Seq<char>, one: &'static str, other: &'static str)
    ensures
        text::mentions(s, seq![one, other]) <==> (text::contains(s, one@) || text::contains(
            s,
            other@,
        )),
{
    let list = seq![one, other];
    assert(list[0] == one);
    assert(list[1] == other);
}

proof fn one_of_three_words(
    s: Seq<char>,
    one: &'static str,
    two: &'static str,
    three: &'static str,
)
    ensures
        text::mentions(s, seq![one, two, three]) <==> (text::contains(s, one@) || text::contains(
            s,
            two@,
        ) || text::contains(s, three@)),
{
    let list = seq![one, two, three];
    assert(list[0] == one);
    assert(list[1] == two);
    assert(list[2] == three);
}

proof fn one_of_four_words(
    s: Seq<char>,
    one: &'static str,
    two: &'static str,
    three: &'static str,
    four: &'static str,
)
    ensures
        text::mentions(s, seq![one, two, three, four]) <==> (text::contains(s, one@)
            || text::contains(s, two@) || text::contains(s, three@) || text::contains(s, four@)),
{
    let list = seq![one, two, three, four];
    assert(list[0] == one);
    assert(list[1] == two);
    assert(list[2] == three);
    assert(list[3] == four);
}

proof fn kinds_differ()
    ensures
        "timeout"@ != "invalid_json"@,
        "timeout"@ != "http"@,
        "timeout"@ != "response_shape"@,
        "timeout"@ != "network"@,
        "timeout"@ != "unknown"@,
        "invalid_json"@ != "http"@,
        "invalid_json"@ != "response_shape"@,
        "invalid_json"@ != "network"@,
        "invalid_json"@ != "unknown"@,
        "http"@ != "response_shape"@,
        "http"@ != "network"@,
        "http"@ != "unknown"@,
        "response_shape"@ != "network"@,
        "response_shape"@ != "unknown"@,
        "network"@ != "unknown"@,
{
    reveal_strlit("timeout");
    reveal_strlit("invalid_json");
    reveal_strlit("http");
    reveal_strlit("response_shape");
    reveal_strlit("network");
    reveal_strlit("unknown");
    assert("timeout"@[0] == 't' && "timeout"@[1] == 'i');
    assert("invalid_json"@[0] == 'i' && "invalid_json"@[1] == 'n');
    assert("http"@[0] == 'h' && "http"@[1] == 't');
    assert("response_shape"@[0] == 'r' && "response_shape"@[1] == 'e');
    assert("network"@[0] == 'n' && "network"@[1] == 'e');
    assert("unknown"@[0] == 'u' && "unknown"@[1] == 'n');
}

/// The kind of an error, word by word, and the sentence that stands for it: the first kind, in
/// this order, that a word of the error speaks of.
pub proof fn errors_are_told_by_their_words(error: Seq<char>)
    ensures
        (text::contains(error, "Тайм-аут"@) || text::contains(error, "timed out"@)) ==> diagnostics::error_class(error).0 == "timeout"@,
        diagnostics::error_class(error).0 == "timeout"@ ==> (text::contains(error, "Тайм-аут"@) || text::contains(error, "timed out"@)) && diagnostics::error_class(error).1 == "Модель не ответила в установленное время"@,
        diagnostics::error_class(error).0 != "timeout"@ && (text::contains(error, "невалидный JSON"@) || text::contains(error, "не является JSON"@)) ==> diagnostics::error_class(error).0 == "invalid_json"@,
        diagnostics::error_class(error).0 == "invalid_json"@ ==> (text::contains(error, "невалидный JSON"@) || text::contains(error, "не является JSON"@)) && diagnostics::error_class(error).1 == "Ответ модели не является валидным JSON"@,
        diagnostics::error_class(error).0 != "timeout"@ && diagnostics::error_class(error).0 != "invalid_json"@ && (text::contains(error, "HTTP"@)) ==> diagnostics::error_class(error).0 == "http"@,
        diagnostics::error_class(error).0 == "http"@ ==> (text::contains(error, "HTTP"@)) && diagnostics::error_class(error).1 == "API модели вернул ошибку HTTP"@,
        diagnostics::error_class(error).0 != "timeout"@ && diagnostics::error_class(error).0 != "invalid_json"@ && diagnostics::error_class(error).0 != "http"@ && (text::contains(error, "choices[0].message.content"@)) ==> diagnostics::error_class(error).0 == "response_shape"@,
        diagnostics::error_class(error).0 == "response_shape"@ ==> (text::contains(error, "choices[0].message.content"@)) && diagnostics::error_class(error).1 == "В ответе модели отсутствует ожидаемое поле"@,
        diagnostics::error_class(error).0 != "timeout"@ && diagnostics::error_class(error).0 != "invalid_json"@ && diagnostics::error_class(error).0 != "http"@ && diagnostics::error_class(error).0 != "response_shape"@ && (text::contains(error, "запрос"@) || text::contains(error, "request"@)) ==> diagnostics::error_class(error).0 == "network"@,
        diagnostics::error_class(error).0 == "network"@ ==> (text::contains(error, "запрос"@) || text::contains(error, "request"@)) && diagnostics::error_class(error).1 == "Сетевая ошибка запроса к модели"@,
        diagnostics::error_class(error).0 != "timeout"@ && diagnostics::error_class(error).0 != "invalid_json"@ && diagnostics::error_class(error).0 != "http"@ && diagnostics::error_class(error).0 != "response_shape"@ && diagnostics::error_class(error).0 != "network"@ ==> diagnostics::error_class(error).0 == "unknown"@ && diagnostics::error_class(error).1 == "Неизвестная техническая ошибка модели"@,
{
    kinds_differ();
    either_word(error, "Тайм-аут", "timed out");
    either_word(error, "невалидный JSON", "не является JSON");
    either_word(error, "запрос", "request");
}

/// Whether a text names no place: no address, no folder of a user, no drive.
pub open spec fn names_no_place(s: Seq<char>) -> bool {
    &&& !text::contains(s, " for url"@)
    &&& !text::contains(s, "http://"@)
    &&& !text::contains(s, "https://"@)
    &&& !text::contains(s, "file://"@)
    &&& !text::contains(s, "/Users/"@)
    &&& !text::contains(s, "/Volumes/"@)
    &&& !text::contains(s, "\\Users\\"@)
    &&& !text::contains(s, "\\\\"@)
    &&& forall|i: int|
        0 <= i < s.len() - 2 ==> !(('a' <= (#[trigger] s[i]) && s[i] <= 'z' || 'A' <= s[i] && s[i]
            <= 'Z') && s[i + 1] == ':' && (s[i + 2] == '/' || s[i + 2] == '\\'))
}

proof fn letters_are_listed(c: char)
    ensures
        text::is_ascii_letter(c) <==> ('a' <= c && c <= 'z' || 'A' <= c && c <= 'Z'),
{
}

proof fn places_are_listed(s: Seq<char>)
    ensures
        names_no_place(s) <==> !text::contains(s, " for url"@) && !text::contains(s, "http://"@)
            && !text::contains(s, "https://"@) && !text::contains(s, "file://"@)
            && !diagnostics::names_a_path(s),
{
    one_of_four_words(s, "/Users/", "/Volumes/", "\\Users\\", "\\\\");
    if exists|i: int| diagnostics::is_drive_at(s, i) {
        let i = choose|i: int| diagnostics::is_drive_at(s, i);
        let c = s[i];
        letters_are_listed(c);
        assert(s[i + 1] == ':');
        assert(!names_no_place(s));
    }
    if !diagnostics::names_a_path(s) {
        assert forall|i: int| 0 <= i < s.len() - 2 implies !(('a' <= (#[trigger] s[i]) && s[i] <= 'z'
            || 'A' <= s[i] && s[i] <= 'Z') && s[i + 1] == ':' && (s[i + 2] == '/' || s[i + 2]
            == '\\')) by {
            letters_are_listed(s[i]);
            assert(!diagnostics::is_drive_at(s, i));
        }
    }
}

/// What is shown of an error names no place on this computer or elsewhere.
pub proof fn shown_errors_name_no_place(error: Seq<char>)
    ensures
        names_no_place(diagnostics::error_detail(error)),
        diagnostics::error_detail(error).len() <= 240,
{
    let shown = diagnostics::error_detail(error);
    diagnostics::details_show_no_trace(error);
    one_of_four_words(shown, " for url", "http://", "https://", "file://");
    places_are_listed(shown);
}

/// An error that names no place is shown in its own words: without the white space round it and
/// without loose ends, and whole where it is not too long.
pub proof fn harmless_errors_are_shown(error: Seq<char>)
    requires
        error.len() > 0,
        !text::is_space(error[0]),
        !text::is_space(error.last()),
        names_no_place(error),
        error.last() != ':',
        error.last() != '(',
        error.last() != '-',
    ensures
        error.len() <= 240 ==> diagnostics::error_detail(error) == error,
        error.len() > 240 ==> diagnostics::error_detail(error) == error.take(237) + "…"@,
{
    places_are_listed(error);
    assert(text::trim(error) == error);
    assert(diagnostics::without_address(error) == error);
    let ends = diagnostics::loose_ends();
    texts::white_space_is_listed(' ');
    assert(!ends.contains(error.last())) by {
        if ends.contains(error.last()) {
            let k = choose|k: int| 0 <= k < ends.len() && ends[k] == error.last();
        }
    }
    assert(text::trim_end_any(error, ends) == error);
}

/// The marks at which an address begins.
pub open spec fn marks() -> Seq<&'static str> {
    seq![" for url", "http://", "https://", "file://"]
}

proof fn cut_at_the_first(s: Seq<char>, n: int, part: Seq<char>)
    requires
        text::is_first_at(s, n, part),
    ensures
        text::before_first(s, part) == s.take(n),
{
    let first = choose|i: int| text::is_first_at(s, i, part);
    text::first_position_is_unique(s, n, first, part);
}

proof fn nothing_to_cut(s: Seq<char>, n: int, part: Seq<char>)
    requires
        0 <= n <= s.len(),
        !text::contains(s, part),
    ensures
        text::before_first(s.take(n), part) == s.take(n),
        text::before_first(s, part) == s,
{
    if text::contains(s.take(n), part) {
        text::prefix_contains_no_more(s, n, part);
    }
}

/// Of an error that names an address, what stands before the address is shown, without the loose ends that
/// are left there.
pub proof fn what_stands_before_an_address_is_shown(
    error: Seq<char>,
    k: int,
    n: int,
    core: Seq<char>,
    ends: Seq<char>,
)
    requires
        0 <= k < 4,
        error.len() > 0,
        !text::is_space(error[0]),
        !text::is_space(error.last()),
        text::is_first_at(error, n, marks()[k]@),
        forall|j: int|
            0 <= j < 4 && j != k ==> !text::contains(error, (#[trigger] marks()[j])@),
        error.take(n) == core + ends,
        names_no_place(core + ends),
        core.len() > 0,
        core.last() != ' ' && core.last() != ':' && core.last() != '(' && core.last() != '-',
        forall|i: int|
            0 <= i < ends.len() ==> (#[trigger] ends[i]) == ' ' || ends[i] == ':' || ends[i] == '('
                || ends[i] == '-',
    ensures
        core.len() <= 240 ==> diagnostics::error_detail(error) == core,
        core.len() > 240 ==> diagnostics::error_detail(error) == core.take(237) + "…"@,
{
    assert(text::trim(error) == error);
    let own = error.take(n);
    assert(marks()[0] == " for url" && marks()[1] == "http://" && marks()[2] == "https://"
        && marks()[3] == "file://");
    cut_at_the_first(error, n, marks()[k]@);
    if k != 0 {
        nothing_to_cut(error, n, marks()[0]@);
    }
    if k != 1 {
        nothing_to_cut(error, n, marks()[1]@);
    }
    if k != 2 {
        nothing_to_cut(error, n, marks()[2]@);
    }
    if k != 3 {
        nothing_to_cut(error, n, marks()[3]@);
    }
    assert(diagnostics::without_address(error) == own);
    places_are_listed(own);
    assert(own.len() > 0);
    loose_ends_go(core, ends);
}

proof fn loose_ends_go(core: Seq<char>, ends: Seq<char>)
    requires
        core.len() > 0,
        core.last() != ' ' && core.last() != ':' && core.last() != '(' && core.last() != '-',
        forall|i: int|
            0 <= i < ends.len() ==> (#[trigger] ends[i]) == ' ' || ends[i] == ':' || ends[i] == '('
                || ends[i] == '-',
    ensures
        text::trim_end_any(core + ends, diagnostics::loose_ends()) == core,
    decreases ends.len(),
{
    let set = diagnostics::loose_ends();
    assert(set[0] == ' ' && set[1] == ':' && set[2] == '(' && set[3] == '-');
    if ends.len() == 0 {
        assert(core + ends =~= core);
        if set.contains(core.last()) {
            let k = choose|k: int| 0 <= k < set.len() && set[k] == core.last();
        }
    } else {
        let last = ends[ends.len() - 1];
        assert((core + ends).last() == last);
        assert(set.contains(last));
        assert((core + ends).drop_last() =~= core + ends.drop_last());
        loose_ends_go(core, ends.drop_last());
    }
}

/// An error whose own words name a place on this computer is told of in the sentence of its kind.
pub proof fn errors_that_name_places_are_replaced(error: Seq<char>)
    requires
        error.len() > 0,
        !text::is_space(error[0]),
        !text::is_space(error.last()),
        !text::contains(error, " for url"@),
        !text::contains(error, "http://"@),
        !text::contains(error, "https://"@),
        !text::contains(error, "file://"@),
        !names_no_place(error),
    ensures
        diagnostics::error_detail(error) == diagnostics::error_class(error).1,
{
    places_are_listed(error);
    assert(text::trim(error) == error);
    assert(diagnostics::without_address(error) == error);
    sentences_are_whole(error);
}

proof fn sentences_are_whole(error: Seq<char>)
    ensures
        ({
            let sentence = diagnostics::error_class(error).1;
            diagnostics::bounded(text::trim_end_any(sentence, diagnostics::loose_ends()))
                == sentence
        }),
{
    let sentence = diagnostics::error_class(error).1;
    let ends = diagnostics::loose_ends();
    reveal_strlit("Модель не ответила в установленное время");
    assert("Модель не ответила в установленное время"@.len() == 40 && "Модель не ответила в установленное время"@.last() == 'я');
    reveal_strlit("Ответ модели не является валидным JSON");
    assert("Ответ модели не является валидным JSON"@.len() == 38 && "Ответ модели не является валидным JSON"@.last() == 'N');
    reveal_strlit("API модели вернул ошибку HTTP");
    assert("API модели вернул ошибку HTTP"@.len() == 29 && "API модели вернул ошибку HTTP"@.last() == 'P');
    reveal_strlit("В ответе модели отсутствует ожидаемое поле");
    assert("В ответе модели отсутствует ожидаемое поле"@.len() == 42 && "В ответе модели отсутствует ожидаемое поле"@.last() == 'е');
    reveal_strlit("Сетевая ошибка запроса к модели");
    assert("Сетевая ошибка запроса к модели"@.len() == 31 && "Сетевая ошибка запроса к модели"@.last() == 'и');
    reveal_strlit("Неизвестная техническая ошибка модели");
    assert("Неизвестная техническая ошибка модели"@.len() == 37 && "Неизвестная техническая ошибка модели"@.last() == 'и');
    assert(!ends.contains(sentence.last())) by {
        if ends.contains(sentence.last()) {
            let k = choose|k: int| 0 <= k < ends.len() && ends[k] == sentence.last();
        }
    }
    assert(text::trim_end_any(sentence, ends) == sentence);
}

// ---------------------------------------------------------------------------
// Refusals
// ---------------------------------------------------------------------------

proof fn reasons_differ()
    ensures
        "запрос превышает доступный контекст модели"@ != "запрос слишком большой для API модели"@,
        "запрос превышает доступный контекст модели"@ != "выбранная модель не найдена или не загружена"@,
        "запрос превышает доступный контекст модели"@ != "API отклонил авторизацию"@,
        "запрос превышает доступный контекст модели"@ != "API отклонил запрос; подробности ответа скрыты для конфиденциальности"@,
        "запрос слишком большой для API модели"@ != "выбранная модель не найдена или не загружена"@,
        "запрос слишком большой для API модели"@ != "API отклонил авторизацию"@,
        "запрос слишком большой для API модели"@ != "API отклонил запрос; подробности ответа скрыты для конфиденциальности"@,
        "выбранная модель не найдена или не загружена"@ != "API отклонил авторизацию"@,
        "выбранная модель не найдена или не загружена"@ != "API отклонил запрос; подробности ответа скрыты для конфиденциальности"@,
        "API отклонил авторизацию"@ != "API отклонил запрос; подробности ответа скрыты для конфиденциальности"@,
{
    reveal_strlit("запрос превышает доступный контекст модели");
    reveal_strlit("запрос слишком большой для API модели");
    reveal_strlit("выбранная модель не найдена или не загружена");
    reveal_strlit("API отклонил авторизацию");
    reveal_strlit("API отклонил запрос; подробности ответа скрыты для конфиденциальности");
    assert("запрос превышает доступный контекст модели"@[7] == 'п' && "запрос слишком большой для API модели"@[7] == 'с');
    assert("запрос превышает доступный контекст модели"@[0] == 'з' && "выбранная модель не найдена или не загружена"@[0] == 'в');
    assert("запрос превышает доступный контекст модели"@[0] == 'з' && "API отклонил авторизацию"@[0] == 'A');
    assert("запрос превышает доступный контекст модели"@[0] == 'з' && "API отклонил запрос; подробности ответа скрыты для конфиденциальности"@[0] == 'A');
    assert("запрос слишком большой для API модели"@[0] == 'з' && "выбранная модель не найдена или не загружена"@[0] == 'в');
    assert("запрос слишком большой для API модели"@[0] == 'з' && "API отклонил авторизацию"@[0] == 'A');
    assert("запрос слишком большой для API модели"@[0] == 'з' && "API отклонил запрос; подробности ответа скрыты для конфиденциальности"@[0] == 'A');
    assert("выбранная модель не найдена или не загружена"@[0] == 'в' && "API отклонил авторизацию"@[0] == 'A');
    assert("выбранная модель не найдена или не загружена"@[0] == 'в' && "API отклонил запрос; подробности ответа скрыты для конфиденциальности"@[0] == 'A');
    assert("API отклонил авторизацию"@[13] == 'а' && "API отклонил запрос; подробности ответа скрыты для конфиденциальности"@[13] == 'з');
}

/// Why a service refused, word by word of its answer in lower case, and in which words it is told.
pub proof fn refusals_are_told_by_their_words(status: Seq<char>, body: Seq<char>)
    ensures
        (text::contains(body, "context"@) || text::contains(body, "token"@) || text::contains(body, "max_tokens"@) || text::contains(body, "context_length"@)) ==> diagnostics::refusal_reason(body) == "запрос превышает доступный контекст модели"@,
        diagnostics::refusal_reason(body) == "запрос превышает доступный контекст модели"@ ==> (text::contains(body, "context"@) || text::contains(body, "token"@) || text::contains(body, "max_tokens"@) || text::contains(body, "context_length"@)),
        diagnostics::refusal_reason(body) != "запрос превышает доступный контекст модели"@ && (text::contains(body, "payload"@) || text::contains(body, "request too large"@) || text::contains(body, "body too large"@) || text::contains(body, "too large"@)) ==> diagnostics::refusal_reason(body) == "запрос слишком большой для API модели"@,
        diagnostics::refusal_reason(body) == "запрос слишком большой для API модели"@ ==> (text::contains(body, "payload"@) || text::contains(body, "request too large"@) || text::contains(body, "body too large"@) || text::contains(body, "too large"@)),
        diagnostics::refusal_reason(body) != "запрос превышает доступный контекст модели"@ && diagnostics::refusal_reason(body) != "запрос слишком большой для API модели"@ && (text::contains(body, "model not found"@) || text::contains(body, "unknown model"@) || text::contains(body, "model is not loaded"@)) ==> diagnostics::refusal_reason(body) == "выбранная модель не найдена или не загружена"@,
        diagnostics::refusal_reason(body) == "выбранная модель не найдена или не загружена"@ ==> (text::contains(body, "model not found"@) || text::contains(body, "unknown model"@) || text::contains(body, "model is not loaded"@)),
        diagnostics::refusal_reason(body) != "запрос превышает доступный контекст модели"@ && diagnostics::refusal_reason(body) != "запрос слишком большой для API модели"@ && diagnostics::refusal_reason(body) != "выбранная модель не найдена или не загружена"@ && (text::contains(body, "api key"@) || text::contains(body, "unauthorized"@) || text::contains(body, "authentication"@) || text::contains(body, "forbidden"@)) ==> diagnostics::refusal_reason(body) == "API отклонил авторизацию"@,
        diagnostics::refusal_reason(body) == "API отклонил авторизацию"@ ==> (text::contains(body, "api key"@) || text::contains(body, "unauthorized"@) || text::contains(body, "authentication"@) || text::contains(body, "forbidden"@)),
        diagnostics::refusal_reason(body) != "запрос превышает доступный контекст модели"@ && diagnostics::refusal_reason(body) != "запрос слишком большой для API модели"@ && diagnostics::refusal_reason(body) != "выбранная модель не найдена или не загружена"@ && diagnostics::refusal_reason(body) != "API отклонил авторизацию"@ ==> diagnostics::refusal_reason(body) == "API отклонил запрос; подробности ответа скрыты для конфиденциальности"@,
        diagnostics::refusal(status, body) == "Модель вернула HTTP "@ + status + ": "@ + diagnostics::refusal_reason(body) + "."@,
{
    reasons_differ();
    one_of_four_words(body, "context", "token", "max_tokens", "context_length");
    one_of_four_words(body, "payload", "request too large", "body too large", "too large");
    one_of_three_words(body, "model not found", "unknown model", "model is not loaded");
    one_of_four_words(body, "api key", "unauthorized", "authentication", "forbidden");
}

/// A refusal is told of by the line of its status and by the answer in lower case; a duration by its
/// milliseconds.
pub proof fn refusals_name_their_status(status: u16, body: Seq<char>, millis: u128)
    ensures
        diagnostics::http_error(status, body) == "Модель вернула HTTP "@ + outside::status_line(
            status,
        ) + ": "@ + diagnostics::refusal_reason(outside::lowercase(body)) + "."@,
        millis <= u64::MAX ==> diagnostics::shown_ms(millis) == millis,
        millis > u64::MAX ==> diagnostics::shown_ms(millis) == u64::MAX,
{
}

// ---------------------------------------------------------------------------
// The log
// ---------------------------------------------------------------------------

/// What an extension is called in the log: with a dot in front and in lower case, and without the
/// white space round it; a file without one is called so.
pub proof fn extensions_are_labelled(before: Seq<char>, ext: Seq<char>, after: Seq<char>)
    requires
        forall|i: int| 0 <= i < before.len() ==> text::is_space(#[trigger] before[i]),
        forall|i: int| 0 <= i < after.len() ==> text::is_space(#[trigger] after[i]),
        ext.len() > 0 ==> !text::is_space(ext[0]) && !text::is_space(ext.last()),
    ensures
        ext.len() > 0 ==> extensions::label(before + ext + after) == "."@ + outside::lowercase(ext),
        ext.len() == 0 ==> extensions::label(before + ext + after) == "без расширения"@,
{
    texts::trimming_takes_white_space_off(before, ext, after);
}

/// The labels of the files, counted: how often each occurs, the most frequent first and of two
/// equally frequent ones the one that comes first in the order of texts. Beyond twelve the rest is
/// counted together.
pub proof fn extensions_are_counted(contexts: Seq<ContextView>)
    ensures
        extensions::labels(contexts).len() == contexts.len(),
        forall|i: int|
            0 <= i < contexts.len() ==> #[trigger] extensions::labels(contexts)[i]
                == extensions::label(contexts[i].extension),
        extensions::ranking(extensions::labels(contexts)).len() <= 12 ==> extensions::summary(
            contexts,
        ) == extensions::ranking(extensions::labels(contexts)),
        extensions::ranking(extensions::labels(contexts)).len() > 12 ==> extensions::summary(
            contexts,
        ).len() == 13 && extensions::summary(contexts).take(12) == extensions::ranking(
            extensions::labels(contexts),
        ).take(12) && extensions::summary(contexts)[12].extension == "другие"@
            && extensions::summary(contexts)[12].count + extensions::total(
            extensions::ranking(extensions::labels(contexts)).take(12),
        ) == extensions::total(extensions::ranking(extensions::labels(contexts))),
{
    let all = extensions::ranking(extensions::labels(contexts));
    if all.len() > 12 {
        let head = all.take(12);
        let tail = all.skip(12);
        assert(extensions::summary(contexts).take(12) =~= head);
        assert(head + tail =~= all);
        totals_add_up(head, tail);
    }
}

proof fn totals_add_up(one: Seq<CountView>, other: Seq<CountView>)
    ensures
        extensions::total(one + other) == extensions::total(one) + extensions::total(other),
    decreases other.len(),
{
    if other.len() == 0 {
        assert(one + other =~= one);
    } else {
        assert((one + other).drop_last() =~= one + other.drop_last());
        totals_add_up(one, other.drop_last());
    }
}

/// How often a label occurs is the number of files that bear it.
pub proof fn labels_are_counted_one_by_one(all: Seq<Seq<char>>, one: Seq<char>)
    ensures
        extensions::occurrences(all, one) == all.filter(|x: Seq<char>| x == one).len(),
    decreases all.len(),
{
    reveal(Seq::filter);
    if all.len() > 0 {
        labels_are_counted_one_by_one(all.drop_last(), one);
    }
}

/// Whether a label is among those that are counted.
pub open spec fn is_named(counts: Seq<CountView>, label: Seq<char>) -> bool {
    exists|i: int| 0 <= i < counts.len() && (#[trigger] counts[i]).extension == label
}

/// A ranking counts every label, the counts of the labels that occur, and stands in the order of the counts
/// and then of the texts; the summary is cut from it.
pub proof fn rankings_are_complete_and_ordered(contexts: Seq<ContextView>, counts: Seq<CountView>)
    requires
        extensions::is_ranking(extensions::labels(contexts), counts),
    ensures
        extensions::ranking(extensions::labels(contexts)) == counts,
        forall|i: int|
            0 <= i < counts.len() ==> (#[trigger] counts[i]).count > 0 && counts[i].count
                == extensions::occurrences(extensions::labels(contexts), counts[i].extension),
        forall|k: int|
            0 <= k < contexts.len() ==> is_named(
                counts,
                extensions::label((#[trigger] contexts[k]).extension),
            ),
        forall|i: int, j: int|
            #![trigger counts[i], counts[j]]
            0 <= i < j < counts.len() ==> counts[i].count > counts[j].count || counts[i].count
                == counts[j].count && text::text_before(counts[i].extension, counts[j].extension),
{
    let all = extensions::labels(contexts);
    extensions::ranking_is_unique(all, counts, extensions::ranking(all));
    assert forall|k: int| 0 <= k < contexts.len() implies is_named(
        counts,
        extensions::label((#[trigger] contexts[k]).extension),
    ) by {
        assert(all[k] == extensions::label(contexts[k].extension));
        assert(extensions::has_label(counts, all[k]));
    }
}

/// Which of two counts stands first.
pub proof fn frequent_labels_come_first(a: CountView, b: CountView)
    ensures
        a.count > b.count ==> extensions::stands_above(a, b) && !extensions::stands_above(b, a),
        a.count == b.count && text::text_before(a.extension, b.extension)
            ==> extensions::stands_above(a, b),
        a.count == b.count && a.extension == b.extension ==> !extensions::stands_above(a, b),
{
    text::text_order_is_irreflexive(a.extension);
}

/// The line of the log on an attempt says what it is asked to say: the phase, the attempt, the
/// request and its number, the files and their extensions and bytes, how long it took and how it ended.
pub proof fn the_log_says_what_happened(
    phase: Seq<char>,
    attempt: usize,
    number: usize,
    all: usize,
    batch: Seq<ContextView>,
    duration: u64,
    outcome: Seq<char>,
    successful: nat,
    unresolved: nat,
    error: Option<(Seq<char>, Seq<char>)>,
)
    ensures
        ({
            let line = diagnostics::batch_log(
                phase,
                attempt,
                number,
                all,
                batch,
                duration,
                outcome,
                successful,
                unresolved,
                error,
            );
            &&& line.phase == phase
            &&& line.attempt == Some(attempt)
            &&& line.batch_number == Some(number)
            &&& line.total_batches == Some(all)
            &&& line.file_count == batch.len()
            &&& line.extensions == extensions::summary(batch)
            &&& line.duration_ms == duration
            &&& line.outcome == outcome
            &&& line.successful_files == successful
            &&& line.unresolved_files == unresolved
            &&& line.skipped_files == 0
            &&& line.input_bytes is Some
            &&& batches::bytes_between(batch, 0, batch.len() as int) <= usize::MAX
                ==> line.input_bytes->0 == batches::bytes_between(batch, 0, batch.len() as int)
            &&& error is None ==> line.error_kind is None && line.error_detail is None
            &&& error matches Some((kind, detail)) ==> line.error_kind == Some(kind)
                && line.error_detail == Some(detail)
        }),
{
}

} // verus!
