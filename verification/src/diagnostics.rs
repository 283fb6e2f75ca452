//! Diagnostics that say what went wrong without names, paths or addresses.

use crate::batches;
use crate::extensions;
use crate::outside;
use crate::records;
use crate::records::{AiFileContext, AnalysisLogEvent, ContextView, LogView};
use crate::text;
use vstd::prelude::*;

verus! {

// ---------------------------------------------------------------------------
// Errors without a trace of where they came from
// ---------------------------------------------------------------------------

pub const TIMEOUT_KIND: &'static str = "timeout";

pub const TIMEOUT_TEXT: &'static str = "Модель не ответила в установленное время";

pub const INVALID_JSON_KIND: &'static str = "invalid_json";

pub const INVALID_JSON_TEXT: &'static str = "Ответ модели не является валидным JSON";

pub const HTTP_KIND: &'static str = "http";

pub const HTTP_TEXT: &'static str = "API модели вернул ошибку HTTP";

pub const SHAPE_KIND: &'static str = "response_shape";

pub const SHAPE_TEXT: &'static str = "В ответе модели отсутствует ожидаемое поле";

pub const NETWORK_KIND: &'static str = "network";

pub const NETWORK_TEXT: &'static str = "Сетевая ошибка запроса к модели";

pub const UNKNOWN_KIND: &'static str = "unknown";

pub const UNKNOWN_TEXT: &'static str = "Неизвестная техническая ошибка модели";

/// The number of characters that a detail may have.
pub const MAX_DETAIL_CHARS: usize = 240;

/// The number of characters that stay of a detail that has more.
pub const KEPT_DETAIL_CHARS: usize = 237;

/// The kind of an error, and what is said of it where its own words cannot be shown.
pub open spec fn error_class(error: Seq<char>) -> (Seq<char>, Seq<char>) {
    if text::mentions(error, seq!["Тайм-аут", "timed out"]) {
        (TIMEOUT_KIND@, TIMEOUT_TEXT@)
    } else if text::mentions(error, seq!["невалидный JSON", "не является JSON"]) {
        (INVALID_JSON_KIND@, INVALID_JSON_TEXT@)
    } else if text::contains(error, "HTTP"@) {
        (HTTP_KIND@, HTTP_TEXT@)
    } else if text::contains(error, "choices[0].message.content"@) {
        (SHAPE_KIND@, SHAPE_TEXT@)
    } else if text::mentions(error, seq!["запрос", "request"]) {
        (NETWORK_KIND@, NETWORK_TEXT@)
    } else {
        (UNKNOWN_KIND@, UNKNOWN_TEXT@)
    }
}

/// What stands before the first address.
pub open spec fn without_address(s: Seq<char>) -> Seq<char> {
    text::before_first(
        text::before_first(
            text::before_first(text::before_first(s, " for url"@), "http://"@),
            "https://"@,
        ),
        "file://"@,
    )
}

/// Whether a drive letter, a colon and a slash stand at position `i`.
pub open spec fn is_drive_at(s: Seq<char>, i: int) -> bool {
    &&& 0 <= i && i + 2 < s.len()
    &&& text::is_ascii_letter(s[i])
    &&& s[i + 1] == ':'
    &&& s[i + 2] == '\\' || s[i + 2] == '/'
}

/// Whether a text holds what looks like a path on this computer.
pub open spec fn names_a_path(s: Seq<char>) -> bool {
    ||| text::mentions(s, seq!["/Users/", "/Volumes/", "\\Users\\", "\\\\"])
    ||| exists|i: int| is_drive_at(s, i)
}

/// The characters that a detail does not end in.
pub open spec fn loose_ends() -> Seq<char> {
    seq![' ', ':', '(', '-']
}

/// A detail of bounded length.
pub open spec fn bounded(s: Seq<char>) -> Seq<char> {
    if s.len() > MAX_DETAIL_CHARS {
        s.take(KEPT_DETAIL_CHARS as int) + "…"@
    } else {
        s
    }
}

/// What may be shown of an error.
pub open spec fn error_detail(error: Seq<char>) -> Seq<char> {
    let own_words = without_address(text::trim(error));
    let shown = if names_a_path(own_words) || own_words.len() == 0 {
        error_class(error).1
    } else {
        own_words
    };
    bounded(text::trim_end_any(shown, loose_ends()))
}

fn has_drive(chars: &[char]) -> (found: bool)
    ensures
        found == exists|i: int| is_drive_at(chars@, i),
{
    let mut i: usize = 0;
    while i < chars.len() && chars.len() - i > 2
        invariant
            i <= chars@.len(),
            forall|j: int| j < i ==> !is_drive_at(chars@, j),
        decreases chars@.len() - i,
    {
        if text::char_is_ascii_letter(chars[i]) && chars[i + 1] == ':' && (chars[i + 2] == '\\'
            || chars[i + 2] == '/') {
            assert(is_drive_at(chars@, i as int));
            return true;
        }
        i += 1;
    }
    false
}

/// The kind of an error and what may be shown of it.
pub fn anonymized_error(error: &str) -> (shown: (String, String))
    ensures
        shown.0@ == error_class(error@).0,
        shown.1@ == error_detail(error@),
{
    let chars = text::chars_of(error);
    let timeout = ["Тайм-аут", "timed out"];
    assert(timeout@ =~= seq!["Тайм-аут", "timed out"]);
    let invalid = ["невалидный JSON", "не является JSON"];
    assert(invalid@ =~= seq!["невалидный JSON", "не является JSON"]);
    let network = ["запрос", "request"];
    assert(network@ =~= seq!["запрос", "request"]);
    let (kind, fallback) = if text::holds_any(&chars, &timeout) {
        (TIMEOUT_KIND, TIMEOUT_TEXT)
    } else if text::holds_any(&chars, &invalid) {
        (INVALID_JSON_KIND, INVALID_JSON_TEXT)
    } else if text::holds_text(&chars, "HTTP") {
        (HTTP_KIND, HTTP_TEXT)
    } else if text::holds_text(&chars, "choices[0].message.content") {
        (SHAPE_KIND, SHAPE_TEXT)
    } else if text::holds_any(&chars, &network) {
        (NETWORK_KIND, NETWORK_TEXT)
    } else {
        (UNKNOWN_KIND, UNKNOWN_TEXT)
    };
    let own_words = text::cut_before(
        text::cut_before(
            text::cut_before(text::cut_before(text::trimmed(&chars), " for url"), "http://"),
            "https://",
        ),
        "file://",
    );
    let places = ["/Users/", "/Volumes/", "\\Users\\", "\\\\"];
    assert(places@ =~= seq!["/Users/", "/Volumes/", "\\Users\\", "\\\\"]);
    let fallback_chars = text::chars_of(fallback);
    let hidden = text::holds_any(own_words, &places) || has_drive(own_words) || own_words.len()
        == 0;
    let ends = [' ', ':', '(', '-'];
    assert(ends@ =~= loose_ends());
    let shown: &[char] = if hidden {
        &fallback_chars
    } else {
        own_words
    };
    let trimmed = text::trimmed_end_any(shown, &ends);
    let detail = if trimmed.len() > MAX_DETAIL_CHARS {
        let mut short = text::string_of(text::leading_chars(trimmed, KEPT_DETAIL_CHARS));
        short.append("…");
        short
    } else {
        text::string_of(trimmed)
    };
    (kind.to_owned(), detail)
}

/// What begins an address.
pub open spec fn address_marks() -> Seq<&'static str> {
    seq![" for url", "http://", "https://", "file://"]
}

/// Whether a text shows neither an address nor a path on this computer.
pub open spec fn shows_no_trace(s: Seq<char>) -> bool {
    !text::mentions(s, address_marks()) && !names_a_path(s)
}

/// The beginning of a text shows no more than the text does.
proof fn prefix_shows_no_more(s: Seq<char>, n: int)
    requires
        0 <= n <= s.len(),
        shows_no_trace(s),
    ensures
        shows_no_trace(s.take(n)),
{
    let short = s.take(n);
    let marks = address_marks();
    let places = seq!["/Users/", "/Volumes/", "\\Users\\", "\\\\"];
    if text::mentions(short, marks) {
        let i = choose|i: int| 0 <= i < marks.len() && text::contains(short, (#[trigger] marks[i])@);
        text::prefix_contains_no_more(s, n, marks[i]@);
    }
    if text::mentions(short, places) {
        let i = choose|i: int|
            0 <= i < places.len() && text::contains(short, (#[trigger] places[i])@);
        text::prefix_contains_no_more(s, n, places[i]@);
    }
    if exists|i: int| is_drive_at(short, i) {
        let i = choose|i: int| is_drive_at(short, i);
        assert(is_drive_at(s, i));
    }
}

/// Whether a text holds none of the characters that an address or a path needs.
pub open spec fn is_harmless(s: Seq<char>) -> bool
    decreases s.len(),
{
    s.len() == 0 || (s[0] != '/' && s[0] != '\\' && s[0] != ':' && s[0] != 'f' && is_harmless(
        s.drop_first(),
    ))
}

proof fn harmless_chars(s: Seq<char>)
    requires
        is_harmless(s),
    ensures
        forall|i: int|
            0 <= i < s.len() ==> (#[trigger] s[i]) != '/' && s[i] != '\\' && s[i] != ':' && s[i]
                != 'f',
    decreases s.len(),
{
    if s.len() > 0 {
        harmless_chars(s.drop_first());
        assert forall|i: int| 0 <= i < s.len() implies (#[trigger] s[i]) != '/' && s[i] != '\\'
            && s[i] != ':' && s[i] != 'f' by {
            if i > 0 {
                assert(s[i] == s.drop_first()[i - 1]);
            }
        }
    }
}

proof fn harmless_lacks(s: Seq<char>, part: Seq<char>, k: int)
    requires
        is_harmless(s),
        0 <= k < part.len(),
        part[k] == '/' || part[k] == '\\' || part[k] == 'f',
    ensures
        !text::contains(s, part),
{
    harmless_chars(s);
    if text::contains(s, part) {
        let i = choose|i: int| text::has_at(s, i, part);
        assert(s.subrange(i, i + part.len())[k] == part[k]);
        assert(s[i + k] == part[k]);
    }
}

proof fn harmless_shows_no_trace(s: Seq<char>)
    requires
        is_harmless(s),
    ensures
        shows_no_trace(s),
{
    reveal_strlit(" for url");
    reveal_strlit("http://");
    reveal_strlit("https://");
    reveal_strlit("file://");
    reveal_strlit("/Users/");
    reveal_strlit("/Volumes/");
    reveal_strlit("\\Users\\");
    reveal_strlit("\\\\");
    harmless_lacks(s, " for url"@, 1);
    harmless_lacks(s, "http://"@, 5);
    harmless_lacks(s, "https://"@, 6);
    harmless_lacks(s, "file://"@, 0);
    harmless_lacks(s, "/Users/"@, 0);
    harmless_lacks(s, "/Volumes/"@, 0);
    harmless_lacks(s, "\\Users\\"@, 0);
    harmless_lacks(s, "\\\\"@, 0);
    harmless_chars(s);
    if exists|i: int| is_drive_at(s, i) {
        let i = choose|i: int| is_drive_at(s, i);
        assert(s[i + 1] == ':');
    }
}

proof fn fixed_sentences_are_harmless(error: Seq<char>)
    ensures
        is_harmless(error_class(error).1),
{
    timeout_is_harmless();
    invalid_json_is_harmless();
    http_is_harmless();
    shape_is_harmless();
    network_is_harmless();
    unknown_is_harmless();
}

proof fn timeout_is_harmless()
    ensures
        is_harmless(TIMEOUT_TEXT@),
{
    reveal_strlit("Модель не ответила в установленное время");
    reveal_with_fuel(is_harmless, 50);
}

proof fn invalid_json_is_harmless()
    ensures
        is_harmless(INVALID_JSON_TEXT@),
{
    reveal_strlit("Ответ модели не является валидным JSON");
    reveal_with_fuel(is_harmless, 50);
}

proof fn http_is_harmless()
    ensures
        is_harmless(HTTP_TEXT@),
{
    reveal_strlit("API модели вернул ошибку HTTP");
    reveal_with_fuel(is_harmless, 50);
}

proof fn shape_is_harmless()
    ensures
        is_harmless(SHAPE_TEXT@),
{
    reveal_strlit("В ответе модели отсутствует ожидаемое поле");
    reveal_with_fuel(is_harmless, 50);
}

proof fn network_is_harmless()
    ensures
        is_harmless(NETWORK_TEXT@),
{
    reveal_strlit("Сетевая ошибка запроса к модели");
    reveal_with_fuel(is_harmless, 50);
}

proof fn unknown_is_harmless()
    ensures
        is_harmless(UNKNOWN_TEXT@),
{
    reveal_strlit("Неизвестная техническая ошибка модели");
    reveal_with_fuel(is_harmless, 50);
}

/// What stands before the first address holds no address.
proof fn addresses_are_cut(s: Seq<char>)
    ensures
        !text::mentions(without_address(s), address_marks()),
        without_address(s).len() <= s.len(),
{
    reveal_strlit(" for url");
    reveal_strlit("http://");
    reveal_strlit("https://");
    reveal_strlit("file://");
    let one = text::before_first(s, " for url"@);
    let two = text::before_first(one, "http://"@);
    let three = text::before_first(two, "https://"@);
    let four = text::before_first(three, "file://"@);
    text::before_first_is_free_of_it(s, " for url"@);
    text::before_first_is_free_of_it(one, "http://"@);
    text::before_first_is_free_of_it(two, "https://"@);
    text::before_first_is_free_of_it(three, "file://"@);
    assert(three.take(four.len() as int) =~= two.take(four.len() as int));
    assert(two.take(four.len() as int) =~= one.take(four.len() as int));
    if text::contains(four, " for url"@) {
        text::prefix_contains_no_more(one, four.len() as int, " for url"@);
    }
    if text::contains(four, "http://"@) {
        text::prefix_contains_no_more(two, four.len() as int, "http://"@);
    }
    if text::contains(four, "https://"@) {
        text::prefix_contains_no_more(three, four.len() as int, "https://"@);
    }
    let marks = address_marks();
    if text::mentions(four, marks) {
        let i = choose|i: int| 0 <= i < marks.len() && text::contains(four, (#[trigger] marks[i])@);
        assert(i == 0 || i == 1 || i == 2 || i == 3);
    }
}

/// A part that does not hold the last character occurs without it.
proof fn last_char_adds_nothing(s: Seq<char>, c: char, part: Seq<char>)
    requires
        part.len() > 0,
        !part.contains(c),
        text::contains(s.push(c), part),
    ensures
        text::contains(s, part),
{
    let longer = s.push(c);
    let i = choose|i: int| text::has_at(longer, i, part);
    assert(longer.subrange(i, i + part.len())[part.len() - 1] == part[part.len() - 1]);
    assert(longer[i + part.len() - 1] == part[part.len() - 1]);
    assert(part.contains(part[part.len() - 1]));
    assert(i + part.len() <= s.len());
    assert(s.subrange(i, i + part.len()) =~= longer.subrange(i, i + part.len()));
    assert(text::has_at(s, i, part));
}

proof fn ellipsis_adds_nothing(s: Seq<char>)
    requires
        shows_no_trace(s),
    ensures
        shows_no_trace(s + "…"@),
{
    reveal_strlit("…");
    let c = '…';
    let longer = s.push(c);
    assert(s + "…"@ =~= longer);
    reveal_strlit(" for url");
    reveal_strlit("http://");
    reveal_strlit("https://");
    reveal_strlit("file://");
    reveal_strlit("/Users/");
    reveal_strlit("/Volumes/");
    reveal_strlit("\\Users\\");
    reveal_strlit("\\\\");
    let marks = address_marks();
    let places = seq!["/Users/", "/Volumes/", "\\Users\\", "\\\\"];
    if text::mentions(longer, marks) {
        let i = choose|i: int|
            0 <= i < marks.len() && text::contains(longer, (#[trigger] marks[i])@);
        last_char_adds_nothing(s, c, marks[i]@);
    }
    if text::mentions(longer, places) {
        let i = choose|i: int|
            0 <= i < places.len() && text::contains(longer, (#[trigger] places[i])@);
        last_char_adds_nothing(s, c, places[i]@);
    }
    if exists|i: int| is_drive_at(longer, i) {
        let i = choose|i: int| is_drive_at(longer, i);
        assert(longer[i + 2] != c);
        assert(is_drive_at(s, i));
    }
}

/// What is shown of an error holds no address and no path on this computer, does not
/// end in a loose end, and has a bounded length, whatever the error says.
pub proof fn details_show_no_trace(error: Seq<char>)
    ensures
        shows_no_trace(error_detail(error)),
        error_detail(error).len() <= MAX_DETAIL_CHARS,
        error_detail(error).len() > 0 ==> !loose_ends().contains(error_detail(error).last()),
{
    let trimmed = text::trim(error);
    let own_words = without_address(trimmed);
    let class = error_class(error);
    addresses_are_cut(trimmed);
    let shown = if names_a_path(own_words) || own_words.len() == 0 {
        class.1
    } else {
        own_words
    };
    if names_a_path(own_words) || own_words.len() == 0 {
        fixed_sentences_are_harmless(error);
        harmless_shows_no_trace(class.1);
    }
    let cut = text::trim_end_any(shown, loose_ends());
    text::trim_end_any_is_a_prefix(shown, loose_ends());
    prefix_shows_no_more(shown, cut.len() as int);
    if cut.len() > MAX_DETAIL_CHARS {
        prefix_shows_no_more(cut, KEPT_DETAIL_CHARS as int);
        ellipsis_adds_nothing(cut.take(KEPT_DETAIL_CHARS as int));
        reveal_strlit("…");
        assert(error_detail(error).last() == '…');
    }
}

// ---------------------------------------------------------------------------
// Refusals of the service
// ---------------------------------------------------------------------------

pub const TOO_MUCH_CONTEXT: &'static str = "запрос превышает доступный контекст модели";

pub const TOO_LARGE: &'static str = "запрос слишком большой для API модели";

pub const NO_SUCH_MODEL: &'static str = "выбранная модель не найдена или не загружена";

pub const NOT_AUTHORIZED: &'static str = "API отклонил авторизацию";

pub const REFUSED: &'static str =
    "API отклонил запрос; подробности ответа скрыты для конфиденциальности";

/// Why a service refused a request, by what it answered, in lower case. Nothing else of
/// the answer is told.
pub open spec fn refusal_reason(body: Seq<char>) -> Seq<char> {
    if text::mentions(body, seq!["context", "token", "max_tokens", "context_length"]) {
        TOO_MUCH_CONTEXT@
    } else if text::mentions(
        body,
        seq!["payload", "request too large", "body too large", "too large"],
    ) {
        TOO_LARGE@
    } else if text::mentions(
        body,
        seq!["model not found", "unknown model", "model is not loaded"],
    ) {
        NO_SUCH_MODEL@
    } else if text::mentions(
        body,
        seq!["api key", "unauthorized", "authentication", "forbidden"],
    ) {
        NOT_AUTHORIZED@
    } else {
        REFUSED@
    }
}

/// What is said of a refusal.
pub open spec fn refusal(status: Seq<char>, body: Seq<char>) -> Seq<char> {
    "Модель вернула HTTP "@ + status + ": "@ + refusal_reason(body) + "."@
}

/// What is said of a refusal, by the text of its status and the answer in lower case.
pub fn refusal_text(status: &str, body: &str) -> (message: String)
    ensures
        message@ == refusal(status@, body@),
{
    let chars = text::chars_of(body);
    let context = ["context", "token", "max_tokens", "context_length"];
    assert(context@ =~= seq!["context", "token", "max_tokens", "context_length"]);
    let large = ["payload", "request too large", "body too large", "too large"];
    assert(large@ =~= seq!["payload", "request too large", "body too large", "too large"]);
    let model = ["model not found", "unknown model", "model is not loaded"];
    assert(model@ =~= seq!["model not found", "unknown model", "model is not loaded"]);
    let key = ["api key", "unauthorized", "authentication", "forbidden"];
    assert(key@ =~= seq!["api key", "unauthorized", "authentication", "forbidden"]);
    let reason = if text::holds_any(&chars, &context) {
        TOO_MUCH_CONTEXT
    } else if text::holds_any(&chars, &large) {
        TOO_LARGE
    } else if text::holds_any(&chars, &model) {
        NO_SUCH_MODEL
    } else if text::holds_any(&chars, &key) {
        NOT_AUTHORIZED
    } else {
        REFUSED
    };
    let mut message = "Модель вернула HTTP ".to_owned();
    message.append(status);
    message.append(": ");
    message.append(reason);
    message.append(".");
    message
}

/// What is said of a refusal, by its status and the answer.
pub open spec fn http_error(status: u16, body: Seq<char>) -> Seq<char> {
    refusal(outside::status_line(status), outside::lowercase(body))
}

/// What is said of a refusal.
pub fn model_http_error(status: u16, response_body: &str) -> (message: String)
    requires
        100 <= status <= 999,
    ensures
        message@ == http_error(status, response_body@),
        message@ == refusal(outside::status_line(status), outside::lowercase(response_body@)),
{
    let line = outside::status_text(status);
    let body = response_body.to_lowercase();
    refusal_text(&line, &body)
}

/// Two answers with the same reason and status are told of in the same words: nothing
/// else of an answer is shown.
pub proof fn refusals_hide_the_answer(status: Seq<char>, one: Seq<char>, other: Seq<char>)
    requires
        refusal_reason(one) == refusal_reason(other),
    ensures
        refusal(status, one) == refusal(status, other),
        text::one_of(
            refusal_reason(one),
            seq![TOO_MUCH_CONTEXT, TOO_LARGE, NO_SUCH_MODEL, NOT_AUTHORIZED, REFUSED],
        ),
{
    let all = seq![TOO_MUCH_CONTEXT, TOO_LARGE, NO_SUCH_MODEL, NOT_AUTHORIZED, REFUSED];
    assert(all[0]@ == TOO_MUCH_CONTEXT@ && all[1]@ == TOO_LARGE@ && all[2]@ == NO_SUCH_MODEL@
        && all[3]@ == NOT_AUTHORIZED@ && all[4]@ == REFUSED@);
}

/// The milliseconds of a duration, as far as they fit.
pub open spec fn shown_ms(millis: u128) -> u64 {
    if millis <= u64::MAX {
        millis as u64
    } else {
        u64::MAX
    }
}

/// The milliseconds of a duration, as far as they fit.
pub fn elapsed_ms(millis: u128) -> (shown: u64)
    ensures
        shown == shown_ms(millis),
        shown as int == if millis <= u64::MAX {
            millis as int
        } else {
            u64::MAX as int
        },
{
    if millis <= u64::MAX as u128 {
        millis as u64
    } else {
        u64::MAX
    }
}

/// One line of the log on an attempt at a batch. An error is given by its kind and by
/// what is said of it.
pub open spec fn batch_log(
    phase: Seq<char>,
    attempt: usize,
    batch_number: usize,
    total_batches: usize,
    batch: Seq<ContextView>,
    duration_ms: u64,
    outcome: Seq<char>,
    successful: nat,
    unresolved: nat,
    error: Option<(Seq<char>, Seq<char>)>,
) -> LogView {
    LogView {
        phase,
        attempt: Some(attempt),
        batch_number: Some(batch_number),
        total_batches: Some(total_batches),
        file_count: batch.len(),
        extensions: extensions::summary(batch),
        duration_ms,
        outcome,
        successful_files: successful,
        unresolved_files: unresolved,
        skipped_files: 0,
        input_bytes: Some(
            batches::saturated(batches::bytes_between(batch, 0, batch.len() as int)) as usize,
        ),
        error_kind: match error {
            Some(error) => Some(error.0),
            None => None,
        },
        error_detail: match error {
            Some(error) => Some(error.1),
            None => None,
        },
    }
}

/// One line of the log on an attempt at a batch.
pub fn batch_log_event(
    phase: &str,
    attempt: usize,
    batch_number: usize,
    total_batches: usize,
    batch: &[AiFileContext],
    duration_ms: u64,
    outcome: &str,
    successful_files: usize,
    unresolved_files: usize,
    error: Option<(String, String)>,
) -> (event: AnalysisLogEvent)
    ensures
        event@ == batch_log(
            phase@,
            attempt,
            batch_number,
            total_batches,
            records::context_views(batch@),
            duration_ms,
            outcome@,
            successful_files as nat,
            unresolved_files as nat,
            error_view(error),
        ),
{
    let input_bytes: usize = batches::model_batch_context_bytes(batch);
    let extensions = extensions::extension_summary(batch);
    let (error_kind, error_detail) = match error {
        Some((kind, detail)) => (Some(kind), Some(detail)),
        None => (None, None),
    };
    AnalysisLogEvent {
        phase: phase.to_owned(),
        attempt: Some(attempt),
        batch_number: Some(batch_number),
        total_batches: Some(total_batches),
        file_count: batch.len(),
        extensions,
        duration_ms,
        outcome: outcome.to_owned(),
        successful_files,
        unresolved_files,
        skipped_files: 0,
        input_bytes: Some(input_bytes),
        error_kind,
        error_detail,
    }
}

/// What the kind of an error and the words on it stand for.
pub open spec fn error_view(error: Option<(String, String)>) -> Option<(Seq<char>, Seq<char>)> {
    match error {
        Some(error) => Some((error.0@, error.1@)),
        None => None,
    }
}

/// Two lists of files with the same extensions and the same size get the same line: the
/// log shows no name, no path and no text of a file.
pub proof fn log_shows_only_extensions_and_sizes(
    phase: Seq<char>,
    attempt: usize,
    batch_number: usize,
    total_batches: usize,
    one: Seq<ContextView>,
    other: Seq<ContextView>,
    duration_ms: u64,
    outcome: Seq<char>,
    successful: nat,
    unresolved: nat,
    error: Option<(Seq<char>, Seq<char>)>,
)
    requires
        one.len() == other.len(),
        forall|i: int| 0 <= i < one.len() ==> (#[trigger] one[i]).extension == other[i].extension,
        batches::bytes_between(one, 0, one.len() as int) == batches::bytes_between(
            other,
            0,
            other.len() as int,
        ),
    ensures
        batch_log(
            phase,
            attempt,
            batch_number,
            total_batches,
            one,
            duration_ms,
            outcome,
            successful,
            unresolved,
            error,
        ) == batch_log(
            phase,
            attempt,
            batch_number,
            total_batches,
            other,
            duration_ms,
            outcome,
            successful,
            unresolved,
            error,
        ),
{
    assert(extensions::labels(one) =~= extensions::labels(other));
}

} // verus!
