//! What a scan looks at, and what it makes of a file.

use crate::batches;
use crate::categories;
use crate::json;
use crate::names;
use crate::outside;
use crate::paths::Style;
use crate::previews;
use crate::previews::PreviewView;
use crate::records;
use crate::records::{AiStatus, ContextView, PlanItem, SortSettings};
use crate::refinement::AiRefinement;
use crate::scan;
use crate::scan::{AnalysisResult, FileFacts, FileFate, ScanView};
use crate::text;
use vstd::prelude::*;

verus! {

proof fn one_of_four_texts(s: Seq<char>, w0: &'static str, w1: &'static str, w2: &'static str, w3: &'static str)
    ensures
        text::one_of(s, seq![w0, w1, w2, w3]) <==> (s == w0@ || s == w1@ || s == w2@ || s == w3@),
{
    let list = seq![w0, w1, w2, w3];
    assert(list[0] == w0);
    assert(list[1] == w1);
    assert(list[2] == w2);
    assert(list[3] == w3);
}

proof fn one_of_six_texts(s: Seq<char>, w0: &'static str, w1: &'static str, w2: &'static str, w3: &'static str, w4: &'static str, w5: &'static str)
    ensures
        text::one_of(s, seq![w0, w1, w2, w3, w4, w5]) <==> (s == w0@ || s == w1@ || s == w2@ || s == w3@ || s == w4@ || s == w5@),
{
    let list = seq![w0, w1, w2, w3, w4, w5];
    assert(list[0] == w0);
    assert(list[1] == w1);
    assert(list[2] == w2);
    assert(list[3] == w3);
    assert(list[4] == w4);
    assert(list[5] == w5);
}

// ---------------------------------------------------------------------------
// What is looked at
// ---------------------------------------------------------------------------

/// The folders that a scan does not enter, in whatever case they are written: what was sorted before,
/// programs, and what belongs to the system.
pub proof fn some_folders_are_left_alone(name: Seq<char>)
    ensures
        scan::is_closed_folder(name) <==> (text::ascii_lower_text(name) == "ai sorted"@
            || text::ends_with(text::ascii_lower_text(name), ".app"@) || text::ascii_lower_text(name)
            == "$recycle.bin"@ || text::ascii_lower_text(name) == "system volume information"@),
        scan::is_closed_folder(text::ascii_lower_text(name)) == scan::is_closed_folder(name),
{
    reveal_strlit("AI Sorted");
    reveal_strlit("ai sorted");
    let sorted = "AI Sorted"@;
    assert(sorted[0] == 'A' && sorted[1] == 'I' && sorted[2] == ' ' && sorted[3] == 'S' && sorted[4] == 'o' && sorted[5] == 'r' && sorted[6] == 't' && sorted[7] == 'e' && sorted[8] == 'd');
    assert(text::ascii_lower_text(sorted) =~= "ai sorted"@);
    let lower = text::ascii_lower_text(name);
    assert(text::ascii_lower_text(lower) =~= lower) by {
        assert forall|i: int| 0 <= i < lower.len() implies text::ascii_lower(#[trigger] lower[i])
            == lower[i] by {
            lower_stays_lower(name[i]);
        }
    }
}

proof fn lower_stays_lower(c: char)
    ensures
        text::ascii_lower(text::ascii_lower(c)) == text::ascii_lower(c),
{
}

/// A scan looks at the chosen folder whatever it is called, at every file, and at every other folder that
/// it does not leave alone.
pub proof fn files_are_always_looked_at(depth: nat, name: Seq<char>)
    ensures
        scan::is_looked_at(depth, name, false),
        scan::is_looked_at(0, name, true),
        depth > 0 ==> scan::is_looked_at(depth, name, true) == !scan::is_closed_folder(name),
{
}

/// The files that a scan leaves out: the sorter's own, by how their names begin, and those that the
/// system keeps for itself, in whatever case they are written.
pub proof fn some_files_are_left_out(name: Seq<char>)
    ensures
        scan::is_skipped(name) <==> (text::starts_with(name, ".ai-file-sorter-"@)
            || text::ascii_lower_text(name) == ".ds_store"@ || text::ascii_lower_text(name) == ".localized"@ || text::ascii_lower_text(name) == "thumbs.db"@ || text::ascii_lower_text(name) == "desktop.ini"@),
{
    one_of_four_texts(text::ascii_lower_text(name), ".ds_store", ".localized", "thumbs.db", "desktop.ini");
}

// ---------------------------------------------------------------------------
// What is made of a file
// ---------------------------------------------------------------------------

/// The item of a file holds what is known of the file; it is included, waits for the model, and goes
/// where its suggestion sends it. That the content of a recording is not looked at is said of it, and of
/// no other file.
pub proof fn items_hold_what_is_known(
    style: Style,
    facts: FileFacts,
    extension: Seq<char>,
    id: Seq<char>,
)
    ensures
        ({
            let item = scan::planned_item(style, facts, extension, id);
            let category = categories::suggested(
                outside::lowercase(facts.relative_path@),
                extension,
            );
            &&& item.id == id
            &&& item.source == facts.source@
            &&& item.relative_path == facts.relative_path@
            &&& item.category == category
            &&& item.target == names::target_under(
                style,
                category,
                records::option_view(facts.file_name),
            )
            &&& item.explanation == categories::suggestion_explanation(category)
            &&& item.confidence == categories::suggestion_confidence(category)
            &&& item.included
            &&& item.ai_status == AiStatus::RetryPending
            &&& item.ai_error is None
            &&& (extension == "mp3"@ || extension == "wav"@ || extension == "m4a"@ || extension == "mp4"@ || extension == "mov"@ || extension == "mkv"@) ==> item.warning == Some(
                "Содержимое аудио/видео в первой версии не анализируется."@,
            )
            &&& !(extension == "mp3"@ || extension == "wav"@ || extension == "m4a"@ || extension == "mp4"@ || extension == "mov"@ || extension == "mkv"@) ==> item.warning is None
        }),
{
    one_of_six_texts(extension, "mp3", "wav", "m4a", "mp4", "mov", "mkv");
}

/// The model is told what is known of the file, and what its name suggests.
pub proof fn contexts_hold_what_is_known(
    facts: FileFacts,
    extension: Seq<char>,
    preview: PreviewView,
    id: Seq<char>,
)
    ensures
        ({
            let context = scan::whole_context(facts, extension, preview, id);
            &&& context.id == id
            &&& context.path == facts.relative_path@
            &&& context.extension == extension
            &&& context.size_bytes == facts.size_bytes
            &&& context.created_at == records::option_view(facts.created_at)
            &&& context.modified_at == records::option_view(facts.modified_at)
            &&& context.suggested_category == categories::suggested(
                outside::lowercase(facts.relative_path@),
                extension,
            )
            &&& context.content_extract == preview.extract
            &&& context.content_status == preview.status
        }),
        facts.extension is Some ==> scan::normalized_extension(
            records::option_view(facts.extension),
        ) == outside::lowercase(facts.extension->0@),
        facts.extension is None ==> scan::normalized_extension(
            records::option_view(facts.extension),
        ).len() == 0,
{
}

/// A file that is added gets one item and one context, behind those of the files before it, and its
/// text is counted. Nothing else of the scan changes. A file that is not added changes nothing.
pub proof fn files_are_added_one_by_one(
    s: ScanView,
    facts: FileFacts,
    extension: Seq<char>,
    preview: PreviewView,
    id: Seq<char>,
)
    ensures
        ({
            let after = scan::past_file(s, facts, extension, preview, id);
            let context = batches::fitted(scan::whole_context(facts, extension, preview, id));
            let shown = match context.content_extract {
                Some(extract) => extract.len(),
                None => 0,
            };
            let came = scan::fate(facts, extension, preview, id);
            &&& came == FileFate::Added ==> after.items == s.items + seq![
                scan::planned_item(s.style, facts, extension, id),
            ]
            &&& came == FileFate::Added ==> after.contexts == s.contexts + seq![context]
            &&& came == FileFate::Added && s.total_chars + shown <= usize::MAX ==> after.total_chars
                == s.total_chars + shown
            &&& came != FileFate::Added ==> after == s
            &&& after.warnings == s.warnings
            &&& after.inaccessible_files == s.inaccessible_files
            &&& after.style == s.style
        }),
        scan::fate(facts, extension, preview, id) == FileFate::NoRoom <==> !batches::can_be_cut(
            scan::whole_context(facts, extension, preview, id),
        ) && !(facts.file_name is Some && scan::is_skipped(facts.file_name->0@)),
        facts.file_name is Some && scan::is_skipped(facts.file_name->0@) <==> scan::fate(
            facts,
            extension,
            preview,
            id,
        ) == FileFate::Skipped,
{
    let after = scan::past_file(s, facts, extension, preview, id);
    if scan::fate(facts, extension, preview, id) == FileFate::Added {
        assert(after.items =~= s.items + seq![scan::planned_item(s.style, facts, extension, id)]);
        assert(after.contexts =~= s.contexts + seq![
            batches::fitted(scan::whole_context(facts, extension, preview, id)),
        ]);
    }
}

/// A file may show as many characters as are set for one file, as long as the total allows it, and else
/// as many as are left.
pub proof fn files_show_what_is_left(s: ScanView, sort: SortSettings)
    ensures
        sort.unlimited ==> scan::next_limit(s, sort) == sort.text_limit,
        !sort.unlimited && s.total_chars + sort.text_limit <= sort.total_limit ==> scan::next_limit(
            s,
            sort,
        ) == sort.text_limit,
        !sort.unlimited && s.total_chars <= sort.total_limit && s.total_chars + sort.text_limit
            > sort.total_limit ==> s.total_chars + scan::next_limit(s, sort) == sort.total_limit,
        !sort.unlimited && s.total_chars >= sort.total_limit ==> scan::next_limit(s, sort) == 0,
{
}

// ---------------------------------------------------------------------------
// What is said of a scan
// ---------------------------------------------------------------------------

proof fn the_limits_are_written()
    ensures
        scan::unlimited_warning()
            == "Без общего лимита: для каждого файла используется заданный лимит текста, а один запрос к ИИ ограничен 8000 байтами контекста."@,
        scan::long_instruction_warning()
            == "Для устойчивости в ИИ передаются только первые 600 символов пользовательской инструкции."@,
{
    reveal_strlit(
        "Без общего лимита: для каждого файла используется заданный лимит текста, а один запрос к ИИ ограничен ",
    );
    reveal_strlit(" байтами контекста.");
    reveal_strlit(
        "Без общего лимита: для каждого файла используется заданный лимит текста, а один запрос к ИИ ограничен 8000 байтами контекста.",
    );
    reveal_strlit("Для устойчивости в ИИ передаются только первые ");
    reveal_strlit(" символов пользовательской инструкции.");
    reveal_strlit(
        "Для устойчивости в ИИ передаются только первые 600 символов пользовательской инструкции.",
    );
    reveal_with_fuel(text::decimal, 4);
    assert(text::decimal(8000) =~= seq!['8', '0', '0', '0']);
    assert(text::decimal(600) =~= seq!['6', '0', '0']);
    assert(scan::unlimited_warning()
        =~= "Без общего лимита: для каждого файла используется заданный лимит текста, а один запрос к ИИ ограничен 8000 байтами контекста."@);
    assert(scan::long_instruction_warning()
        =~= "Для устойчивости в ИИ передаются только первые 600 символов пользовательской инструкции."@);
}

/// A scan begins with a word on the limits where there is something to say of them: that there is no
/// limit, and that an instruction is cut, in this order.
pub proof fn scans_begin_with_a_word_on_limits(sort: SortSettings)
    ensures
        ({
            let cut = sort.mode@ == "custom"@ && sort.custom_prompt@.len() > 600;
            let unlimited =
                "Без общего лимита: для каждого файла используется заданный лимит текста, а один запрос к ИИ ограничен 8000 байтами контекста."@;
            let long =
                "Для устойчивости в ИИ передаются только первые 600 символов пользовательской инструкции."@;
            scan::first_warnings(sort) == if sort.unlimited && cut {
                seq![unlimited, long]
            } else if sort.unlimited {
                seq![unlimited]
            } else if cut {
                seq![long]
            } else {
                Seq::empty()
            }
        }),
{
    the_limits_are_written();
    let unlimited = scan::unlimited_warning();
    let long = scan::long_instruction_warning();
    assert(seq![unlimited].push(long) =~= seq![unlimited, long]);
    assert(Seq::<Seq<char>>::empty().push(long) =~= seq![long]);
}

/// A scan ends with a word on an instruction that is missing, and on what could not be read, in this
/// order and behind what was said before.
pub proof fn scans_end_with_a_word_on_what_is_missing(
    sort: SortSettings,
    before: Seq<Seq<char>>,
    count: nat,
)
    ensures
        ({
            let blank = sort.mode@ == "custom"@ && text::trim(sort.custom_prompt@).len() == 0;
            let missing = "Кастомный режим без инструкции использовал стандартные категории."@;
            let unread = "Нет доступа к "@ + text::decimal(count)
                + " объектам; их имена и пути скрыты."@;
            scan::last_warnings(sort, before, count) == before + if blank && count > 0 {
                seq![missing, unread]
            } else if blank {
                seq![missing]
            } else if count > 0 {
                seq![unread]
            } else {
                Seq::empty()
            }
        }),
{
    let missing = "Кастомный режим без инструкции использовал стандартные категории."@;
    let unread = "Нет доступа к "@ + text::decimal(count) + " объектам; их имена и пути скрыты."@;
    assert(before.push(missing).push(unread) =~= before + seq![missing, unread]);
    assert(before.push(missing) =~= before + seq![missing]);
    assert(before.push(unread) =~= before + seq![unread]);
    assert(before + Seq::<Seq<char>>::empty() =~= before);
}

/// The warnings of an analysis are those of the scan, then those of the run, and then one where the text
/// was used up.
pub proof fn warnings_come_in_order(
    scanned: Seq<Seq<char>>,
    refined: Seq<Seq<char>>,
    sort: SortSettings,
    total_chars: usize,
)
    ensures
        sort.unlimited || total_chars < sort.total_limit ==> scan::all_warnings(
            scanned,
            refined,
            sort,
            total_chars,
        ) == scanned + refined,
        !sort.unlimited && total_chars >= sort.total_limit ==> scan::all_warnings(
            scanned,
            refined,
            sort,
            total_chars,
        ) == scanned + refined + seq![
            "Достигнут общий лимит текста. Часть файлов будет оценена по имени и метаданным."@,
        ],
{
    let last =
        "Достигнут общий лимит текста. Часть файлов будет оценена по имени и метаданным."@;
    assert((scanned + refined).push(last) =~= scanned + refined + seq![last]);
}

/// The result of an analysis counts all its items and all the text that was shown, and holds the items, the
/// warnings and what became of the files.
pub proof fn results_count_everything(
    result: AnalysisResult,
    sort: SortSettings,
    items: Seq<PlanItem>,
    total_chars: usize,
    warnings: Seq<Seq<char>>,
    refinement: AiRefinement,
)
    requires
        scan::is_conclusion(result, sort, items, total_chars, warnings, refinement),
    ensures
        result.items@ == items,
        result.total_files == items.len(),
        result.estimated_chars == total_chars,
        result.summary.ai_processed == refinement.summary.ai_processed,
        result.summary.retry_succeeded == refinement.summary.retry_succeeded,
        result.summary.ai_unprocessed == refinement.summary.ai_unprocessed,
        sort.unlimited || total_chars < sort.total_limit ==> records::text_views(result.warnings@)
            == warnings + records::text_views(refinement.warnings@),
        !sort.unlimited && total_chars >= sort.total_limit ==> records::text_views(
            result.warnings@,
        ) == warnings + records::text_views(refinement.warnings@) + seq![
            "Достигнут общий лимит текста. Часть файлов будет оценена по имени и метаданным."@,
        ],
{
    warnings_come_in_order(
        warnings,
        records::text_views(refinement.warnings@),
        sort,
        total_chars,
    );
}

/// The line of the log on a scan counts the files that were found and those that could not be read.
pub proof fn the_log_counts_the_files(s: ScanView, duration: u64)
    ensures
        ({
            let line = scan::scan_log(s, duration);
            &&& line.phase == "scanning"@
            &&& line.outcome == "success"@
            &&& line.file_count == s.contexts.len()
            &&& line.successful_files == s.contexts.len()
            &&& line.unresolved_files == 0
            &&& line.skipped_files == s.inaccessible_files
            &&& line.extensions == crate::extensions::summary(s.contexts)
            &&& line.duration_ms == duration
            &&& line.attempt is None
            &&& line.batch_number is None
            &&& line.total_batches is None
            &&& line.input_bytes is None
            &&& line.error_kind is None
            &&& line.error_detail is None
        }),
        scan::scan_start().phase == "scanning"@,
        scan::scan_start().message == "Сканирование файлов…"@,
        scan::scan_start().processed_files == 0,
        scan::scan_start().pending_files == 0,
{
}

// ---------------------------------------------------------------------------
// Previews
// ---------------------------------------------------------------------------

proof fn kinds_are_listed(ext: Seq<char>)
    ensures
        text::one_of(ext, previews::text_kinds()) <==> (ext == "txt"@ || ext == "md"@ || ext == "csv"@ || ext == "json"@ || ext == "xml"@ || ext == "yaml"@ || ext == "yml"@ || ext == "toml"@ || ext == "html"@ || ext == "htm"@ || ext == "log"@ || ext == "py"@ || ext == "js"@ || ext == "ts"@ || ext == "rs"@ || ext == "java"@ || ext == "c"@ || ext == "cpp"@ || ext == "h"@ || ext == "sql"@),
{
    let list = previews::text_kinds();
    assert(list[0] == "txt");
    assert(list[1] == "md");
    assert(list[2] == "csv");
    assert(list[3] == "json");
    assert(list[4] == "xml");
    assert(list[5] == "yaml");
    assert(list[6] == "yml");
    assert(list[7] == "toml");
    assert(list[8] == "html");
    assert(list[9] == "htm");
    assert(list[10] == "log");
    assert(list[11] == "py");
    assert(list[12] == "js");
    assert(list[13] == "ts");
    assert(list[14] == "rs");
    assert(list[15] == "java");
    assert(list[16] == "c");
    assert(list[17] == "cpp");
    assert(list[18] == "h");
    assert(list[19] == "sql");
    if text::one_of(ext, list) {
        let i = choose|i: int| 0 <= i < list.len() && ext == (#[trigger] list[i])@;
    }
}

/// A file is read where its extension is that of a text and there is room for text; else it is said why
/// not. What is read is enough for the characters that may be shown, whatever they are.
pub proof fn texts_are_read(ext: Seq<char>, limit: usize)
    ensures
        !(ext == "txt"@ || ext == "md"@ || ext == "csv"@ || ext == "json"@ || ext == "xml"@ || ext == "yaml"@ || ext == "yml"@ || ext == "toml"@ || ext == "html"@ || ext == "htm"@ || ext == "log"@ || ext == "py"@ || ext == "js"@ || ext == "ts"@ || ext == "rs"@ || ext == "java"@ || ext == "c"@ || ext == "cpp"@ || ext == "h"@ || ext == "sql"@) <==> previews::not_read(ext, limit) == Some(
            "Содержимое этого формата не извлекается; использованы метаданные файла."@,
        ),
        (ext == "txt"@ || ext == "md"@ || ext == "csv"@ || ext == "json"@ || ext == "xml"@ || ext == "yaml"@ || ext == "yml"@ || ext == "toml"@ || ext == "html"@ || ext == "htm"@ || ext == "log"@ || ext == "py"@ || ext == "js"@ || ext == "ts"@ || ext == "rs"@ || ext == "java"@ || ext == "c"@ || ext == "cpp"@ || ext == "h"@ || ext == "sql"@) && limit == 0 <==> previews::not_read(ext, limit) == Some(
            "Достигнут общий лимит текста; использованы метаданные файла."@,
        ),
        (ext == "txt"@ || ext == "md"@ || ext == "csv"@ || ext == "json"@ || ext == "xml"@ || ext == "yaml"@ || ext == "yml"@ || ext == "toml"@ || ext == "html"@ || ext == "htm"@ || ext == "log"@ || ext == "py"@ || ext == "js"@ || ext == "ts"@ || ext == "rs"@ || ext == "java"@ || ext == "c"@ || ext == "cpp"@ || ext == "h"@ || ext == "sql"@) && limit > 0 <==> previews::not_read(ext, limit) is None,
        4 * limit + 4 <= usize::MAX ==> previews::bytes_for(limit) == 4 * limit + 4,
        limit == usize::MAX ==> previews::bytes_for(limit) == u64::MAX,
        limit < usize::MAX && 4 * limit + 4 > usize::MAX ==> previews::bytes_for(limit) == usize::MAX,
{
    kinds_are_listed(ext);
    reveal_strlit("Содержимое этого формата не извлекается; использованы метаданные файла.");
    reveal_strlit("Достигнут общий лимит текста; использованы метаданные файла.");
    assert("Содержимое этого формата не извлекается; использованы метаданные файла."@[0] == 'С');
    assert("Достигнут общий лимит текста; использованы метаданные файла."@[0] == 'Д');
}

/// A text is shown from its beginning on, as far as it may be, and said to be; a text without
/// characters is said to be empty, and what could not be read is said so.
pub proof fn texts_are_shown_from_their_beginning(s: Seq<char>, limit: nat)
    ensures
        s.len() > 0 && s.len() <= limit ==> previews::text_preview(s, limit).extract == Some(s),
        s.len() > limit && limit > 0 ==> previews::text_preview(s, limit).extract == Some(
            s.take(limit as int),
        ),
        s.len() > 0 && limit > 0 ==> previews::text_preview(s, limit).status
            == "Передан фрагмент текстового содержимого и метаданные файла."@,
        s.len() == 0 || limit == 0 ==> previews::text_preview(s, limit).extract is None
            && previews::text_preview(s, limit).status
            == "Текстовый файл пуст; использованы метаданные файла."@,
        forall|bytes: Seq<u8>| #[trigger]
            previews::preview(Some(bytes), limit) == previews::text_preview(
                outside::lossy_text(bytes),
                limit,
            ),
        previews::preview(None, limit).extract is None,
        previews::preview(None, limit).status
            == "Не удалось прочитать содержимое; использованы метаданные файла."@,
{
}

// ---------------------------------------------------------------------------
// What fits a request
// ---------------------------------------------------------------------------

/// A context that fits a request, or has no text to cut, is left as it is. Of any other the text is cut
/// and that is said; all else stays.
pub proof fn only_texts_are_cut(context: ContextView)
    ensures
        text::utf8_len(json::context_json(context)) <= 8000 || context.content_extract is None
            || context.content_extract->0.len() == 0 ==> batches::fitted(context) == context,
        batches::fitted(context).id == context.id,
        batches::fitted(context).path == context.path,
        batches::fitted(context).extension == context.extension,
        batches::fitted(context).size_bytes == context.size_bytes,
        batches::fitted(context).created_at == context.created_at,
        batches::fitted(context).modified_at == context.modified_at,
        batches::fitted(context).suggested_category == context.suggested_category,
        text::utf8_len(json::context_json(context)) > 8000 && context.content_extract is Some
            && context.content_extract->0.len() > 0 ==> batches::fitted(context).content_status
            == "Текст сокращён до безопасного размера ИИ-запроса; использованы также метаданные файла."@
            && batches::fitted(context).content_extract == Some(
            context.content_extract->0.take(
                batches::kept_chars(context, context.content_extract->0.len()) as int,
            ),
        ),
{
}

/// A context is taken where it has no text, or where it fits a request with the first character of its
/// text alone.
pub proof fn contexts_are_taken_where_they_can_be_cut(context: ContextView)
    ensures
        context.content_extract is None || context.content_extract->0.len() == 0
            ==> batches::can_be_cut(context),
        context.content_extract is Some && context.content_extract->0.len() > 0 ==> (
        batches::can_be_cut(context) <==> text::utf8_len(
            json::context_json(
                ContextView {
                    content_extract: Some(context.content_extract->0.take(1)),
                    ..context
                },
            ),
        ) <= 8000),
{
}

/// A text is cut to three quarters again and again, to one character at the least, until its context fits
/// a request: no more is cut than that takes.
pub proof fn texts_are_cut_by_quarters(context: ContextView, n: nat)
    requires
        3 * n <= usize::MAX,
    ensures
        n <= 1 ==> batches::kept_chars(context, n) == n,
        text::utf8_len(
            json::context_json(
                ContextView { content_extract: Some(context.content_extract->0.take(n as int)), ..context },
            ),
        ) <= 8000 ==> batches::kept_chars(context, n) == n,
        n > 1 && text::utf8_len(
            json::context_json(
                ContextView { content_extract: Some(context.content_extract->0.take(n as int)), ..context },
            ),
        ) > 8000 ==> batches::kept_chars(context, n) == batches::kept_chars(context, 3 * n / 4),
{
}

/// A request takes between one and ten files and at most 8000 bytes of them, unless it is about one file
/// alone; it is full where no further file fits, or there is none.
pub proof fn requests_keep_to_their_limits(contexts: Seq<ContextView>, from: int, to: int)
    ensures
        batches::is_batch(contexts, from, to) <==> 0 <= from < to <= contexts.len() && to - from <= 10
            && (to - from == 1 || batches::bytes_between(contexts, from, to) <= 8000),
        batches::is_full(contexts, from, to) <==> to == contexts.len() || to - from >= 10
            || batches::bytes_between(contexts, from, to + 1) > 8000,
        from < to ==> batches::bytes_between(contexts, from, to) == batches::bytes_between(
            contexts,
            from,
            to - 1,
        ) + text::utf8_len(json::context_json(contexts[to - 1])),
        from >= to ==> batches::bytes_between(contexts, from, to) == 0,
{
}

} // verus!
