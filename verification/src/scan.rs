//! The scan of a folder: which files are looked at, and the plan that comes of it.

use crate::batches;
use crate::categories;
use crate::extensions;
use crate::names;
use crate::outside;
use crate::paths;
use crate::paths::Style;
use crate::previews::{Preview, PreviewView};
use crate::records;
use crate::records::{
    AiFileContext, AiStatus, AnalysisLogEvent, AnalysisProgress, ContextView, LogView, PlanItem,
    PlanItemView, ProgressView, SortSettings,
};
use crate::refinement::{AiRefinement, AiSummary};
use crate::requests;
use crate::runs;
use crate::text;
use vstd::prelude::*;

verus! {

// ---------------------------------------------------------------------------
// Which files are looked at
// ---------------------------------------------------------------------------

/// How the names of the sorter's own files begin.
pub const OWN_PREFIX: &'static str = ".ai-file-sorter-";

/// Whether a folder of the given name is left alone: it holds what was sorted before, it
/// is a program, or it belongs to the system.
pub open spec fn is_closed_folder(name: Seq<char>) -> bool {
    let lower = text::ascii_lower_text(name);
    ||| lower == text::ascii_lower_text(names::SORTED_DIR@)
    ||| text::ends_with(lower, ".app"@)
    ||| lower == "$recycle.bin"@
    ||| lower == "system volume information"@
}

/// Whether the scan looks at an entry of a folder: at the chosen folder itself, at every
/// file, and at every folder that is not left alone.
pub open spec fn is_looked_at(depth: nat, name: Seq<char>, is_folder: bool) -> bool {
    depth == 0 || !is_folder || !is_closed_folder(name)
}

/// Whether the scan looks at an entry of a folder.
pub fn scan_entry(depth: usize, name: &str, is_folder: bool) -> (yes: bool)
    ensures
        yes == (depth == 0 || !is_folder || !is_closed_folder(name@)),
        yes == is_looked_at(depth as nat, name@, is_folder),
{
    if depth == 0 || !is_folder {
        return true;
    }
    let chars = text::chars_of(name);
    let sorted = text::chars_of(names::SORTED_DIR);
    let lowered = text::lowered_ascii(&chars);
    let recycled = text::chars_of("$recycle.bin");
    let volume = text::chars_of("system volume information");
    !(text::same_but_ascii_case(&chars, &sorted) || text::finishes_with(&lowered, ".app")
        || text::same_chars(&lowered, &recycled) || text::same_chars(&lowered, &volume))
}

/// Whether a file of the given name is left out: it is the sorter's own, or the system
/// keeps it for itself.
pub open spec fn is_skipped(name: Seq<char>) -> bool {
    ||| text::starts_with(name, OWN_PREFIX@)
    ||| text::one_of(
        text::ascii_lower_text(name),
        seq![".ds_store", ".localized", "thumbs.db", "desktop.ini"],
    )
}

/// Whether a file of the given name is left out.
pub fn skip_name(name: &str) -> (yes: bool)
    ensures
        yes == is_skipped(name@),
{
    let chars = text::chars_of(name);
    let kept = [".ds_store", ".localized", "thumbs.db", "desktop.ini"];
    assert(kept@ =~= seq![".ds_store", ".localized", "thumbs.db", "desktop.ini"]);
    if text::begins_with(&chars, OWN_PREFIX) {
        return true;
    }
    let lowered = text::string_of(&text::lowered_ascii(&chars));
    text::is_one_of(&lowered, &kept)
}

/// Whether a scan leaves out a file, by its path.
pub open spec fn is_skipped_path(style: Style, path: Seq<char>) -> bool {
    match paths::file_name(style, path) {
        Some(name) => is_skipped(name),
        None => false,
    }
}

/// Whether a file is left out, by its path.
pub fn skip_file(style: Style, path: &str) -> (yes: bool)
    ensures
        yes == is_skipped_path(style, path@),
{
    match paths::file_name_of(style, path) {
        Some(name) => skip_name(&name),
        None => false,
    }
}

// ---------------------------------------------------------------------------
// The state of a scan
// ---------------------------------------------------------------------------

pub const NO_INSTRUCTION: &'static str =
    "Кастомный режим без инструкции использовал стандартные категории.";

pub const TEXT_LIMIT_REACHED: &'static str =
    "Достигнут общий лимит текста. Часть файлов будет оценена по имени и метаданным.";

/// The warning on a text without a limit.
pub open spec fn unlimited_warning() -> Seq<char> {
    "Без общего лимита: для каждого файла используется заданный лимит текста, а один запрос к ИИ ограничен "@
        + text::decimal(batches::MAX_BATCH_CONTEXT_BYTES as nat) + " байтами контекста."@
}

/// The warning on an instruction that is cut.
pub open spec fn long_instruction_warning() -> Seq<char> {
    "Для устойчивости в ИИ передаются только первые "@ + text::decimal(
        requests::MAX_CUSTOM_PROMPT_CHARS as nat,
    ) + " символов пользовательской инструкции."@
}

/// The warning on what could not be read.
pub open spec fn inaccessible_warning(count: nat) -> Seq<char> {
    "Нет доступа к "@ + text::decimal(count) + " объектам; их имена и пути скрыты."@
}

/// A scan.
pub struct Scan {
    pub style: Style,
    pub total_chars: usize,
    pub items: Vec<PlanItem>,
    pub contexts: Vec<AiFileContext>,
    pub warnings: Vec<String>,
    pub inaccessible_files: usize,
}

/// What a [`Scan`] stands for.
#[verifier::ext_equal]
pub struct ScanView {
    /// The notation of the paths.
    pub style: Style,
    /// The number of characters that the model gets to see.
    pub total_chars: nat,
    pub items: Seq<PlanItemView>,
    pub contexts: Seq<ContextView>,
    pub warnings: Seq<Seq<char>>,
    pub inaccessible_files: nat,
}

impl View for Scan {
    type V = ScanView;

    open spec fn view(&self) -> ScanView {
        ScanView {
            style: self.style,
            total_chars: self.total_chars as nat,
            items: records::item_views(self.items@),
            contexts: records::context_views(self.contexts@),
            warnings: records::text_views(self.warnings@),
            inaccessible_files: self.inaccessible_files as nat,
        }
    }
}

/// The warnings with which a scan starts.
pub open spec fn first_warnings(sort: SortSettings) -> Seq<Seq<char>> {
    let limits = if sort.unlimited {
        seq![unlimited_warning()]
    } else {
        Seq::empty()
    };
    if sort.mode@ == requests::CUSTOM_MODE@ && sort.custom_prompt@.len()
        > requests::MAX_CUSTOM_PROMPT_CHARS {
        limits.push(long_instruction_warning())
    } else {
        limits
    }
}

/// The warnings with which a scan ends.
pub open spec fn last_warnings(sort: SortSettings, before: Seq<Seq<char>>, inaccessible: nat) -> Seq<
    Seq<char>,
> {
    let instruction = if sort.mode@ == requests::CUSTOM_MODE@ && text::trim(
        sort.custom_prompt@,
    ).len() == 0 {
        before.push(NO_INSTRUCTION@)
    } else {
        before
    };
    if inaccessible > 0 {
        instruction.push(inaccessible_warning(inaccessible))
    } else {
        instruction
    }
}

/// What is known of a file.
#[derive(Debug)]
pub struct FileFacts {
    /// Where it is.
    pub source: String,
    /// Where it is in the chosen folder.
    pub relative_path: String,
    /// Its name, where that is text.
    pub file_name: Option<String>,
    /// Its extension as it is written, where it has one that is text.
    pub extension: Option<String>,
    pub size_bytes: u64,
    pub created_at: Option<String>,
    pub modified_at: Option<String>,
}

/// The extension of a file in lower case; nothing where it has none.
pub open spec fn normalized_extension(extension: Option<Seq<char>>) -> Seq<char> {
    match extension {
        Some(extension) => outside::lowercase(extension),
        None => Seq::empty(),
    }
}

/// The extension of a file in lower case; nothing where it has none.
pub fn file_extension(extension: &Option<String>) -> (lower: String)
    ensures
        lower@ == normalized_extension(records::option_view(*extension)),
{
    match extension {
        Some(extension) => extension.to_lowercase(),
        None => String::new(),
    }
}

/// What the model is told of a file, before its text is cut.
pub open spec fn whole_context(
    facts: FileFacts,
    extension: Seq<char>,
    preview: PreviewView,
    id: Seq<char>,
) -> ContextView {
    ContextView {
        id,
        path: facts.relative_path@,
        extension,
        size_bytes: facts.size_bytes,
        created_at: records::option_view(facts.created_at),
        modified_at: records::option_view(facts.modified_at),
        suggested_category: categories::suggested(
            outside::lowercase(facts.relative_path@),
            extension,
        ),
        content_extract: preview.extract,
        content_status: preview.status,
    }
}

/// The item of a file.
pub open spec fn planned_item(
    style: Style,
    facts: FileFacts,
    extension: Seq<char>,
    id: Seq<char>,
) -> PlanItemView {
    let category = categories::suggested(outside::lowercase(facts.relative_path@), extension);
    PlanItemView {
        id,
        source: facts.source@,
        relative_path: facts.relative_path@,
        target: names::target_under(style, category, records::option_view(facts.file_name)),
        category,
        explanation: categories::suggestion_explanation(category),
        confidence: categories::suggestion_confidence(category),
        included: true,
        warning: if text::one_of(extension, seq!["mp3", "wav", "m4a", "mp4", "mov", "mkv"]) {
            Some(categories::MEDIA_WARNING@)
        } else {
            None
        },
        ai_status: AiStatus::RetryPending,
        ai_error: None,
    }
}

/// The number of characters of the text that goes with a context.
pub open spec fn shown_chars(context: ContextView) -> nat {
    match context.content_extract {
        Some(extract) => extract.len(),
        None => 0,
    }
}

/// A scan after a file.
pub open spec fn with_file(
    s: ScanView,
    facts: FileFacts,
    extension: Seq<char>,
    preview: PreviewView,
    id: Seq<char>,
) -> ScanView {
    let context = batches::fitted(whole_context(facts, extension, preview, id));
    ScanView {
        total_chars: batches::saturated(s.total_chars + shown_chars(context)),
        items: s.items.push(planned_item(s.style, facts, extension, id)),
        contexts: s.contexts.push(context),
        ..s
    }
}

/// The number of characters that the next file may show.
pub open spec fn next_limit(s: ScanView, sort: SortSettings) -> nat {
    let left = if sort.unlimited {
        usize::MAX as nat
    } else if s.total_chars <= sort.total_limit {
        (sort.total_limit - s.total_chars) as nat
    } else {
        0
    };
    if sort.text_limit <= left {
        sort.text_limit as nat
    } else {
        left
    }
}

/// What becomes of a file that a scan comes to.
#[derive(Debug, Clone, Copy, PartialEq, Eq, Structural)]
pub enum FileFate {
    /// It is left out.
    Skipped,
    /// It is added.
    Added,
    /// What is told of it leaves no room for its text.
    NoRoom,
}

/// Whether a scan leaves out a file. One without a name that is text is taken.
pub open spec fn is_left_out(facts: FileFacts) -> bool {
    match facts.file_name {
        Some(name) => is_skipped(name@),
        None => false,
    }
}

/// What becomes of a file that would be added under the given id.
pub open spec fn fate(
    facts: FileFacts,
    extension: Seq<char>,
    preview: PreviewView,
    id: Seq<char>,
) -> FileFate {
    if is_left_out(facts) {
        FileFate::Skipped
    } else if batches::can_be_cut(whole_context(facts, extension, preview, id)) {
        FileFate::Added
    } else {
        FileFate::NoRoom
    }
}

/// A scan that has come to a file that would be added under the given id.
pub open spec fn past_file(
    s: ScanView,
    facts: FileFacts,
    extension: Seq<char>,
    preview: PreviewView,
    id: Seq<char>,
) -> ScanView {
    if fate(facts, extension, preview, id) == FileFate::Added {
        with_file(s, facts, extension, preview, id)
    } else {
        s
    }
}

fn add_warning(warnings: &mut Vec<String>, message: String)
    ensures
        records::text_views(final(warnings)@) == records::text_views(old(warnings)@).push(message@),
{
    let ghost before = warnings@;
    warnings.push(message);
    assert(records::text_views(warnings@) =~= records::text_views(before).push(message@));
}

fn char_count(value: &str) -> (count: usize)
    ensures
        count as nat == value@.len(),
{
    text::chars_of(value).len()
}

impl Scan {
    /// Starts a scan.
    pub fn begin(style: Style, sort: &SortSettings) -> (scan: Scan)
        ensures
            scan@ == (ScanView {
                style,
                total_chars: 0,
                items: Seq::empty(),
                contexts: Seq::empty(),
                warnings: first_warnings(*sort),
                inaccessible_files: 0,
            }),
            is_scanned(scan@),
    {
        let mut warnings: Vec<String> = Vec::new();
        assert(records::text_views(warnings@) =~= Seq::<Seq<char>>::empty());
        if sort.unlimited {
            let mut message =
                "Без общего лимита: для каждого файла используется заданный лимит текста, а один запрос к ИИ ограничен ".to_owned();
            message.append(&text::decimal_of(batches::MAX_BATCH_CONTEXT_BYTES as u64));
            message.append(" байтами контекста.");
            add_warning(&mut warnings, message);
            assert(records::text_views(warnings@) =~= seq![unlimited_warning()]);
        }
        if text::same_text(&sort.mode, requests::CUSTOM_MODE) && char_count(&sort.custom_prompt)
            > requests::MAX_CUSTOM_PROMPT_CHARS {
            let mut message = "Для устойчивости в ИИ передаются только первые ".to_owned();
            message.append(&text::decimal_of(requests::MAX_CUSTOM_PROMPT_CHARS as u64));
            message.append(" символов пользовательской инструкции.");
            add_warning(&mut warnings, message);
        }
        let scan = Scan {
            style,
            total_chars: 0,
            items: Vec::new(),
            contexts: Vec::new(),
            warnings,
            inaccessible_files: 0,
        };
        assert(scan@.items =~= Seq::<PlanItemView>::empty());
        assert(scan@.contexts =~= Seq::<ContextView>::empty());
        scan
    }

    /// Notes something that could not be read.
    pub fn note_inaccessible(&mut self)
        requires
            old(self).inaccessible_files < usize::MAX,
        ensures
            final(self)@ == (ScanView {
                inaccessible_files: old(self)@.inaccessible_files + 1,
                ..old(self)@
            }),
    {
        self.inaccessible_files = self.inaccessible_files + 1;
    }

    /// The number of characters that the next file may show.
    pub fn next_text_limit(&self, sort: &SortSettings) -> (limit: usize)
        ensures
            limit as nat == next_limit(self@, *sort),
    {
        let left: usize = if sort.unlimited {
            usize::MAX
        } else if self.total_chars <= sort.total_limit {
            sort.total_limit - self.total_chars
        } else {
            0
        };
        if sort.text_limit <= left {
            sort.text_limit
        } else {
            left
        }
    }

    /// Adds a file that is not left out under the given id. Its text is cut to what a
    /// request may hold, which the rest of what is told of the file has to leave room for.
    pub fn add_file_as(
        &mut self,
        sort: &SortSettings,
        facts: &FileFacts,
        extension: &str,
        preview: &Preview,
        id: &str,
    )
        requires
            fate(*facts, extension@, preview@, id@) == FileFate::Added,
        ensures
            final(self)@ == with_file(old(self)@, *facts, extension@, preview@, id@),
    {
        let ghost before = self@;
        let (category, confidence, explanation) = categories::classify(
            &facts.relative_path,
            extension,
            sort,
        );
        let target = names::planned_target_under(self.style, &category, &facts.file_name);
        let mut context = AiFileContext {
            id: id.to_owned(),
            path: facts.relative_path.clone(),
            extension: extension.to_owned(),
            size_bytes: facts.size_bytes,
            created_at: records::option_copy(&facts.created_at),
            modified_at: records::option_copy(&facts.modified_at),
            suggested_category: category.clone(),
            content_extract: records::option_copy(&preview.extract),
            content_status: preview.status.clone(),
        };
        assert(context@ == whole_context(*facts, extension@, preview@, id@));
        batches::fit_context_into_model_budget(&mut context);
        let shown: usize = match &context.content_extract {
            Some(extract) => char_count(extract),
            None => 0,
        };
        self.total_chars = self.total_chars.saturating_add(shown);
        let ghost known = self.contexts@;
        let ghost planned = self.items@;
        let ghost told = context@;
        self.contexts.push(context);
        assert(records::context_views(self.contexts@) =~= records::context_views(known).push(told));
        let item = PlanItem {
            id: id.to_owned(),
            source: facts.source.clone(),
            relative_path: facts.relative_path.clone(),
            target,
            category,
            explanation,
            confidence,
            included: true,
            warning: categories::unsupported_warning(extension),
            ai_status: AiStatus::RetryPending,
            ai_error: None,
        };
        assert(item@ == planned_item(self.style, *facts, extension@, id@));
        self.items.push(item);
        assert(records::item_views(self.items@) =~= records::item_views(planned).push(
            planned_item(self.style, *facts, extension@, id@),
        ));
        assert(self@ =~= with_file(before, *facts, extension@, preview@, id@));
    }

    /// Comes to a file: leaves it out by its name, or adds it under an id of its own,
    /// unless what is told of it leaves no room for its text.
    pub fn add_file(&mut self, sort: &SortSettings, facts: &FileFacts, preview: &Preview) -> (came:
        FileFate)
        ensures
            came == FileFate::Skipped <==> is_left_out(*facts),
            came != FileFate::Added ==> final(self)@ == old(self)@,
            came != FileFate::Skipped ==> exists|id: Seq<char>|
                {
                    let extension = normalized_extension(records::option_view(facts.extension));
                    &&& #[trigger] outside::is_uuid_text(id)
                    &&& came == fate(*facts, extension, preview@, id)
                    &&& final(self)@ == past_file(old(self)@, *facts, extension, preview@, id)
                },
            is_scanned(old(self)@) && records::option_view(facts.file_name) == paths::file_name(
                old(self)@.style,
                facts.relative_path@,
            ) ==> is_scanned(final(self)@),
    {
        if let Some(name) = &facts.file_name {
            if skip_name(name) {
                return FileFate::Skipped;
            }
        }
        let ghost before = self@;
        let extension = file_extension(&facts.extension);
        let id = outside::new_id();
        let category = categories::suggested_category(
            &facts.relative_path.to_lowercase(),
            &extension,
        );
        let context = AiFileContext {
            id: id.clone(),
            path: facts.relative_path.clone(),
            extension: extension.clone(),
            size_bytes: facts.size_bytes,
            created_at: records::option_copy(&facts.created_at),
            modified_at: records::option_copy(&facts.modified_at),
            suggested_category: category.to_owned(),
            content_extract: records::option_copy(&preview.extract),
            content_status: preview.status.clone(),
        };
        assert(context@ == whole_context(*facts, extension@, preview@, id@));
        assert(outside::is_uuid_text(id@));
        if !batches::can_fit_model_budget(&context) {
            return FileFate::NoRoom;
        }
        self.add_file_as(sort, facts, &extension, preview, &id);
        proof {
            if is_scanned(before) && records::option_view(facts.file_name) == paths::file_name(
                before.style,
                facts.relative_path@,
            ) {
                files_and_items_belong_together(before, *facts, extension@, preview@, id@);
            }
        }
        FileFate::Added
    }

    /// Ends a scan.
    pub fn finish(&mut self, sort: &SortSettings)
        ensures
            final(self)@ == (ScanView {
                warnings: last_warnings(
                    *sort,
                    old(self)@.warnings,
                    old(self)@.inaccessible_files,
                ),
                ..old(self)@
            }),
    {
        let chars = text::chars_of(&sort.custom_prompt);
        if text::same_text(&sort.mode, requests::CUSTOM_MODE) && text::trimmed(&chars).len() == 0 {
            add_warning(&mut self.warnings, NO_INSTRUCTION.to_owned());
        }
        if self.inaccessible_files > 0 {
            let mut message = "Нет доступа к ".to_owned();
            message.append(&text::decimal_of(self.inaccessible_files as u64));
            message.append(" объектам; их имена и пути скрыты.");
            add_warning(&mut self.warnings, message);
        }
    }
}

// ---------------------------------------------------------------------------
// What is told of a scan
// ---------------------------------------------------------------------------

pub const SCANNING: &'static str = "Сканирование файлов…";

/// What is told when a scan starts.
pub open spec fn scan_start() -> ProgressView {
    ProgressView {
        phase: "scanning"@,
        completed_batches: 0,
        total_batches: 0,
        processed_files: 0,
        pending_files: 0,
        not_attempted_files: 0,
        retry_pending_files: 0,
        message: SCANNING@,
    }
}

/// What is told when a scan starts.
pub fn scan_progress() -> (told: AnalysisProgress)
    ensures
        told@ == scan_start(),
{
    AnalysisProgress {
        phase: "scanning".to_owned(),
        completed_batches: 0,
        total_batches: 0,
        processed_files: 0,
        pending_files: 0,
        not_attempted_files: 0,
        retry_pending_files: 0,
        message: SCANNING.to_owned(),
    }
}

/// The line of the log on a scan.
pub open spec fn scan_log(s: ScanView, duration_ms: u64) -> LogView {
    LogView {
        phase: "scanning"@,
        attempt: None,
        batch_number: None,
        total_batches: None,
        file_count: s.contexts.len(),
        extensions: extensions::summary(s.contexts),
        duration_ms,
        outcome: "success"@,
        successful_files: s.contexts.len(),
        unresolved_files: 0,
        skipped_files: s.inaccessible_files,
        input_bytes: None,
        error_kind: None,
        error_detail: None,
    }
}

/// The line of the log on a scan.
pub fn scan_log_event(scan: &Scan, duration_ms: u64) -> (event: AnalysisLogEvent)
    ensures
        event@ == scan_log(scan@, duration_ms),
{
    AnalysisLogEvent {
        phase: "scanning".to_owned(),
        attempt: None,
        batch_number: None,
        total_batches: None,
        file_count: scan.contexts.len(),
        extensions: extensions::extension_summary(scan.contexts.as_slice()),
        duration_ms,
        outcome: "success".to_owned(),
        successful_files: scan.contexts.len(),
        unresolved_files: 0,
        skipped_files: scan.inaccessible_files,
        input_bytes: None,
        error_kind: None,
        error_detail: None,
    }
}

// ---------------------------------------------------------------------------
// The result of an analysis
// ---------------------------------------------------------------------------

/// The result of an analysis.
#[derive(Debug)]
pub struct AnalysisResult {
    pub items: Vec<PlanItem>,
    pub total_files: usize,
    pub estimated_chars: usize,
    pub warnings: Vec<String>,
    pub summary: AiSummary,
}

/// The warnings of an analysis: those of the scan, those of the run, and one where the
/// text was used up.
pub open spec fn all_warnings(
    scanned: Seq<Seq<char>>,
    refined: Seq<Seq<char>>,
    sort: SortSettings,
    total_chars: usize,
) -> Seq<Seq<char>> {
    if !sort.unlimited && total_chars >= sort.total_limit {
        (scanned + refined).push(TEXT_LIMIT_REACHED@)
    } else {
        scanned + refined
    }
}

/// Whether a result is that of an analysis.
pub open spec fn is_conclusion(
    result: AnalysisResult,
    sort: SortSettings,
    items: Seq<PlanItem>,
    total_chars: usize,
    warnings: Seq<Seq<char>>,
    refinement: AiRefinement,
) -> bool {
    &&& result.items@ == items
    &&& result.total_files as nat == items.len()
    &&& result.estimated_chars == total_chars
    &&& records::text_views(result.warnings@) == all_warnings(
        warnings,
        records::text_views(refinement.warnings@),
        sort,
        total_chars,
    )
    &&& result.summary == refinement.summary
}

/// Puts the result of an analysis together.
pub fn conclude(
    sort: &SortSettings,
    items: Vec<PlanItem>,
    total_chars: usize,
    warnings: Vec<String>,
    refinement: &AiRefinement,
) -> (result: AnalysisResult)
    ensures
        is_conclusion(
            result,
            *sort,
            items@,
            total_chars,
            records::text_views(warnings@),
            *refinement,
        ),
        result.items@ == items@,
        result.total_files as nat == items@.len(),
        result.estimated_chars == total_chars,
        records::text_views(result.warnings@) == all_warnings(
            records::text_views(warnings@),
            records::text_views(refinement.warnings@),
            *sort,
            total_chars,
        ),
        result.summary == refinement.summary,
{
    let ghost scanned = records::text_views(warnings@);
    let ghost refined = records::text_views(refinement.warnings@);
    let mut warnings = warnings;
    assert(scanned + refined.take(0) =~= scanned);
    for i in 0..refinement.warnings.len()
        invariant
            refined == records::text_views(refinement.warnings@),
            records::text_views(warnings@) == scanned + refined.take(i as int),
    {
        add_warning(&mut warnings, refinement.warnings[i].clone());
        assert(scanned + refined.take(i as int + 1) =~= (scanned + refined.take(i as int)).push(
            refined[i as int],
        ));
    }
    assert(refined.take(refined.len() as int) =~= refined);
    if !sort.unlimited && total_chars >= sort.total_limit {
        add_warning(&mut warnings, TEXT_LIMIT_REACHED.to_owned());
    }
    let total_files: usize = items.len();
    AnalysisResult {
        items,
        total_files,
        estimated_chars: total_chars,
        warnings,
        summary: refinement.summary,
    }
}

// ---------------------------------------------------------------------------
// Laws
// ---------------------------------------------------------------------------

/// Whether the files and the items of a scan belong together, each item waits for a
/// decision, each goes into the folder of its category, and none is of a file that a scan
/// leaves out.
pub open spec fn is_scanned(s: ScanView) -> bool {
    &&& s.items.len() == s.contexts.len()
    &&& runs::all_filed(s.style, s.items)
    &&& forall|i: int|
        #![trigger s.items[i]]
        #![trigger s.contexts[i]]
        0 <= i < s.items.len() ==> {
            &&& s.items[i].id == s.contexts[i].id
            &&& s.items[i].ai_status == AiStatus::RetryPending
            &&& !is_skipped_path(s.style, s.items[i].relative_path)
        }
}

/// Every file that a scan comes to is left out by its name, or has an item that belongs to
/// it, waits for a decision and goes into the folder of a standard category.
pub proof fn files_and_items_belong_together(
    s: ScanView,
    facts: FileFacts,
    extension: Seq<char>,
    preview: PreviewView,
    id: Seq<char>,
)
    requires
        is_scanned(s),
        records::option_view(facts.file_name) == paths::file_name(s.style, facts.relative_path@),
    ensures
        is_scanned(past_file(s, facts, extension, preview, id)),
        is_left_out(facts) ==> past_file(s, facts, extension, preview, id) == s,
{
    categories::suggestions_are_standard(outside::lowercase(facts.relative_path@), extension);
    let t = past_file(s, facts, extension, preview, id);
    assert(runs::is_filed(s.style, planned_item(s.style, facts, extension, id)));
    assert forall|i: int| 0 <= i < t.items.len() implies runs::is_filed(s.style, #[trigger] t.items[i]) by {
        if i < s.items.len() {
            assert(t.items[i] == s.items[i]);
        }
    }
    assert forall|i: int|
        #![trigger t.items[i]]
        #![trigger t.contexts[i]]
        0 <= i < t.items.len() implies {
        &&& t.items[i].id == t.contexts[i].id
        &&& t.items[i].ai_status == AiStatus::RetryPending
        &&& !is_skipped_path(t.style, t.items[i].relative_path)
    } by {
        if i < s.items.len() {
            assert(t.items[i] == s.items[i]);
            assert(t.contexts[i] == s.contexts[i]);
        }
    }
}

/// What a scan found is what a run can start with, as long as the ids differ.
pub proof fn scans_lead_to_runs(s: ScanView)
    requires
        is_scanned(s),
        s.contexts.len() <= usize::MAX,
        runs::distinct_items(s.items),
    ensures
        runs::is_paired(s.items, s.contexts),
        runs::all_filed(s.style, s.items),
{
}

/// The model never gets to see more characters than the total limit allows, where each
/// file shows no more than it may.
pub proof fn text_stays_within_its_limit(
    s: ScanView,
    sort: SortSettings,
    facts: FileFacts,
    extension: Seq<char>,
    preview: PreviewView,
    id: Seq<char>,
)
    requires
        !sort.unlimited,
        s.total_chars <= sort.total_limit,
        preview.extract is Some ==> preview.extract->0.len() <= next_limit(s, sort),
    ensures
        past_file(s, facts, extension, preview, id).total_chars <= sort.total_limit,
{
    let context = whole_context(facts, extension, preview, id);
    if fate(facts, extension, preview, id) == FileFate::Added && batches::has_text(context) {
        batches::fitted_contexts_fit(context);
    }
}

} // verus!
