//! Categories: what the name of a file suggests, and what the model may choose.

use crate::names;
use crate::outside;
use crate::records;
use crate::records::{Confidence, SortSettings};
use crate::text;
use vstd::prelude::*;

verus! {

pub const WORK: &'static str = "Работа";

pub const PERSONAL: &'static str = "Личное";

pub const FINANCE: &'static str = "Финансы";

pub const STUDY: &'static str = "Учёба";

pub const MEDIA: &'static str = "Медиа";

pub const ARCHIVE: &'static str = "Архив";

pub const DOWNLOADS: &'static str = "Загрузчики";

/// The category of what the model did not settle in two attempts.
pub const UNPROCESSED_CATEGORY: &'static str = "Не обработано ИИ";

pub const INSTALLER_EXPLANATION: &'static str =
    "Распознан установочный или загрузочный файл по расширению либо имени.";

pub const LOCAL_EXPLANATION: &'static str =
    "Предварительная локальная оценка по имени, расширению и дате.";

pub const MEDIA_WARNING: &'static str =
    "Содержимое аудио/видео в первой версии не анализируется.";

/// The bits of 0.45.
pub const UNSURE: u32 = 0x3ee6_6666;

/// The bits of 0.72.
pub const LIKELY: u32 = 0x3f38_51ec;

/// The bits of 0.95.
pub const NEARLY_SURE: u32 = 0x3f73_3333;

/// The categories that a file can be given.
pub open spec fn standard_categories() -> Seq<&'static str> {
    seq![WORK, PERSONAL, FINANCE, STUDY, MEDIA, ARCHIVE, DOWNLOADS, names::OTHER_CATEGORY]
}

// ---------------------------------------------------------------------------
// What the name suggests
// ---------------------------------------------------------------------------

/// Whether a file installs something, by its extension or, for an archive, by its name.
pub open spec fn is_installer(name: Seq<char>, ext: Seq<char>) -> bool {
    ||| text::one_of(
        ext,
        seq!["dmg", "pkg", "mpkg", "exe", "msi", "appimage", "deb", "rpm", "apk", "iso"],
    )
    ||| {
        &&& text::one_of(ext, seq!["zip", "7z"])
        &&& text::mentions(
            name,
            seq!["setup", "install", "installer", "latest", "download", "tsetup"],
        )
    }
}

/// The category that a path, in lower case, and an extension suggest.
pub open spec fn suggested(name: Seq<char>, ext: Seq<char>) -> Seq<char> {
    if is_installer(name, ext) {
        DOWNLOADS@
    } else if text::mentions(name, seq!["invoice", "счёт", "налог", "bank"]) {
        FINANCE@
    } else if text::mentions(name, seq!["resume", "проект", "contract", "договор"]) {
        WORK@
    } else if text::mentions(name, seq!["course", "лекц", "study", "учеб"]) {
        STUDY@
    } else if text::one_of(ext, seq!["jpg", "jpeg", "png", "webp", "mp4", "mov", "mkv", "mp3"]) {
        MEDIA@
    } else if text::one_of(ext, seq!["zip", "rar", "7z", "tar", "gz"]) {
        ARCHIVE@
    } else {
        PERSONAL@
    }
}

/// How sure a suggestion is.
pub open spec fn suggestion_confidence(category: Seq<char>) -> Confidence {
    if category == PERSONAL@ {
        Confidence { bits: UNSURE }
    } else if category == DOWNLOADS@ {
        Confidence { bits: NEARLY_SURE }
    } else {
        Confidence { bits: LIKELY }
    }
}

/// What is said of a suggestion.
pub open spec fn suggestion_explanation(category: Seq<char>) -> Seq<char> {
    if category == DOWNLOADS@ {
        INSTALLER_EXPLANATION@
    } else {
        LOCAL_EXPLANATION@
    }
}

fn installs(name: &[char], ext: &str) -> (yes: bool)
    ensures
        yes == is_installer(name@, ext@),
{
    let installers = [
        "dmg", "pkg", "mpkg", "exe", "msi", "appimage", "deb", "rpm", "apk", "iso",
    ];
    assert(installers@ =~= seq![
        "dmg", "pkg", "mpkg", "exe", "msi", "appimage", "deb", "rpm", "apk", "iso",
    ]);
    let archives = ["zip", "7z"];
    assert(archives@ =~= seq!["zip", "7z"]);
    let words = ["setup", "install", "installer", "latest", "download", "tsetup"];
    assert(words@ =~= seq!["setup", "install", "installer", "latest", "download", "tsetup"]);
    text::is_one_of(ext, &installers) || (text::is_one_of(ext, &archives) && text::holds_any(
        name,
        &words,
    ))
}

/// The category that a path, already in lower case, and an extension suggest.
pub fn suggested_category(name: &str, ext: &str) -> (category: &'static str)
    ensures
        category@ == suggested(name@, ext@),
{
    let chars = text::chars_of(name);
    let finance = ["invoice", "счёт", "налог", "bank"];
    assert(finance@ =~= seq!["invoice", "счёт", "налог", "bank"]);
    let work = ["resume", "проект", "contract", "договор"];
    assert(work@ =~= seq!["resume", "проект", "contract", "договор"]);
    let study = ["course", "лекц", "study", "учеб"];
    assert(study@ =~= seq!["course", "лекц", "study", "учеб"]);
    let media = ["jpg", "jpeg", "png", "webp", "mp4", "mov", "mkv", "mp3"];
    assert(media@ =~= seq!["jpg", "jpeg", "png", "webp", "mp4", "mov", "mkv", "mp3"]);
    let archive = ["zip", "rar", "7z", "tar", "gz"];
    assert(archive@ =~= seq!["zip", "rar", "7z", "tar", "gz"]);
    if installs(&chars, ext) {
        DOWNLOADS
    } else if text::holds_any(&chars, &finance) {
        FINANCE
    } else if text::holds_any(&chars, &work) {
        WORK
    } else if text::holds_any(&chars, &study) {
        STUDY
    } else if text::is_one_of(ext, &media) {
        MEDIA
    } else if text::is_one_of(ext, &archive) {
        ARCHIVE
    } else {
        PERSONAL
    }
}

/// The category of a file, how sure it is and why, by its path and extension.
pub fn classify(relative: &str, ext: &str, _sort: &SortSettings) -> (guess: (
    String,
    Confidence,
    String,
))
    ensures
        guess.0@ == suggested(outside::lowercase(relative@), ext@),
        guess.1 == suggestion_confidence(guess.0@),
        guess.2@ == suggestion_explanation(guess.0@),
{
    let name = relative.to_lowercase();
    let category = suggested_category(&name, ext);
    let confidence = if text::same_text(category, PERSONAL) {
        Confidence { bits: UNSURE }
    } else if text::same_text(category, DOWNLOADS) {
        Confidence { bits: NEARLY_SURE }
    } else {
        Confidence { bits: LIKELY }
    };
    let explanation = if text::same_text(category, DOWNLOADS) {
        INSTALLER_EXPLANATION
    } else {
        LOCAL_EXPLANATION
    };
    (category.to_owned(), confidence, explanation.to_owned())
}

/// What is said of a file whose content is not looked at, by its extension.
pub open spec fn content_warning(ext: Seq<char>) -> Option<Seq<char>> {
    if text::one_of(ext, seq!["mp3", "wav", "m4a", "mp4", "mov", "mkv"]) {
        Some(MEDIA_WARNING@)
    } else {
        None
    }
}

/// What is said of a file whose content is not looked at.
pub fn unsupported_warning(ext: &str) -> (warning: Option<String>)
    ensures
        records::option_view(warning) == content_warning(ext@),
        warning is Some <==> text::one_of(ext@, seq!["mp3", "wav", "m4a", "mp4", "mov", "mkv"]),
        warning is Some ==> warning->0@ == MEDIA_WARNING@,
{
    let kinds = ["mp3", "wav", "m4a", "mp4", "mov", "mkv"];
    assert(kinds@ =~= seq!["mp3", "wav", "m4a", "mp4", "mov", "mkv"]);
    if text::is_one_of(ext, &kinds) {
        Some(MEDIA_WARNING.to_owned())
    } else {
        None
    }
}

// ---------------------------------------------------------------------------
// What the model may choose
// ---------------------------------------------------------------------------

/// The standard category that an answer, in lower case, speaks of.
pub open spec fn spoken_of(answer: Seq<char>) -> Option<Seq<char>> {
    if text::mentions(answer, seq!["работ", "work", "business"]) {
        Some(WORK@)
    } else if text::mentions(answer, seq!["личн", "personal", "private"]) {
        Some(PERSONAL@)
    } else if text::mentions(answer, seq!["финанс", "finance", "bank"]) {
        Some(FINANCE@)
    } else if text::mentions(answer, seq!["учеб", "study", "education"]) {
        Some(STUDY@)
    } else if text::mentions(answer, seq!["медиа", "media", "photo", "video"]) {
        Some(MEDIA@)
    } else if text::mentions(answer, seq!["архив", "archive"]) {
        Some(ARCHIVE@)
    } else if text::mentions(answer, seq!["загруз", "download", "install"]) {
        Some(DOWNLOADS@)
    } else if text::mentions(answer, seq!["проч", "other", "misc"]) {
        Some(names::OTHER_CATEGORY@)
    } else {
        None
    }
}

/// The category for an answer in lower case: the one that it speaks of, else the
/// fallback where that is a standard category, else the category of what fits nowhere.
pub open spec fn chosen(answer: Seq<char>, fallback: Seq<char>) -> Seq<char> {
    match spoken_of(answer) {
        Some(category) => category,
        None => if text::one_of(fallback, standard_categories()) {
            fallback
        } else {
            names::OTHER_CATEGORY@
        },
    }
}

/// The category for an answer of the model.
pub open spec fn restricted(value: Seq<char>, fallback: Seq<char>) -> Seq<char> {
    chosen(outside::lowercase(text::trim(value)), fallback)
}

fn category_spoken_of(answer: &str) -> (category: Option<&'static str>)
    ensures
        match category {
            Some(category) => spoken_of(answer@) == Some(category@),
            None => spoken_of(answer@) is None,
        },
{
    let chars = text::chars_of(answer);
    let work = ["работ", "work", "business"];
    assert(work@ =~= seq!["работ", "work", "business"]);
    let personal = ["личн", "personal", "private"];
    assert(personal@ =~= seq!["личн", "personal", "private"]);
    let finance = ["финанс", "finance", "bank"];
    assert(finance@ =~= seq!["финанс", "finance", "bank"]);
    let study = ["учеб", "study", "education"];
    assert(study@ =~= seq!["учеб", "study", "education"]);
    let media = ["медиа", "media", "photo", "video"];
    assert(media@ =~= seq!["медиа", "media", "photo", "video"]);
    let archive = ["архив", "archive"];
    assert(archive@ =~= seq!["архив", "archive"]);
    let downloads = ["загруз", "download", "install"];
    assert(downloads@ =~= seq!["загруз", "download", "install"]);
    let other = ["проч", "other", "misc"];
    assert(other@ =~= seq!["проч", "other", "misc"]);
    if text::holds_any(&chars, &work) {
        Some(WORK)
    } else if text::holds_any(&chars, &personal) {
        Some(PERSONAL)
    } else if text::holds_any(&chars, &finance) {
        Some(FINANCE)
    } else if text::holds_any(&chars, &study) {
        Some(STUDY)
    } else if text::holds_any(&chars, &media) {
        Some(MEDIA)
    } else if text::holds_any(&chars, &archive) {
        Some(ARCHIVE)
    } else if text::holds_any(&chars, &downloads) {
        Some(DOWNLOADS)
    } else if text::holds_any(&chars, &other) {
        Some(names::OTHER_CATEGORY)
    } else {
        None
    }
}

/// The category for an answer that is already in lower case.
pub fn chosen_category(answer: &str, fallback: &str) -> (category: String)
    ensures
        category@ == chosen(answer@, fallback@),
{
    match category_spoken_of(answer) {
        Some(category) => category.to_owned(),
        None => {
            let standard = [
                WORK, PERSONAL, FINANCE, STUDY, MEDIA, ARCHIVE, DOWNLOADS, names::OTHER_CATEGORY,
            ];
            assert(standard@ =~= standard_categories());
            if text::is_one_of(fallback, &standard) {
                fallback.to_owned()
            } else {
                names::OTHER_CATEGORY.to_owned()
            }
        },
    }
}

/// The category for an answer of the model.
pub fn restricted_category(value: &str, fallback: &str) -> (category: String)
    ensures
        category@ == restricted(value@, fallback@),
        text::one_of(category@, standard_categories()),
{
    let chars = text::chars_of(value);
    let trimmed = text::string_of(text::trimmed(&chars));
    let normalized = trimmed.as_str().to_lowercase();
    proof {
        choices_are_standard(normalized@, fallback@);
    }
    chosen_category(&normalized, fallback)
}

/// Whatever the model answers, the category is a standard one: an answer makes no new
/// folder.
pub proof fn choices_are_standard(answer: Seq<char>, fallback: Seq<char>)
    ensures
        text::one_of(chosen(answer, fallback), standard_categories()),
{
    let all = standard_categories();
    assert(all[0]@ == WORK@ && all[1]@ == PERSONAL@ && all[2]@ == FINANCE@ && all[3]@ == STUDY@
        && all[4]@ == MEDIA@ && all[5]@ == ARCHIVE@ && all[6]@ == DOWNLOADS@ && all[7]@
        == names::OTHER_CATEGORY@);
}

/// What a name suggests is a standard category too.
pub proof fn suggestions_are_standard(name: Seq<char>, ext: Seq<char>)
    ensures
        text::one_of(suggested(name, ext), standard_categories()),
{
    let all = standard_categories();
    assert(all[0]@ == WORK@ && all[1]@ == PERSONAL@ && all[2]@ == FINANCE@ && all[3]@ == STUDY@
        && all[4]@ == MEDIA@ && all[5]@ == ARCHIVE@ && all[6]@ == DOWNLOADS@);
}

/// The standard categories in lower case, in their order.
pub open spec fn lower_spellings() -> Seq<&'static str> {
    seq!["работа", "личное", "финансы", "учёба", "медиа", "архив", "загрузчики", "прочее"]
}

/// Whether three characters stand one behind the other, from a position on.
spec fn has_three(s: Seq<char>, a: char, b: char, c: char, from: int) -> bool
    decreases s.len() - from,
{
    if from + 2 >= s.len() {
        false
    } else {
        s[from] == a && s[from + 1] == b && s[from + 2] == c || has_three(s, a, b, c, from + 1)
    }
}

proof fn three_are_found(s: Seq<char>, a: char, b: char, c: char, from: int, at: int)
    requires
        0 <= from <= at,
        at + 2 < s.len(),
        s[at] == a,
        s[at + 1] == b,
        s[at + 2] == c,
    ensures
        has_three(s, a, b, c, from),
    decreases at - from,
{
    if from < at {
        three_are_found(s, a, b, c, from + 1, at);
    }
}

proof fn what_lacks_three_lacks_all(s: Seq<char>, part: Seq<char>)
    requires
        part.len() >= 3,
        !has_three(s, part[0], part[1], part[2], 0),
    ensures
        !text::contains(s, part),
{
    if text::contains(s, part) {
        let i = choose|i: int| text::has_at(s, i, part);
        assert(s.subrange(i, i + part.len())[0] == part[0]);
        assert(s.subrange(i, i + part.len())[1] == part[1]);
        assert(s.subrange(i, i + part.len())[2] == part[2]);
        three_are_found(s, part[0], part[1], part[2], 0, i);
    }
}

proof fn other_letters_are_lacking(s: Seq<char>, part: Seq<char>)
    requires
        part.len() > 0,
        (part[0] as int) < 128,
        forall|i: int| 0 <= i < s.len() ==> (#[trigger] s[i]) as int >= 128,
    ensures
        !text::contains(s, part),
{
    if text::contains(s, part) {
        let i = choose|i: int| text::has_at(s, i, part);
        assert(s.subrange(i, i + part.len())[0] == part[0]);
        assert(s[i] as int >= 128);
    }
}

proof fn one_word_counts(s: Seq<char>, word: &str, first: &str, second: &str, third: &str)
    requires
        !text::contains(s, first@),
        !text::contains(s, second@),
        !text::contains(s, third@),
    ensures
        text::mentions(s, seq![word, first]) <==> text::contains(s, word@),
        text::mentions(s, seq![word, first, second]) <==> text::contains(s, word@),
        text::mentions(s, seq![word, first, second, third]) <==> text::contains(s, word@),
{
    assert(seq![word, first][0] == word);
    assert(seq![word, first, second][0] == word);
    assert(seq![word, first, second, third][0] == word);
}

/// A text without Latin letters speaks of a category by the Russian word for it alone.
proof fn russian_words_count(s: Seq<char>)
    requires
        forall|i: int| 0 <= i < s.len() ==> (#[trigger] s[i]) as int >= 128,
    ensures
        text::mentions(s, seq!["работ", "work", "business"]) <==> text::contains(s, "работ"@),
        text::mentions(s, seq!["личн", "personal", "private"]) <==> text::contains(s, "личн"@),
        text::mentions(s, seq!["финанс", "finance", "bank"]) <==> text::contains(s, "финанс"@),
        text::mentions(s, seq!["учеб", "study", "education"]) <==> text::contains(s, "учеб"@),
        text::mentions(s, seq!["медиа", "media", "photo", "video"]) <==> text::contains(s, "медиа"@),
        text::mentions(s, seq!["архив", "archive"]) <==> text::contains(s, "архив"@),
        text::mentions(s, seq!["загруз", "download", "install"]) <==> text::contains(s, "загруз"@),
        text::mentions(s, seq!["проч", "other", "misc"]) <==> text::contains(s, "проч"@),
{
    reveal_strlit("work");
    other_letters_are_lacking(s, "work"@);
    reveal_strlit("business");
    other_letters_are_lacking(s, "business"@);
    reveal_strlit("personal");
    other_letters_are_lacking(s, "personal"@);
    reveal_strlit("private");
    other_letters_are_lacking(s, "private"@);
    reveal_strlit("finance");
    other_letters_are_lacking(s, "finance"@);
    reveal_strlit("bank");
    other_letters_are_lacking(s, "bank"@);
    reveal_strlit("study");
    other_letters_are_lacking(s, "study"@);
    reveal_strlit("education");
    other_letters_are_lacking(s, "education"@);
    reveal_strlit("media");
    other_letters_are_lacking(s, "media"@);
    reveal_strlit("photo");
    other_letters_are_lacking(s, "photo"@);
    reveal_strlit("video");
    other_letters_are_lacking(s, "video"@);
    reveal_strlit("archive");
    other_letters_are_lacking(s, "archive"@);
    reveal_strlit("download");
    other_letters_are_lacking(s, "download"@);
    reveal_strlit("install");
    other_letters_are_lacking(s, "install"@);
    reveal_strlit("other");
    other_letters_are_lacking(s, "other"@);
    reveal_strlit("misc");
    other_letters_are_lacking(s, "misc"@);
    one_word_counts(s, "работ", "work", "business", "business");
    one_word_counts(s, "личн", "personal", "private", "private");
    one_word_counts(s, "финанс", "finance", "bank", "bank");
    one_word_counts(s, "учеб", "study", "education", "education");
    one_word_counts(s, "медиа", "media", "photo", "video");
    one_word_counts(s, "архив", "archive", "archive", "archive");
    one_word_counts(s, "загруз", "download", "install", "install");
    one_word_counts(s, "проч", "other", "misc", "misc");
}

proof fn work_comes_back()
    ensures
        chosen("работа"@, WORK@) == WORK@,
{
    let s = "работа"@;
    reveal_strlit("работа");
    assert(s[0] == 'р' && s[1] == 'а' && s[2] == 'б' && s[3] == 'о' && s[4] == 'т' && s[5] == 'а');
    assert forall|i: int| 0 <= i < s.len() implies (#[trigger] s[i]) as int >= 128 by {}
    russian_words_count(s);
    reveal_with_fuel(has_three, 7);
    reveal_strlit("работ");
    assert(s.subrange(0, 5) =~= "работ"@);
    assert(text::has_at(s, 0, "работ"@));
}

proof fn personal_comes_back()
    ensures
        chosen("личное"@, PERSONAL@) == PERSONAL@,
{
    let s = "личное"@;
    reveal_strlit("личное");
    assert(s[0] == 'л' && s[1] == 'и' && s[2] == 'ч' && s[3] == 'н' && s[4] == 'о' && s[5] == 'е');
    assert forall|i: int| 0 <= i < s.len() implies (#[trigger] s[i]) as int >= 128 by {}
    russian_words_count(s);
    reveal_with_fuel(has_three, 7);
    reveal_strlit("работ");
    what_lacks_three_lacks_all(s, "работ"@);
    reveal_strlit("личн");
    assert(s.subrange(0, 4) =~= "личн"@);
    assert(text::has_at(s, 0, "личн"@));
}

proof fn finance_comes_back()
    ensures
        chosen("финансы"@, FINANCE@) == FINANCE@,
{
    let s = "финансы"@;
    reveal_strlit("финансы");
    assert(s[0] == 'ф' && s[1] == 'и' && s[2] == 'н' && s[3] == 'а' && s[4] == 'н' && s[5] == 'с' && s[6] == 'ы');
    assert forall|i: int| 0 <= i < s.len() implies (#[trigger] s[i]) as int >= 128 by {}
    russian_words_count(s);
    reveal_with_fuel(has_three, 8);
    reveal_strlit("работ");
    what_lacks_three_lacks_all(s, "работ"@);
    reveal_strlit("личн");
    what_lacks_three_lacks_all(s, "личн"@);
    reveal_strlit("финанс");
    assert(s.subrange(0, 6) =~= "финанс"@);
    assert(text::has_at(s, 0, "финанс"@));
}

proof fn study_comes_back()
    ensures
        chosen("учёба"@, STUDY@) == STUDY@,
{
    let s = "учёба"@;
    reveal_strlit("учёба");
    assert(s[0] == 'у' && s[1] == 'ч' && s[2] == 'ё' && s[3] == 'б' && s[4] == 'а');
    assert forall|i: int| 0 <= i < s.len() implies (#[trigger] s[i]) as int >= 128 by {}
    russian_words_count(s);
    reveal_with_fuel(has_three, 6);
    reveal_strlit("работ");
    what_lacks_three_lacks_all(s, "работ"@);
    reveal_strlit("личн");
    what_lacks_three_lacks_all(s, "личн"@);
    reveal_strlit("финанс");
    what_lacks_three_lacks_all(s, "финанс"@);
    reveal_strlit("учеб");
    what_lacks_three_lacks_all(s, "учеб"@);
    reveal_strlit("медиа");
    what_lacks_three_lacks_all(s, "медиа"@);
    reveal_strlit("архив");
    what_lacks_three_lacks_all(s, "архив"@);
    reveal_strlit("загруз");
    what_lacks_three_lacks_all(s, "загруз"@);
    reveal_strlit("проч");
    what_lacks_three_lacks_all(s, "проч"@);
    assert(standard_categories()[3]@ == STUDY@);
}

proof fn media_comes_back()
    ensures
        chosen("медиа"@, MEDIA@) == MEDIA@,
{
    let s = "медиа"@;
    reveal_strlit("медиа");
    assert(s[0] == 'м' && s[1] == 'е' && s[2] == 'д' && s[3] == 'и' && s[4] == 'а');
    assert forall|i: int| 0 <= i < s.len() implies (#[trigger] s[i]) as int >= 128 by {}
    russian_words_count(s);
    reveal_with_fuel(has_three, 6);
    reveal_strlit("работ");
    what_lacks_three_lacks_all(s, "работ"@);
    reveal_strlit("личн");
    what_lacks_three_lacks_all(s, "личн"@);
    reveal_strlit("финанс");
    what_lacks_three_lacks_all(s, "финанс"@);
    reveal_strlit("учеб");
    what_lacks_three_lacks_all(s, "учеб"@);
    reveal_strlit("медиа");
    assert(s.subrange(0, 5) =~= "медиа"@);
    assert(text::has_at(s, 0, "медиа"@));
}

proof fn archive_comes_back()
    ensures
        chosen("архив"@, ARCHIVE@) == ARCHIVE@,
{
    let s = "архив"@;
    reveal_strlit("архив");
    assert(s[0] == 'а' && s[1] == 'р' && s[2] == 'х' && s[3] == 'и' && s[4] == 'в');
    assert forall|i: int| 0 <= i < s.len() implies (#[trigger] s[i]) as int >= 128 by {}
    russian_words_count(s);
    reveal_with_fuel(has_three, 6);
    reveal_strlit("работ");
    what_lacks_three_lacks_all(s, "работ"@);
    reveal_strlit("личн");
    what_lacks_three_lacks_all(s, "личн"@);
    reveal_strlit("финанс");
    what_lacks_three_lacks_all(s, "финанс"@);
    reveal_strlit("учеб");
    what_lacks_three_lacks_all(s, "учеб"@);
    reveal_strlit("медиа");
    what_lacks_three_lacks_all(s, "медиа"@);
    reveal_strlit("архив");
    assert(s.subrange(0, 5) =~= "архив"@);
    assert(text::has_at(s, 0, "архив"@));
}

proof fn downloads_comes_back()
    ensures
        chosen("загрузчики"@, DOWNLOADS@) == DOWNLOADS@,
{
    let s = "загрузчики"@;
    reveal_strlit("загрузчики");
    assert(s[0] == 'з' && s[1] == 'а' && s[2] == 'г' && s[3] == 'р' && s[4] == 'у' && s[5] == 'з' && s[6] == 'ч' && s[7] == 'и' && s[8] == 'к' && s[9] == 'и');
    assert forall|i: int| 0 <= i < s.len() implies (#[trigger] s[i]) as int >= 128 by {}
    russian_words_count(s);
    reveal_with_fuel(has_three, 11);
    reveal_strlit("работ");
    what_lacks_three_lacks_all(s, "работ"@);
    reveal_strlit("личн");
    what_lacks_three_lacks_all(s, "личн"@);
    reveal_strlit("финанс");
    what_lacks_three_lacks_all(s, "финанс"@);
    reveal_strlit("учеб");
    what_lacks_three_lacks_all(s, "учеб"@);
    reveal_strlit("медиа");
    what_lacks_three_lacks_all(s, "медиа"@);
    reveal_strlit("архив");
    what_lacks_three_lacks_all(s, "архив"@);
    reveal_strlit("загруз");
    assert(s.subrange(0, 6) =~= "загруз"@);
    assert(text::has_at(s, 0, "загруз"@));
}

proof fn other_comes_back()
    ensures
        chosen("прочее"@, names::OTHER_CATEGORY@) == names::OTHER_CATEGORY@,
{
    let s = "прочее"@;
    reveal_strlit("прочее");
    assert(s[0] == 'п' && s[1] == 'р' && s[2] == 'о' && s[3] == 'ч' && s[4] == 'е' && s[5] == 'е');
    assert forall|i: int| 0 <= i < s.len() implies (#[trigger] s[i]) as int >= 128 by {}
    russian_words_count(s);
    reveal_with_fuel(has_three, 7);
    reveal_strlit("работ");
    what_lacks_three_lacks_all(s, "работ"@);
    reveal_strlit("личн");
    what_lacks_three_lacks_all(s, "личн"@);
    reveal_strlit("финанс");
    what_lacks_three_lacks_all(s, "финанс"@);
    reveal_strlit("учеб");
    what_lacks_three_lacks_all(s, "учеб"@);
    reveal_strlit("медиа");
    what_lacks_three_lacks_all(s, "медиа"@);
    reveal_strlit("архив");
    what_lacks_three_lacks_all(s, "архив"@);
    reveal_strlit("загруз");
    what_lacks_three_lacks_all(s, "загруз"@);
    reveal_strlit("проч");
    assert(s.subrange(0, 4) =~= "проч"@);
    assert(text::has_at(s, 0, "проч"@));
}

/// A standard category that is given back to itself stays: where an answer is the
/// category in lower case and the fallback is the category, that is what is chosen.
pub proof fn categories_come_back(k: int)
    requires
        0 <= k < standard_categories().len(),
    ensures
        chosen(lower_spellings()[k]@, standard_categories()[k]@) == standard_categories()[k]@,
        outside::lowercase(text::trim(standard_categories()[k]@)) == lower_spellings()[k]@
            ==> restricted(standard_categories()[k]@, standard_categories()[k]@)
            == standard_categories()[k]@,
{
    work_comes_back();
    personal_comes_back();
    finance_comes_back();
    study_comes_back();
    media_comes_back();
    archive_comes_back();
    downloads_comes_back();
    other_comes_back();
}

/// Whether the same category is chosen for an answer, whatever the fallback is.
pub open spec fn decides(answer: Seq<char>) -> bool {
    forall|one: Seq<char>, other: Seq<char>|
        #![trigger chosen(answer, one), chosen(answer, other)]
        chosen(answer, one) == chosen(answer, other)
}

/// Whether an answer leaves it to the fallback: a standard one is chosen, and any other
/// stands for what fits nowhere.
pub open spec fn leaves_it(answer: Seq<char>) -> bool {
    forall|fallback: Seq<char>| #[trigger]
        chosen(answer, fallback) == if text::one_of(fallback, standard_categories()) {
            fallback
        } else {
            names::OTHER_CATEGORY@
        }
}

/// An answer either decides or leaves it to the fallback.
pub proof fn an_answer_decides_or_leaves_it(answer: Seq<char>)
    ensures
        decides(answer) || leaves_it(answer),
{
}

} // verus!
