//! What a name suggests and what an answer of the model means, word by word.

use crate::categories;
use crate::laws::texts;
use crate::outside;
use crate::text;
use vstd::prelude::*;

verus! {

proof fn categories_differ()
    ensures
        "Работа"@ != "Личное"@,
        "Работа"@ != "Финансы"@,
        "Работа"@ != "Учёба"@,
        "Работа"@ != "Медиа"@,
        "Работа"@ != "Архив"@,
        "Работа"@ != "Загрузчики"@,
        "Работа"@ != "Прочее"@,
        "Личное"@ != "Финансы"@,
        "Личное"@ != "Учёба"@,
        "Личное"@ != "Медиа"@,
        "Личное"@ != "Архив"@,
        "Личное"@ != "Загрузчики"@,
        "Личное"@ != "Прочее"@,
        "Финансы"@ != "Учёба"@,
        "Финансы"@ != "Медиа"@,
        "Финансы"@ != "Архив"@,
        "Финансы"@ != "Загрузчики"@,
        "Финансы"@ != "Прочее"@,
        "Учёба"@ != "Медиа"@,
        "Учёба"@ != "Архив"@,
        "Учёба"@ != "Загрузчики"@,
        "Учёба"@ != "Прочее"@,
        "Медиа"@ != "Архив"@,
        "Медиа"@ != "Загрузчики"@,
        "Медиа"@ != "Прочее"@,
        "Архив"@ != "Загрузчики"@,
        "Архив"@ != "Прочее"@,
        "Загрузчики"@ != "Прочее"@,
{
    reveal_strlit("Работа");
    reveal_strlit("Личное");
    reveal_strlit("Финансы");
    reveal_strlit("Учёба");
    reveal_strlit("Медиа");
    reveal_strlit("Архив");
    reveal_strlit("Загрузчики");
    reveal_strlit("Прочее");
    assert("Работа"@[0] == 'Р' && "Работа"@[1] == 'а');
    assert("Личное"@[0] == 'Л' && "Личное"@[1] == 'и');
    assert("Финансы"@[0] == 'Ф' && "Финансы"@[1] == 'и');
    assert("Учёба"@[0] == 'У' && "Учёба"@[1] == 'ч');
    assert("Медиа"@[0] == 'М' && "Медиа"@[1] == 'е');
    assert("Архив"@[0] == 'А' && "Архив"@[1] == 'р');
    assert("Загрузчики"@[0] == 'З' && "Загрузчики"@[1] == 'а');
    assert("Прочее"@[0] == 'П' && "Прочее"@[1] == 'р');
}

proof fn either_word(s: Seq<char>, w0: &'static str, w1: &'static str)
    ensures
        text::mentions(s, seq![w0, w1]) <==> (text::contains(s, w0@) || text::contains(s, w1@)),
{
    let list = seq![w0, w1];
    assert(list[0] == w0);
    assert(list[1] == w1);
}

proof fn one_of_three_words(s: Seq<char>, w0: &'static str, w1: &'static str, w2: &'static str)
    ensures
        text::mentions(s, seq![w0, w1, w2]) <==> (text::contains(s, w0@) || text::contains(s, w1@) || text::contains(s, w2@)),
{
    let list = seq![w0, w1, w2];
    assert(list[0] == w0);
    assert(list[1] == w1);
    assert(list[2] == w2);
}

proof fn one_of_four_words(s: Seq<char>, w0: &'static str, w1: &'static str, w2: &'static str, w3: &'static str)
    ensures
        text::mentions(s, seq![w0, w1, w2, w3]) <==> (text::contains(s, w0@) || text::contains(s, w1@) || text::contains(s, w2@) || text::contains(s, w3@)),
{
    let list = seq![w0, w1, w2, w3];
    assert(list[0] == w0);
    assert(list[1] == w1);
    assert(list[2] == w2);
    assert(list[3] == w3);
}

proof fn one_of_six_words(s: Seq<char>, w0: &'static str, w1: &'static str, w2: &'static str, w3: &'static str, w4: &'static str, w5: &'static str)
    ensures
        text::mentions(s, seq![w0, w1, w2, w3, w4, w5]) <==> (text::contains(s, w0@) || text::contains(s, w1@) || text::contains(s, w2@) || text::contains(s, w3@) || text::contains(s, w4@) || text::contains(s, w5@)),
{
    let list = seq![w0, w1, w2, w3, w4, w5];
    assert(list[0] == w0);
    assert(list[1] == w1);
    assert(list[2] == w2);
    assert(list[3] == w3);
    assert(list[4] == w4);
    assert(list[5] == w5);
}

proof fn either_text(s: Seq<char>, w0: &'static str, w1: &'static str)
    ensures
        text::one_of(s, seq![w0, w1]) <==> (s == w0@ || s == w1@),
{
    let list = seq![w0, w1];
    assert(list[0] == w0);
    assert(list[1] == w1);
}

proof fn one_of_five_texts(s: Seq<char>, w0: &'static str, w1: &'static str, w2: &'static str, w3: &'static str, w4: &'static str)
    ensures
        text::one_of(s, seq![w0, w1, w2, w3, w4]) <==> (s == w0@ || s == w1@ || s == w2@ || s == w3@ || s == w4@),
{
    let list = seq![w0, w1, w2, w3, w4];
    assert(list[0] == w0);
    assert(list[1] == w1);
    assert(list[2] == w2);
    assert(list[3] == w3);
    assert(list[4] == w4);
}

proof fn one_of_eight_texts(s: Seq<char>, w0: &'static str, w1: &'static str, w2: &'static str, w3: &'static str, w4: &'static str, w5: &'static str, w6: &'static str, w7: &'static str)
    ensures
        text::one_of(s, seq![w0, w1, w2, w3, w4, w5, w6, w7]) <==> (s == w0@ || s == w1@ || s == w2@ || s == w3@ || s == w4@ || s == w5@ || s == w6@ || s == w7@),
{
    let list = seq![w0, w1, w2, w3, w4, w5, w6, w7];
    assert(list[0] == w0);
    assert(list[1] == w1);
    assert(list[2] == w2);
    assert(list[3] == w3);
    assert(list[4] == w4);
    assert(list[5] == w5);
    assert(list[6] == w6);
    assert(list[7] == w7);
}

proof fn one_of_ten_texts(s: Seq<char>, w0: &'static str, w1: &'static str, w2: &'static str, w3: &'static str, w4: &'static str, w5: &'static str, w6: &'static str, w7: &'static str, w8: &'static str, w9: &'static str)
    ensures
        text::one_of(s, seq![w0, w1, w2, w3, w4, w5, w6, w7, w8, w9]) <==> (s == w0@ || s == w1@ || s == w2@ || s == w3@ || s == w4@ || s == w5@ || s == w6@ || s == w7@ || s == w8@ || s == w9@),
{
    let list = seq![w0, w1, w2, w3, w4, w5, w6, w7, w8, w9];
    assert(list[0] == w0);
    assert(list[1] == w1);
    assert(list[2] == w2);
    assert(list[3] == w3);
    assert(list[4] == w4);
    assert(list[5] == w5);
    assert(list[6] == w6);
    assert(list[7] == w7);
    assert(list[8] == w8);
    assert(list[9] == w9);
}

/// What a path in lower case suggests, word by word. An installer goes to the downloads by
/// its extension, and an archive by a word in its name. Of the other files, one that is
/// named like a document of the finances goes there; else one that is named like a document
/// of work; else one that is named like a document of studies. The rest goes by the
/// extension.
pub proof fn names_suggest_categories(name: Seq<char>, ext: Seq<char>)
    ensures
        (ext == "dmg"@
            || ext == "pkg"@
            || ext == "mpkg"@
            || ext == "exe"@
            || ext == "msi"@
            || ext == "appimage"@
            || ext == "deb"@
            || ext == "rpm"@
            || ext == "apk"@
            || ext == "iso"@) ==> categories::suggested(name, ext) == "Загрузчики"@,
        (ext == "zip"@ || ext == "7z"@) && (text::contains(name, "setup"@)
            || text::contains(name, "install"@)
            || text::contains(name, "installer"@)
            || text::contains(name, "latest"@)
            || text::contains(name, "download"@)
            || text::contains(name, "tsetup"@)) ==> categories::suggested(name, ext) == "Загрузчики"@,
        categories::suggested(name, ext) == "Загрузчики"@ ==> (ext == "dmg"@
            || ext == "pkg"@
            || ext == "mpkg"@
            || ext == "exe"@
            || ext == "msi"@
            || ext == "appimage"@
            || ext == "deb"@
            || ext == "rpm"@
            || ext == "apk"@
            || ext == "iso"@
            || (ext == "zip"@ || ext == "7z"@) && (text::contains(name, "setup"@)
            || text::contains(name, "install"@)
            || text::contains(name, "installer"@)
            || text::contains(name, "latest"@)
            || text::contains(name, "download"@)
            || text::contains(name, "tsetup"@))),
        categories::suggested(name, ext) != "Загрузчики"@ && (text::contains(name, "invoice"@)
            || text::contains(name, "счёт"@)
            || text::contains(name, "налог"@)
            || text::contains(name, "bank"@)) ==> categories::suggested(name, ext) == "Финансы"@,
        categories::suggested(name, ext) == "Финансы"@ ==> (text::contains(name, "invoice"@)
            || text::contains(name, "счёт"@)
            || text::contains(name, "налог"@)
            || text::contains(name, "bank"@)),
        categories::suggested(name, ext) != "Загрузчики"@ && categories::suggested(name, ext) != "Финансы"@ && (text::contains(name, "resume"@)
            || text::contains(name, "проект"@)
            || text::contains(name, "contract"@)
            || text::contains(name, "договор"@)) ==> categories::suggested(name, ext) == "Работа"@,
        categories::suggested(name, ext) == "Работа"@ ==> (text::contains(name, "resume"@)
            || text::contains(name, "проект"@)
            || text::contains(name, "contract"@)
            || text::contains(name, "договор"@)),
        categories::suggested(name, ext) != "Загрузчики"@ && categories::suggested(name, ext) != "Финансы"@ && categories::suggested(name, ext) != "Работа"@ && (text::contains(name, "course"@)
            || text::contains(name, "лекц"@)
            || text::contains(name, "study"@)
            || text::contains(name, "учеб"@)) ==> categories::suggested(name, ext) == "Учёба"@,
        categories::suggested(name, ext) == "Учёба"@ ==> (text::contains(name, "course"@)
            || text::contains(name, "лекц"@)
            || text::contains(name, "study"@)
            || text::contains(name, "учеб"@)),
        categories::suggested(name, ext) != "Загрузчики"@ && categories::suggested(name, ext) != "Финансы"@ && categories::suggested(name, ext) != "Работа"@ && categories::suggested(name, ext) != "Учёба"@ && (ext == "jpg"@
            || ext == "jpeg"@
            || ext == "png"@
            || ext == "webp"@
            || ext == "mp4"@
            || ext == "mov"@
            || ext == "mkv"@
            || ext == "mp3"@) ==> categories::suggested(name, ext) == "Медиа"@,
        categories::suggested(name, ext) == "Медиа"@ ==> (ext == "jpg"@
            || ext == "jpeg"@
            || ext == "png"@
            || ext == "webp"@
            || ext == "mp4"@
            || ext == "mov"@
            || ext == "mkv"@
            || ext == "mp3"@),
        categories::suggested(name, ext) != "Загрузчики"@ && categories::suggested(name, ext) != "Финансы"@ && categories::suggested(name, ext) != "Работа"@ && categories::suggested(name, ext) != "Учёба"@ && categories::suggested(name, ext) != "Медиа"@ && (ext == "zip"@
            || ext == "rar"@
            || ext == "7z"@
            || ext == "tar"@
            || ext == "gz"@) ==> categories::suggested(name, ext) == "Архив"@,
        categories::suggested(name, ext) == "Архив"@ ==> (ext == "zip"@
            || ext == "rar"@
            || ext == "7z"@
            || ext == "tar"@
            || ext == "gz"@),
        categories::suggested(name, ext) != "Загрузчики"@ && categories::suggested(name, ext) != "Финансы"@ && categories::suggested(name, ext) != "Работа"@ && categories::suggested(name, ext) != "Учёба"@ && categories::suggested(name, ext) != "Медиа"@ && categories::suggested(name, ext) != "Архив"@ ==> categories::suggested(name, ext) == "Личное"@,
{
    categories_differ();
    one_of_ten_texts(ext, "dmg", "pkg", "mpkg", "exe", "msi", "appimage", "deb", "rpm", "apk", "iso");
    either_text(ext, "zip", "7z");
    one_of_six_words(name, "setup", "install", "installer", "latest", "download", "tsetup");
    one_of_four_words(name, "invoice", "счёт", "налог", "bank");
    one_of_four_words(name, "resume", "проект", "contract", "договор");
    one_of_four_words(name, "course", "лекц", "study", "учеб");
    one_of_eight_texts(ext, "jpg", "jpeg", "png", "webp", "mp4", "mov", "mkv", "mp3");
    one_of_five_texts(ext, "zip", "rar", "7z", "tar", "gz");
}

/// How sure a suggestion is and what is said of it: an installer is nearly sure, what nothing
/// speaks for is unsure, and everything else is likely.
pub proof fn suggestions_say_how_sure_they_are(category: Seq<char>)
    ensures
        category == "Личное"@ ==> categories::suggestion_confidence(category).bits == 0x3ee6_6666u32,
        category == "Загрузчики"@ ==> categories::suggestion_confidence(category).bits
            == 0x3f73_3333u32,
        category != "Личное"@ && category != "Загрузчики"@ ==> categories::suggestion_confidence(
            category,
        ).bits == 0x3f38_51ecu32,
        category == "Загрузчики"@ ==> categories::suggestion_explanation(category)
            == "Распознан установочный или загрузочный файл по расширению либо имени."@,
        category != "Загрузчики"@ ==> categories::suggestion_explanation(category)
            == "Предварительная локальная оценка по имени, расширению и дате."@,
{
    categories_differ();
}

proof fn one_of_six_texts(s: Seq<char>, w0: &'static str, w1: &'static str, w2: &'static str, w3: &'static str, w4: &'static str, w5: &'static str)
    ensures
        text::one_of(s, seq![w0, w1, w2, w3, w4, w5]) <==> (s == w0@ || s == w1@ || s == w2@ || s == w3@ || s == w4@ || s == w5@),
{
    let list = seq![w0, w1, w2, w3, w4, w5];
    assert(list[0] == w0);
    assert(list[1] == w1);
    assert(list[2] == w2);
    assert(list[3] == w3);
    assert(list[4] == w4);
    assert(list[5] == w5);
}

/// That its content is not looked at is said of a recording, and of nothing else.
pub proof fn recordings_are_not_looked_into(ext: Seq<char>)
    ensures
        (ext == "mp3"@
            || ext == "wav"@
            || ext == "m4a"@
            || ext == "mp4"@
            || ext == "mov"@
            || ext == "mkv"@) <==> categories::content_warning(ext) is Some,
        categories::content_warning(ext) is Some ==> categories::content_warning(ext)->0
            == "Содержимое аудио/видео в первой версии не анализируется."@,
{
    one_of_six_texts(ext, "mp3", "wav", "m4a", "mp4", "mov", "mkv");
}

/// What an answer in lower case means, word by word: the first category, in the order of the
/// categories, that a word of the answer stands for; no category where no word does.
pub proof fn answers_mean_categories(answer: Seq<char>)
    ensures
        (text::contains(answer, "работ"@)
            || text::contains(answer, "work"@)
            || text::contains(answer, "business"@)) ==> categories::spoken_of(answer) == Some("Работа"@),
        categories::spoken_of(answer) == Some("Работа"@) ==> (text::contains(answer, "работ"@)
            || text::contains(answer, "work"@)
            || text::contains(answer, "business"@)),
        categories::spoken_of(answer) != Some("Работа"@) && (text::contains(answer, "личн"@)
            || text::contains(answer, "personal"@)
            || text::contains(answer, "private"@)) ==> categories::spoken_of(answer) == Some("Личное"@),
        categories::spoken_of(answer) == Some("Личное"@) ==> (text::contains(answer, "личн"@)
            || text::contains(answer, "personal"@)
            || text::contains(answer, "private"@)),
        categories::spoken_of(answer) != Some("Работа"@) && categories::spoken_of(answer) != Some("Личное"@) && (text::contains(answer, "финанс"@)
            || text::contains(answer, "finance"@)
            || text::contains(answer, "bank"@)) ==> categories::spoken_of(answer) == Some("Финансы"@),
        categories::spoken_of(answer) == Some("Финансы"@) ==> (text::contains(answer, "финанс"@)
            || text::contains(answer, "finance"@)
            || text::contains(answer, "bank"@)),
        categories::spoken_of(answer) != Some("Работа"@) && categories::spoken_of(answer) != Some("Личное"@) && categories::spoken_of(answer) != Some("Финансы"@) && (text::contains(answer, "учеб"@)
            || text::contains(answer, "study"@)
            || text::contains(answer, "education"@)) ==> categories::spoken_of(answer) == Some("Учёба"@),
        categories::spoken_of(answer) == Some("Учёба"@) ==> (text::contains(answer, "учеб"@)
            || text::contains(answer, "study"@)
            || text::contains(answer, "education"@)),
        categories::spoken_of(answer) != Some("Работа"@) && categories::spoken_of(answer) != Some("Личное"@) && categories::spoken_of(answer) != Some("Финансы"@) && categories::spoken_of(answer) != Some("Учёба"@) && (text::contains(answer, "медиа"@)
            || text::contains(answer, "media"@)
            || text::contains(answer, "photo"@)
            || text::contains(answer, "video"@)) ==> categories::spoken_of(answer) == Some("Медиа"@),
        categories::spoken_of(answer) == Some("Медиа"@) ==> (text::contains(answer, "медиа"@)
            || text::contains(answer, "media"@)
            || text::contains(answer, "photo"@)
            || text::contains(answer, "video"@)),
        categories::spoken_of(answer) != Some("Работа"@) && categories::spoken_of(answer) != Some("Личное"@) && categories::spoken_of(answer) != Some("Финансы"@) && categories::spoken_of(answer) != Some("Учёба"@) && categories::spoken_of(answer) != Some("Медиа"@) && (text::contains(answer, "архив"@)
            || text::contains(answer, "archive"@)) ==> categories::spoken_of(answer) == Some("Архив"@),
        categories::spoken_of(answer) == Some("Архив"@) ==> (text::contains(answer, "архив"@)
            || text::contains(answer, "archive"@)),
        categories::spoken_of(answer) != Some("Работа"@) && categories::spoken_of(answer) != Some("Личное"@) && categories::spoken_of(answer) != Some("Финансы"@) && categories::spoken_of(answer) != Some("Учёба"@) && categories::spoken_of(answer) != Some("Медиа"@) && categories::spoken_of(answer) != Some("Архив"@) && (text::contains(answer, "загруз"@)
            || text::contains(answer, "download"@)
            || text::contains(answer, "install"@)) ==> categories::spoken_of(answer) == Some("Загрузчики"@),
        categories::spoken_of(answer) == Some("Загрузчики"@) ==> (text::contains(answer, "загруз"@)
            || text::contains(answer, "download"@)
            || text::contains(answer, "install"@)),
        categories::spoken_of(answer) != Some("Работа"@) && categories::spoken_of(answer) != Some("Личное"@) && categories::spoken_of(answer) != Some("Финансы"@) && categories::spoken_of(answer) != Some("Учёба"@) && categories::spoken_of(answer) != Some("Медиа"@) && categories::spoken_of(answer) != Some("Архив"@) && categories::spoken_of(answer) != Some("Загрузчики"@) && (text::contains(answer, "проч"@)
            || text::contains(answer, "other"@)
            || text::contains(answer, "misc"@)) ==> categories::spoken_of(answer) == Some("Прочее"@),
        categories::spoken_of(answer) == Some("Прочее"@) ==> (text::contains(answer, "проч"@)
            || text::contains(answer, "other"@)
            || text::contains(answer, "misc"@)),
        categories::spoken_of(answer) != Some("Работа"@) && categories::spoken_of(answer) != Some("Личное"@) && categories::spoken_of(answer) != Some("Финансы"@) && categories::spoken_of(answer) != Some("Учёба"@) && categories::spoken_of(answer) != Some("Медиа"@) && categories::spoken_of(answer) != Some("Архив"@) && categories::spoken_of(answer) != Some("Загрузчики"@) && categories::spoken_of(answer) != Some("Прочее"@) ==> categories::spoken_of(answer) is None,
{
    categories_differ();
    one_of_three_words(answer, "работ", "work", "business");
    one_of_three_words(answer, "личн", "personal", "private");
    one_of_three_words(answer, "финанс", "finance", "bank");
    one_of_three_words(answer, "учеб", "study", "education");
    one_of_four_words(answer, "медиа", "media", "photo", "video");
    either_word(answer, "архив", "archive");
    one_of_three_words(answer, "загруз", "download", "install");
    one_of_three_words(answer, "проч", "other", "misc");
}

/// What an answer means is chosen whatever was suggested before. Where it means nothing, a
/// suggestion that is a standard category stays, and any other becomes the category of what
/// fits nowhere.
pub proof fn answers_come_before_suggestions(answer: Seq<char>, fallback: Seq<char>)
    ensures
        categories::spoken_of(answer) is Some ==> categories::chosen(answer, fallback) == categories::spoken_of(answer)->0,
        categories::spoken_of(answer) is None && (fallback == "Работа"@
            || fallback == "Личное"@
            || fallback == "Финансы"@
            || fallback == "Учёба"@
            || fallback == "Медиа"@
            || fallback == "Архив"@
            || fallback == "Загрузчики"@
            || fallback == "Прочее"@) ==> categories::chosen(answer, fallback) == fallback,
        categories::spoken_of(answer) is None && fallback != "Работа"@ && fallback != "Личное"@ && fallback != "Финансы"@ && fallback != "Учёба"@ && fallback != "Медиа"@ && fallback != "Архив"@ && fallback != "Загрузчики"@ && fallback != "Прочее"@ ==> categories::chosen(answer, fallback) == "Прочее"@,
{
    one_of_eight_texts(fallback, "Работа", "Личное", "Финансы", "Учёба", "Медиа", "Архив", "Загрузчики", "Прочее");
}

/// An answer counts without the white space round it and in lower case.
pub proof fn answers_are_read_in_lower_case(value: Seq<char>, fallback: Seq<char>)
    ensures
        categories::restricted(value, fallback) == categories::chosen(
            outside::lowercase(text::trim(value)),
            fallback,
        ),
{
}

/// White space round an answer does not matter, and where an answer in lower case is the name of a category,
/// that category is chosen.
pub proof fn blanks_round_an_answer_do_not_matter(
    before: Seq<char>,
    value: Seq<char>,
    after: Seq<char>,
    fallback: Seq<char>,
)
    requires
        forall|i: int| 0 <= i < before.len() ==> text::is_space(#[trigger] before[i]),
        forall|i: int| 0 <= i < after.len() ==> text::is_space(#[trigger] after[i]),
        value.len() > 0 ==> !text::is_space(value[0]) && !text::is_space(value.last()),
    ensures
        categories::restricted(before + value + after, fallback) == categories::restricted(
            value,
            fallback,
        ),
        categories::restricted(value, fallback) == categories::chosen(
            outside::lowercase(value),
            fallback,
        ),
{
    let empty = Seq::<char>::empty();
    texts::trimming_takes_white_space_off(before, value, after);
    texts::trimming_takes_white_space_off(empty, value, empty);
    assert(empty + value + empty =~= value);
}

/// Two characters that stand nowhere one behind the other rule out every text that begins
/// with them.
proof fn what_lacks_two_lacks_all(s: Seq<char>, part: Seq<char>)
    requires
        part.len() >= 2,
        forall|i: int| 0 <= i < s.len() - 1 ==> !((#[trigger] s[i]) == part[0] && s[i + 1] == part[1]),
    ensures
        !text::contains(s, part),
{
    if text::contains(s, part) {
        let i = choose|i: int| text::has_at(s, i, part);
        assert(s.subrange(i, i + part.len())[0] == part[0]);
        assert(s.subrange(i, i + part.len())[1] == part[1]);
        assert(s[i] == part[0] && s[i + 1] == part[1]);
    }
}

proof fn work_is_understood()
    ensures
        categories::spoken_of("работа"@) == Some("Работа"@),
{
    let s = "работа"@;
    reveal_strlit("работа");
    assert(s[0] == 'р' && s[1] == 'а' && s[2] == 'б' && s[3] == 'о' && s[4] == 'т' && s[5] == 'а');
    reveal_strlit("работ");
    assert(s.subrange(0, 5) =~= "работ"@);
    assert(text::has_at(s, 0, "работ"@));
    answers_mean_categories(s);
    categories_differ();
}

proof fn personal_is_understood()
    ensures
        categories::spoken_of("личное"@) == Some("Личное"@),
{
    let s = "личное"@;
    reveal_strlit("личное");
    assert(s[0] == 'л' && s[1] == 'и' && s[2] == 'ч' && s[3] == 'н' && s[4] == 'о' && s[5] == 'е');
    reveal_strlit("работ");
    what_lacks_two_lacks_all(s, "работ"@);
    reveal_strlit("work");
    what_lacks_two_lacks_all(s, "work"@);
    reveal_strlit("business");
    what_lacks_two_lacks_all(s, "business"@);
    reveal_strlit("личн");
    assert(s.subrange(0, 4) =~= "личн"@);
    assert(text::has_at(s, 0, "личн"@));
    answers_mean_categories(s);
    categories_differ();
}

proof fn finance_is_understood()
    ensures
        categories::spoken_of("финансы"@) == Some("Финансы"@),
{
    let s = "финансы"@;
    reveal_strlit("финансы");
    assert(s[0] == 'ф' && s[1] == 'и' && s[2] == 'н' && s[3] == 'а' && s[4] == 'н' && s[5] == 'с' && s[6] == 'ы');
    reveal_strlit("работ");
    what_lacks_two_lacks_all(s, "работ"@);
    reveal_strlit("work");
    what_lacks_two_lacks_all(s, "work"@);
    reveal_strlit("business");
    what_lacks_two_lacks_all(s, "business"@);
    reveal_strlit("личн");
    what_lacks_two_lacks_all(s, "личн"@);
    reveal_strlit("personal");
    what_lacks_two_lacks_all(s, "personal"@);
    reveal_strlit("private");
    what_lacks_two_lacks_all(s, "private"@);
    reveal_strlit("финанс");
    assert(s.subrange(0, 6) =~= "финанс"@);
    assert(text::has_at(s, 0, "финанс"@));
    answers_mean_categories(s);
    categories_differ();
}

proof fn media_is_understood()
    ensures
        categories::spoken_of("медиа"@) == Some("Медиа"@),
{
    let s = "медиа"@;
    reveal_strlit("медиа");
    assert(s[0] == 'м' && s[1] == 'е' && s[2] == 'д' && s[3] == 'и' && s[4] == 'а');
    reveal_strlit("работ");
    what_lacks_two_lacks_all(s, "работ"@);
    reveal_strlit("work");
    what_lacks_two_lacks_all(s, "work"@);
    reveal_strlit("business");
    what_lacks_two_lacks_all(s, "business"@);
    reveal_strlit("личн");
    what_lacks_two_lacks_all(s, "личн"@);
    reveal_strlit("personal");
    what_lacks_two_lacks_all(s, "personal"@);
    reveal_strlit("private");
    what_lacks_two_lacks_all(s, "private"@);
    reveal_strlit("финанс");
    what_lacks_two_lacks_all(s, "финанс"@);
    reveal_strlit("finance");
    what_lacks_two_lacks_all(s, "finance"@);
    reveal_strlit("bank");
    what_lacks_two_lacks_all(s, "bank"@);
    reveal_strlit("учеб");
    what_lacks_two_lacks_all(s, "учеб"@);
    reveal_strlit("study");
    what_lacks_two_lacks_all(s, "study"@);
    reveal_strlit("education");
    what_lacks_two_lacks_all(s, "education"@);
    reveal_strlit("медиа");
    assert(s.subrange(0, 5) =~= "медиа"@);
    assert(text::has_at(s, 0, "медиа"@));
    answers_mean_categories(s);
    categories_differ();
}

proof fn archive_is_understood()
    ensures
        categories::spoken_of("архив"@) == Some("Архив"@),
{
    let s = "архив"@;
    reveal_strlit("архив");
    assert(s[0] == 'а' && s[1] == 'р' && s[2] == 'х' && s[3] == 'и' && s[4] == 'в');
    reveal_strlit("работ");
    what_lacks_two_lacks_all(s, "работ"@);
    reveal_strlit("work");
    what_lacks_two_lacks_all(s, "work"@);
    reveal_strlit("business");
    what_lacks_two_lacks_all(s, "business"@);
    reveal_strlit("личн");
    what_lacks_two_lacks_all(s, "личн"@);
    reveal_strlit("personal");
    what_lacks_two_lacks_all(s, "personal"@);
    reveal_strlit("private");
    what_lacks_two_lacks_all(s, "private"@);
    reveal_strlit("финанс");
    what_lacks_two_lacks_all(s, "финанс"@);
    reveal_strlit("finance");
    what_lacks_two_lacks_all(s, "finance"@);
    reveal_strlit("bank");
    what_lacks_two_lacks_all(s, "bank"@);
    reveal_strlit("учеб");
    what_lacks_two_lacks_all(s, "учеб"@);
    reveal_strlit("study");
    what_lacks_two_lacks_all(s, "study"@);
    reveal_strlit("education");
    what_lacks_two_lacks_all(s, "education"@);
    reveal_strlit("медиа");
    what_lacks_two_lacks_all(s, "медиа"@);
    reveal_strlit("media");
    what_lacks_two_lacks_all(s, "media"@);
    reveal_strlit("photo");
    what_lacks_two_lacks_all(s, "photo"@);
    reveal_strlit("video");
    what_lacks_two_lacks_all(s, "video"@);
    reveal_strlit("архив");
    assert(s.subrange(0, 5) =~= "архив"@);
    assert(text::has_at(s, 0, "архив"@));
    answers_mean_categories(s);
    categories_differ();
}

proof fn downloads_is_understood()
    ensures
        categories::spoken_of("загрузчики"@) == Some("Загрузчики"@),
{
    let s = "загрузчики"@;
    reveal_strlit("загрузчики");
    assert(s[0] == 'з' && s[1] == 'а' && s[2] == 'г' && s[3] == 'р' && s[4] == 'у' && s[5] == 'з' && s[6] == 'ч' && s[7] == 'и' && s[8] == 'к' && s[9] == 'и');
    reveal_strlit("работ");
    what_lacks_two_lacks_all(s, "работ"@);
    reveal_strlit("work");
    what_lacks_two_lacks_all(s, "work"@);
    reveal_strlit("business");
    what_lacks_two_lacks_all(s, "business"@);
    reveal_strlit("личн");
    what_lacks_two_lacks_all(s, "личн"@);
    reveal_strlit("personal");
    what_lacks_two_lacks_all(s, "personal"@);
    reveal_strlit("private");
    what_lacks_two_lacks_all(s, "private"@);
    reveal_strlit("финанс");
    what_lacks_two_lacks_all(s, "финанс"@);
    reveal_strlit("finance");
    what_lacks_two_lacks_all(s, "finance"@);
    reveal_strlit("bank");
    what_lacks_two_lacks_all(s, "bank"@);
    reveal_strlit("учеб");
    what_lacks_two_lacks_all(s, "учеб"@);
    reveal_strlit("study");
    what_lacks_two_lacks_all(s, "study"@);
    reveal_strlit("education");
    what_lacks_two_lacks_all(s, "education"@);
    reveal_strlit("медиа");
    what_lacks_two_lacks_all(s, "медиа"@);
    reveal_strlit("media");
    what_lacks_two_lacks_all(s, "media"@);
    reveal_strlit("photo");
    what_lacks_two_lacks_all(s, "photo"@);
    reveal_strlit("video");
    what_lacks_two_lacks_all(s, "video"@);
    reveal_strlit("архив");
    what_lacks_two_lacks_all(s, "архив"@);
    reveal_strlit("archive");
    what_lacks_two_lacks_all(s, "archive"@);
    reveal_strlit("загруз");
    assert(s.subrange(0, 6) =~= "загруз"@);
    assert(text::has_at(s, 0, "загруз"@));
    answers_mean_categories(s);
    categories_differ();
}

proof fn other_is_understood()
    ensures
        categories::spoken_of("прочее"@) == Some("Прочее"@),
{
    let s = "прочее"@;
    reveal_strlit("прочее");
    assert(s[0] == 'п' && s[1] == 'р' && s[2] == 'о' && s[3] == 'ч' && s[4] == 'е' && s[5] == 'е');
    reveal_strlit("работ");
    what_lacks_two_lacks_all(s, "работ"@);
    reveal_strlit("work");
    what_lacks_two_lacks_all(s, "work"@);
    reveal_strlit("business");
    what_lacks_two_lacks_all(s, "business"@);
    reveal_strlit("личн");
    what_lacks_two_lacks_all(s, "личн"@);
    reveal_strlit("personal");
    what_lacks_two_lacks_all(s, "personal"@);
    reveal_strlit("private");
    what_lacks_two_lacks_all(s, "private"@);
    reveal_strlit("финанс");
    what_lacks_two_lacks_all(s, "финанс"@);
    reveal_strlit("finance");
    what_lacks_two_lacks_all(s, "finance"@);
    reveal_strlit("bank");
    what_lacks_two_lacks_all(s, "bank"@);
    reveal_strlit("учеб");
    what_lacks_two_lacks_all(s, "учеб"@);
    reveal_strlit("study");
    what_lacks_two_lacks_all(s, "study"@);
    reveal_strlit("education");
    what_lacks_two_lacks_all(s, "education"@);
    reveal_strlit("медиа");
    what_lacks_two_lacks_all(s, "медиа"@);
    reveal_strlit("media");
    what_lacks_two_lacks_all(s, "media"@);
    reveal_strlit("photo");
    what_lacks_two_lacks_all(s, "photo"@);
    reveal_strlit("video");
    what_lacks_two_lacks_all(s, "video"@);
    reveal_strlit("архив");
    what_lacks_two_lacks_all(s, "архив"@);
    reveal_strlit("archive");
    what_lacks_two_lacks_all(s, "archive"@);
    reveal_strlit("загруз");
    what_lacks_two_lacks_all(s, "загруз"@);
    reveal_strlit("download");
    what_lacks_two_lacks_all(s, "download"@);
    reveal_strlit("install");
    what_lacks_two_lacks_all(s, "install"@);
    reveal_strlit("проч");
    assert(s.subrange(0, 4) =~= "проч"@);
    assert(text::has_at(s, 0, "проч"@));
    answers_mean_categories(s);
    categories_differ();
}

/// The model is asked for the name of a category, and is understood: an answer that is the name
/// of one, in lower case, gives that category whatever was suggested before.
pub proof fn names_of_categories_are_understood(fallback: Seq<char>)
    ensures
        categories::chosen("работа"@, fallback) == "Работа"@,
        categories::chosen("личное"@, fallback) == "Личное"@,
        categories::chosen("финансы"@, fallback) == "Финансы"@,
        categories::chosen("медиа"@, fallback) == "Медиа"@,
        categories::chosen("архив"@, fallback) == "Архив"@,
        categories::chosen("загрузчики"@, fallback) == "Загрузчики"@,
        categories::chosen("прочее"@, fallback) == "Прочее"@,
{
    work_is_understood();
    personal_is_understood();
    finance_is_understood();
    media_is_understood();
    archive_is_understood();
    downloads_is_understood();
    other_is_understood();
}

} // verus!
