//! The sentences that are said as they stand.

use crate::endpoints;
use crate::history;
use crate::names;
use crate::planning;
use crate::refinement;
use crate::replies;
use crate::requests;
use crate::text;
use vstd::prelude::*;

verus! {

/// What is said with a number or the words of an error in it.
pub proof fn sentences_hold_what_they_are_about(seconds: nat, error: Seq<char>)
    ensures
        requests::too_late(seconds) == "Тайм-аут пакета: модель не ответила за "@ + text::decimal(
            seconds,
        ) + " секунд"@,
        history::write_failure(error, false) == "Выбранная папка или диск недоступны для записи: "@
            + error + ". Файлы не перемещались"@,
        history::write_failure(error, true) == "Проверочный файл создан, но не удалён: "@ + error
            + ". Сортировка не запускалась"@,
{
}

/// What is said, behind which the words of an error stand, and what is said as it is.
pub proof fn sentences_stand_as_they_are()
    ensures
        names::BAD_TARGET@ == "Недопустимый целевой путь"@,
        names::INCOMPATIBLE_NAME@ == "Имя папки или файла несовместимо с Windows"@,
        names::OUTSIDE_ROOT@ == "Путь выходит за пределы выбранной папки"@,
        planning::SAME_SOURCE_TWICE@ == "Один исходный файл добавлен в план несколько раз"@,
        planning::SAME_RECORD_TWICE@ == "Журнал отмены содержит повторяющийся файл"@,
        history::NOTHING_TO_UNDO@ == "Нет операции для отмены"@,
        history::DAMAGED_HISTORY@ == "Журнал операции повреждён"@,
        history::NOT_A_FOLDER@ == "Выбранный путь не является папкой"@,
        endpoints::NO_CLIENT@ == "Не удалось создать HTTP-клиент: "@,
        endpoints::TEST_PASSED@ == "Подключение успешно"@,
        endpoints::LIST_NOT_JSON@ == "Список моделей не является JSON: "@,
        requests::REQUEST_FAILED@ == "Ошибка запроса к модели: "@,
        requests::ANSWER_NOT_JSON@ == "Ответ API не является JSON: "@,
        replies::INVALID_JSON@ == "Модель вернула невалидный JSON: "@,
        refinement::CANCELLED_BY_USER@ == "Анализ отменён пользователем"@,
{
}

} // verus!
