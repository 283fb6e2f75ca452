use file_sorter::categories::UNPROCESSED_CATEGORY;
use file_sorter::diagnostics::{batch_log_event, elapsed_ms};
use file_sorter::extensions::extension_summary;
use file_sorter::names::SORTED_DIR;
use file_sorter::paths::Style;
use file_sorter::records::{
    AiDecision, AiFileContext, AiStatus, AnalysisLogEvent, AnalysisProgress, Confidence,
    ExtensionCount, PlanItem, SortSettings,
};
use file_sorter::refinement::{
    AiRefinement, AiSummary, BatchError, Notice, Refinement, Step, CANCELLED_BY_USER,
};

fn test_sort() -> SortSettings {
    SortSettings {
        mode: "standard".into(),
        custom_prompt: "".into(),
        text_limit: 1,
        total_limit: 1,
        unlimited: false,
    }
}

fn confidence(value: f32) -> Confidence {
    Confidence { bits: value.to_bits() }
}

fn plan(count: usize) -> (Vec<PlanItem>, Vec<AiFileContext>) {
    let mut items = Vec::new();
    let mut contexts = Vec::new();
    for index in 0..count {
        let id = format!("file-{index}");
        let relative = format!("исходная/папка/file-{index}.txt");
        items.push(PlanItem {
            id: id.clone(),
            source: format!("/tmp/root/{relative}"),
            relative_path: relative.clone(),
            target: format!("{SORTED_DIR}/Личное/file-{index}.txt"),
            category: "Личное".into(),
            explanation: "Локальная оценка".into(),
            confidence: confidence(0.45),
            included: true,
            warning: None,
            ai_status: AiStatus::RetryPending,
            ai_error: None,
        });
        contexts.push(AiFileContext {
            id,
            path: relative,
            extension: "txt".into(),
            size_bytes: 10,
            created_at: None,
            modified_at: None,
            suggested_category: "Личное".into(),
            content_extract: Some("текст".into()),
            content_status: "прочитан".into(),
        });
    }
    (items, contexts)
}

fn decisions(batch: &[AiFileContext]) -> Vec<AiDecision> {
    batch
        .iter()
        .map(|context| AiDecision {
            id: context.id.clone(),
            category: "Работа".into(),
            explanation: Some("Решение модели".into()),
            confidence: Some(confidence(0.9)),
        })
        .collect()
}

struct Outcome {
    items: Vec<PlanItem>,
    result: Result<AiRefinement, String>,
    progress: Vec<AnalysisProgress>,
    log: Vec<AnalysisLogEvent>,
    calls: usize,
    batches: Vec<usize>,
}

fn refine<F>(items: Vec<PlanItem>, contexts: Vec<AiFileContext>, mut request: F) -> Outcome
where
    F: FnMut(usize, Vec<AiFileContext>) -> Result<Vec<AiDecision>, BatchError>,
{
    let mut progress = Vec::new();
    let mut log = Vec::new();
    let mut batches = Vec::new();
    let mut calls = 0;
    let (mut run, mut turn) = Refinement::begin(Style::Unix, items, contexts);
    let result = loop {
        for notice in turn.notices {
            match notice {
                Notice::Progress(told) => progress.push(told),
                Notice::Log(event) => log.push(event),
            }
        }
        match turn.step {
            Step::Request(batch) => {
                calls += 1;
                batches.push(batch.len());
                let reply = request(calls, batch);
                turn = run.answer(&test_sort(), reply, 7);
            }
            Step::Finished(ended) => break Ok(ended),
            Step::Cancelled(message) => break Err(message),
        }
    };
    Outcome {
        items: run.into_items(),
        result,
        progress,
        log,
        calls,
        batches,
    }
}

#[test]
fn all_batches_are_processed_successfully() {
    let (items, contexts) = plan(23);
    let outcome = refine(items, contexts, |_, batch| Ok(decisions(&batch)));
    assert_eq!(outcome.calls, 3);
    assert_eq!(
        outcome.result.unwrap().summary,
        AiSummary {
            ai_processed: 23,
            retry_succeeded: 0,
            ai_unprocessed: 0
        }
    );
    assert!(outcome
        .items
        .iter()
        .all(|item| item.ai_status == AiStatus::Processed));
}

#[test]
fn failed_batch_does_not_stop_following_batches() {
    let (items, contexts) = plan(23);
    let outcome = refine(items, contexts, |calls, batch| {
        if calls == 2 {
            Err(BatchError::Failure("Тайм-аут основного пакета".into()))
        } else {
            Ok(decisions(&batch))
        }
    });
    assert_eq!(outcome.calls, 4);
    assert_eq!(
        outcome.result.unwrap().summary,
        AiSummary {
            ai_processed: 23,
            retry_succeeded: 10,
            ai_unprocessed: 0
        }
    );
    assert_eq!(outcome.items[20].explanation, "Решение модели");
    assert_eq!(outcome.items[5].ai_status, AiStatus::Processed);
}

#[test]
fn second_failure_moves_only_failed_files_to_unprocessed() {
    let (items, contexts) = plan(20);
    let outcome = refine(items, contexts, |calls, batch| match calls {
        1 => Ok(decisions(&batch)),
        2 => Err(BatchError::Failure("Тайм-аут запроса".into())),
        _ => Err(BatchError::Failure("Модель вернула невалидный JSON".into())),
    });
    assert_eq!(
        outcome.result.unwrap().summary,
        AiSummary {
            ai_processed: 10,
            retry_succeeded: 0,
            ai_unprocessed: 10
        }
    );
    assert!(outcome.items[..10]
        .iter()
        .all(|item| item.ai_status == AiStatus::Processed));
    for item in &outcome.items[10..] {
        assert_eq!(item.ai_status, AiStatus::Unprocessed);
        assert_eq!(item.category, UNPROCESSED_CATEGORY);
        let expected_parent = std::path::PathBuf::from(SORTED_DIR).join(UNPROCESSED_CATEGORY);
        assert!(std::path::Path::new(&item.target).starts_with(expected_parent));
        assert!(item.included);
        let error = item.ai_error.as_deref().unwrap();
        assert!(error.contains("Тайм-аут запроса"));
        assert!(error.contains("невалидный JSON"));
    }
}

#[test]
fn missing_partial_decisions_are_retried() {
    let (items, contexts) = plan(12);
    let outcome = refine(items, contexts, |calls, batch| {
        if calls == 1 {
            Ok(decisions(&batch[..3]))
        } else {
            Ok(decisions(&batch))
        }
    });
    assert_eq!(outcome.calls, 3);
    let result = outcome.result.unwrap();
    assert_eq!(
        result.summary,
        AiSummary {
            ai_processed: 12,
            retry_succeeded: 7,
            ai_unprocessed: 0
        }
    );
    assert!(result
        .warnings
        .iter()
        .any(|warning| warning.contains("частичный ответ")
            || warning.contains("не вернула решения")));
}

#[test]
fn batch_diagnostics_report_attempts_extensions_and_separate_counts() {
    let (items, mut contexts) = plan(12);
    contexts[0].extension = "pdf".into();
    contexts[1].extension = "pdf".into();
    let outcome = refine(items, contexts, |_, batch| Ok(decisions(&batch)));
    let log_events = outcome.log;
    let progress_events = outcome.progress;

    assert_eq!(log_events.len(), 2);
    assert_eq!(log_events[0].attempt, Some(1));
    assert_eq!(log_events[0].batch_number, Some(1));
    assert_eq!(log_events[0].file_count, 10);
    assert_eq!(log_events[0].outcome, "success");
    assert_eq!(log_events[0].successful_files, 10);
    assert!(log_events[0].extensions.contains(&ExtensionCount {
        extension: ".pdf".into(),
        count: 2,
    }));

    let after_first_batch = progress_events
        .iter()
        .find(|progress| progress.phase == "main" && progress.completed_batches == 1)
        .unwrap();
    assert_eq!(after_first_batch.processed_files, 10);
    assert_eq!(after_first_batch.not_attempted_files, 2);
    assert_eq!(after_first_batch.retry_pending_files, 0);
    assert_eq!(after_first_batch.pending_files, 2);
}

#[test]
fn an_empty_plan_is_complete_at_once() {
    let (_, contexts) = plan(3);
    let outcome = refine(Vec::new(), contexts, |_, _| panic!("nothing to ask"));
    assert_eq!(outcome.calls, 0);
    assert!(outcome.log.is_empty());
    assert_eq!(outcome.progress.len(), 1);
    assert_eq!(outcome.progress[0].phase, "complete");
    assert_eq!(
        outcome.progress[0].message,
        "В выбранной папке нет файлов для анализа."
    );
    let result = outcome.result.unwrap();
    assert_eq!(result.summary.ai_processed, 0);
    assert!(result.warnings.is_empty());
}

#[test]
fn a_cancellation_leaves_the_plan_as_it_is() {
    let (items, contexts) = plan(12);
    let outcome = refine(items, contexts, |calls, batch| {
        if calls == 1 {
            Ok(decisions(&batch))
        } else {
            Err(BatchError::Cancelled)
        }
    });
    assert_eq!(outcome.calls, 2);
    assert_eq!(outcome.result.unwrap_err(), CANCELLED_BY_USER);
    assert_eq!(outcome.items[9].ai_status, AiStatus::Processed);
    assert_eq!(outcome.items[10].ai_status, AiStatus::RetryPending);
    assert_eq!(outcome.items[10].explanation, "Локальная оценка");
    let last = outcome.log.last().unwrap();
    assert_eq!(last.outcome, "cancelled");
    assert_eq!(last.error_kind.as_deref(), Some("cancelled"));
    assert_eq!(last.unresolved_files, 2);
    assert_eq!(last.successful_files, 0);
}

#[test]
fn the_messages_name_pass_batch_and_counts() {
    let (items, contexts) = plan(12);
    let outcome = refine(items, contexts, |calls, batch| match calls {
        1 => Ok(decisions(&batch)),
        2 => Ok(decisions(&batch[..1])),
        _ => Ok(Vec::new()),
    });
    let messages: Vec<&str> = outcome
        .progress
        .iter()
        .map(|told| told.message.as_str())
        .collect();
    assert_eq!(
        messages,
        vec![
            "Основной проход: пакет 1 из 2…",
            "Основной проход: завершено пакетов 1 из 2.",
            "Основной проход: пакет 2 из 2…",
            "Основной проход: завершено пакетов 2 из 2.",
            "Повторный проход: пакет 1 из 1…",
            "Повторный проход: завершено пакетов 1 из 1.",
            "Анализ завершён: ИИ обработал 11, после повтора — 0, не обработано — 1.",
        ]
    );
    assert_eq!(outcome.progress[6].completed_batches, 3);
    assert_eq!(outcome.progress[6].total_batches, 3);
    assert_eq!(outcome.progress[4].pending_files, 1);
    assert_eq!(outcome.progress[4].not_attempted_files, 0);
    let result = outcome.result.unwrap();
    assert_eq!(
        result.warnings,
        vec![
            "Основной проход, пакет 2: модель не вернула решения для 1 файлов; они отправлены на повторную попытку.",
            "Повторный проход, пакет 1: для 1 файлов снова нет решения; они направлены в «Не обработано ИИ».",
        ]
    );
    assert_eq!(outcome.log[1].outcome, "partial");
    assert_eq!(outcome.log[1].error_kind.as_deref(), Some("partial_response"));
    assert_eq!(
        outcome.log[1].error_detail.as_deref(),
        Some("Модель не вернула решения для части файлов пакета")
    );
    assert_eq!(
        outcome.log[2].error_detail.as_deref(),
        Some("Модель повторно не вернула решения для части файлов пакета")
    );
    assert_eq!(
        outcome.items[11].ai_error.as_deref(),
        Some("ИИ не обработал файл после двух попыток. Первая попытка: Модель вернула частичный ответ: решение для файла отсутствует. Повторная попытка: Модель снова вернула частичный ответ: решение для файла отсутствует.")
    );
}

#[test]
fn failed_requests_are_told_without_a_trace() {
    let (items, contexts) = plan(2);
    let outcome = refine(items, contexts, |_, _| {
        Err(BatchError::Failure(
            "Ошибка запроса к модели: /Users/private/secret.txt".into(),
        ))
    });
    let result = outcome.result.unwrap();
    assert_eq!(
        result.warnings,
        vec![
            "Основной проход, пакет 1: Сетевая ошибка запроса к модели. На повторную попытку отправлено 2 файлов.",
            "Повторный проход, пакет 1: Сетевая ошибка запроса к модели. В «Не обработано ИИ» направлено 2 файлов.",
        ]
    );
    assert_eq!(outcome.log[0].outcome, "error");
    assert_eq!(outcome.log[0].error_kind.as_deref(), Some("network"));
    assert_eq!(outcome.log[1].attempt, Some(2));
    assert_eq!(outcome.log[1].duration_ms, 7);
    assert!(outcome
        .items
        .iter()
        .all(|item| item.target.starts_with("AI Sorted/Не обработано ИИ/file-")));
    assert!(outcome
        .items
        .iter()
        .all(|item| item.confidence.bits == 0f32.to_bits()));
}

#[test]
fn pending_and_processed_files_add_up_while_a_run_goes_on() {
    let (items, contexts) = plan(34);
    let outcome = refine(items, contexts, |calls, batch| {
        if calls % 2 == 0 {
            Err(BatchError::Failure("timed out".into()))
        } else {
            Ok(decisions(&batch[..batch.len() / 2]))
        }
    });
    for told in &outcome.progress {
        if told.phase == "main" {
            assert_eq!(told.processed_files + told.pending_files, 34);
            assert_eq!(
                told.pending_files,
                told.not_attempted_files + told.retry_pending_files
            );
        }
    }
    assert!(outcome.batches.iter().all(|size| *size <= 10));
    assert!(outcome.calls <= 2 * 34);
    let summary = outcome.result.unwrap().summary;
    assert_eq!(summary.ai_processed + summary.ai_unprocessed, 34);
    assert!(outcome.items.iter().all(|item| {
        item.ai_status == AiStatus::Processed || item.ai_status == AiStatus::Unprocessed
    }));
}

#[test]
fn installers_keep_their_category_in_standard_mode() {
    let (mut items, contexts) = plan(1);
    items[0].category = "Загрузчики".into();
    items[0].target = "AI Sorted/Загрузчики/file-0.txt".into();
    let outcome = refine(items, contexts, |_, batch| Ok(decisions(&batch)));
    assert_eq!(outcome.items[0].category, "Загрузчики");
    assert_eq!(outcome.items[0].target, "AI Sorted/Загрузчики/file-0.txt");
    assert_eq!(outcome.items[0].explanation, "Решение модели");
}

#[test]
fn decisions_on_other_files_are_ignored() {
    let (items, contexts) = plan(2);
    let outcome = refine(items, contexts, |_, batch| {
        let mut answers = decisions(&batch[..1]);
        answers.push(AiDecision {
            id: "unknown".into(),
            category: "Финансы".into(),
            explanation: None,
            confidence: None,
        });
        answers.push(AiDecision {
            id: batch[0].id.clone(),
            category: "Финансы".into(),
            explanation: None,
            confidence: None,
        });
        Ok(answers)
    });
    assert_eq!(outcome.items[0].category, "Работа");
    assert_eq!(outcome.items[0].target, "AI Sorted/Работа/file-0.txt");
}

#[test]
fn a_decision_without_a_reason_gets_one() {
    let (items, contexts) = plan(1);
    let outcome = refine(items, contexts, |_, batch| {
        let mut answers = decisions(&batch);
        answers[0].explanation = Some("   ".into());
        answers[0].confidence = Some(confidence(7.5));
        Ok(answers)
    });
    assert_eq!(outcome.items[0].explanation, "Категория назначена ИИ.");
    assert_eq!(outcome.items[0].confidence, confidence(1.0));
}

#[test]
fn a_log_line_shows_extensions_and_sizes() {
    let (_, contexts) = plan(3);
    let event = batch_log_event(
        "main",
        1,
        4,
        9,
        &contexts,
        elapsed_ms(u128::MAX),
        "error",
        0,
        3,
        Some(("http".into(), "detail".into())),
    );
    assert_eq!(event.file_count, 3);
    assert_eq!(event.batch_number, Some(4));
    assert_eq!(event.total_batches, Some(9));
    assert_eq!(event.duration_ms, u64::MAX);
    assert_eq!(event.error_kind.as_deref(), Some("http"));
    assert_eq!(event.extensions, extension_summary(&contexts));
    assert!(event.input_bytes.unwrap() > 0);
}

#[test]
fn a_log_line_does_not_depend_on_names() {
    let (_, contexts) = plan(3);
    let mut others = contexts.clone();
    for context in &mut others {
        context.id = context.id.replace("file", "name");
        context.path = context.path.replace("file", "code");
        context.content_extract = Some("слово".into());
    }
    let line = |batch: &[AiFileContext]| {
        batch_log_event("retry", 2, 1, 1, batch, 5, "success", 3, 0, None)
    };
    assert_eq!(line(&contexts), line(&others));
}

#[test]
fn targets_are_written_in_the_notation_of_the_system() {
    let (mut items, contexts) = plan(2);
    for item in &mut items {
        item.relative_path = item.relative_path.replace('/', "\\");
    }
    let (mut run, turn) = Refinement::begin(Style::Windows, items, contexts);
    let Step::Request(batch) = turn.step else {
        panic!("the model is asked");
    };
    let turn = run.answer(&test_sort(), Ok(decisions(&batch[..1])), 1);
    assert!(matches!(turn.step, Step::Request(_)));
    let turn = run.answer(&test_sort(), Ok(Vec::new()), 1);
    assert!(matches!(turn.step, Step::Finished(_)));
    let items = run.into_items();
    assert_eq!(items[0].target, "AI Sorted\\Работа\\file-0.txt");
    assert_eq!(items[1].target, "AI Sorted\\Не обработано ИИ\\file-1.txt");
}
