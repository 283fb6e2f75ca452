use file_sorter::batches::{
    can_fit_model_budget, fit_context_into_model_budget, model_batch_context_bytes,
    model_batch_ranges, model_context_bytes, shorten_text, AI_BATCH_SIZE, MAX_BATCH_CONTEXT_BYTES,
};
use file_sorter::extensions::{extension_label, extension_summary};
use file_sorter::json::{quote, write_context, write_contexts};
use file_sorter::records::{AiFileContext, ExtensionCount};

fn contexts(count: usize) -> Vec<AiFileContext> {
    (0..count)
        .map(|index| AiFileContext {
            id: format!("file-{index}"),
            path: format!("исходная/папка/file-{index}.txt"),
            extension: "txt".into(),
            size_bytes: 10,
            created_at: None,
            modified_at: None,
            suggested_category: "Личное".into(),
            content_extract: Some("текст".into()),
            content_status: "прочитан".into(),
        })
        .collect()
}

#[test]
fn contexts_are_split_by_payload_size_and_file_count() {
    let mut contexts = contexts(5);
    for context in &mut contexts {
        context.content_extract = Some("a".repeat(3_800));
        fit_context_into_model_budget(context);
    }
    let ranges = model_batch_ranges(&contexts);
    assert!(ranges.len() > 1);
    for range in ranges {
        let batch = &contexts[range];
        assert!(batch.len() <= AI_BATCH_SIZE);
        assert!(model_batch_context_bytes(batch) <= MAX_BATCH_CONTEXT_BYTES);
    }
}

#[test]
fn oversized_context_text_is_trimmed_before_request() {
    let mut contexts = contexts(1);
    contexts[0].content_extract = Some("a".repeat(MAX_BATCH_CONTEXT_BYTES * 2));
    fit_context_into_model_budget(&mut contexts[0]);
    assert!(model_context_bytes(&contexts[0]) <= MAX_BATCH_CONTEXT_BYTES);
    assert!(contexts[0].content_status.contains("сокращён"));
}

#[test]
fn extension_summary_contains_no_file_names_or_paths() {
    let mut contexts = contexts(3);
    contexts[0].extension = "PDF".into();
    contexts[1].extension = "pdf".into();
    contexts[2].extension.clear();
    let summary = extension_summary(&contexts);
    assert_eq!(
        summary,
        vec![
            ExtensionCount {
                extension: ".pdf".into(),
                count: 2,
            },
            ExtensionCount {
                extension: "без расширения".into(),
                count: 1,
            },
        ]
    );
    let shown = format!("{summary:?}");
    assert!(!shown.contains("исходная"));
    assert!(!shown.contains("file-"));
}

#[test]
fn rare_extensions_are_counted_together() {
    let mut contexts = contexts(30);
    for (index, context) in contexts.iter_mut().enumerate() {
        context.extension = format!("e{:02}", index.min(14));
    }
    let summary = extension_summary(&contexts);
    assert_eq!(summary.len(), 13);
    assert_eq!(summary[0].extension, ".e14");
    assert_eq!(summary[0].count, 16);
    assert_eq!(summary[1].extension, ".e00");
    assert_eq!(summary[12].extension, "другие");
    assert_eq!(summary[12].count, 3);
    assert_eq!(summary.iter().map(|entry| entry.count).sum::<usize>(), 30);
}

#[test]
fn an_extension_is_called_by_its_lower_case_form() {
    assert_eq!(extension_label("  ТхТ "), ".тхт");
    assert_eq!(extension_label("PDF"), ".pdf");
    assert_eq!(extension_label("   "), "без расширения");
}

#[test]
fn batches_hold_at_most_ten_files() {
    let ranges = model_batch_ranges(&contexts(25));
    assert_eq!(ranges, vec![0..10, 10..20, 20..25]);
    assert!(model_batch_ranges(&[]).is_empty());
}

#[test]
fn a_file_that_is_too_big_stands_alone() {
    let mut contexts = contexts(3);
    contexts[1].path = "a".repeat(MAX_BATCH_CONTEXT_BYTES);
    assert_eq!(model_batch_ranges(&contexts), vec![0..1, 1..2, 2..3]);
    assert!(!can_fit_model_budget(&contexts[1]));
    assert!(can_fit_model_budget(&contexts[0]));
}

#[test]
fn what_fits_is_not_cut() {
    let mut context = contexts(1).remove(0);
    let before = write_context(&context);
    fit_context_into_model_budget(&mut context);
    assert_eq!(write_context(&context), before);
}

#[test]
fn text_is_shortened_by_characters() {
    assert_eq!(shorten_text("привет", 3), "при");
    assert_eq!(shorten_text("при", 10), "при");
    assert_eq!(shorten_text("😀😀", 1), "😀");
}

#[test]
fn contexts_are_written_as_json() {
    let mut context = contexts(1).remove(0);
    context.path = "a\"b\\c\n\u{1}/д.txt".into();
    context.created_at = Some("2026-08-01T00:00:00+00:00".into());
    let text = write_context(&context);
    assert_eq!(
        text,
        "{\"id\":\"file-0\",\"path\":\"a\\\"b\\\\c\\n\\u0001/д.txt\",\"extension\":\"txt\",\"sizeBytes\":10,\"createdAt\":\"2026-08-01T00:00:00+00:00\",\"modifiedAt\":null,\"suggestedCategory\":\"Личное\",\"contentExtract\":\"текст\",\"contentStatus\":\"прочитан\"}"
    );
    assert_eq!(text.len(), model_context_bytes(&context));
    let value: serde_json::Value = serde_json::from_str(&text).unwrap();
    assert_eq!(
        value.pointer("/path").and_then(|path| path.as_str()),
        Some("a\"b\\c\n\u{1}/д.txt")
    );
    let list = write_contexts(&[context.clone(), context]);
    let parsed: serde_json::Value = serde_json::from_str(&list).unwrap();
    assert_eq!(parsed.as_array().map(Vec::len), Some(2));
    assert_eq!(write_contexts(&[]), "[]");
}

#[test]
fn every_character_is_quoted_as_json_has_it() {
    for code in 0..=0x2ff_u32 {
        let text = char::from_u32(code).unwrap().to_string();
        assert_eq!(quote(&text), serde_json::to_string(&text).unwrap());
    }
    assert_eq!(quote("😀\u{2028}"), serde_json::to_string("😀\u{2028}").unwrap());
}

#[test]
fn every_file_is_in_one_batch() {
    let mut contexts = contexts(37);
    for (index, context) in contexts.iter_mut().enumerate() {
        context.content_extract = Some("a".repeat(index * 60));
    }
    let ranges = model_batch_ranges(&contexts);
    let covered: Vec<usize> = ranges.iter().cloned().flatten().collect();
    assert_eq!(covered, (0..37).collect::<Vec<usize>>());
    for pair in ranges.windows(2) {
        let more = &contexts[pair[0].start..pair[0].end + 1];
        assert!(
            more.len() > AI_BATCH_SIZE || model_batch_context_bytes(more) > MAX_BATCH_CONTEXT_BYTES
        );
    }
}
