use file_sorter::categories::{classify, restricted_category, unsupported_warning};
use file_sorter::names::{
    is_windows_reserved_name, normalized_path_key, planned_target, safe_destination, safe_name,
    safe_recorded_destination, windows_compatible_component,
};
use file_sorter::paths::{
    components, extension, file_name_of, is_absolute_path, is_inside, is_same_path, joined, parent_of, renamed, stem,
    Component, Prefix, Style,
};
use file_sorter::previews::{plan_preview, preview_of_bytes, preview_of_text, PreviewPlan};
use file_sorter::records::{AiStatus, Confidence, SortSettings};
use file_sorter::refinement::{AiRefinement, AiSummary};
use file_sorter::scan::{
    conclude, file_extension, scan_entry, scan_log_event, scan_progress, skip_file, skip_name,
    FileFacts, FileFate, Scan,
};
use file_sorter::text::{char_is_control, char_is_space, decimal_of};

fn test_sort() -> SortSettings {
    SortSettings {
        mode: "standard".into(),
        custom_prompt: "".into(),
        text_limit: 1,
        total_limit: 1,
        unlimited: false,
    }
}

fn facts(relative: &str, extension: &str) -> FileFacts {
    FileFacts {
        source: format!("/tmp/root/{relative}"),
        relative_path: relative.into(),
        file_name: relative.rsplit('/').next().map(str::to_owned),
        extension: Some(extension.into()),
        size_bytes: 5,
        created_at: None,
        modified_at: Some("2026-08-01T10:00:00+03:00".into()),
    }
}

#[test]
fn target_rejects_escape() {
    assert!(safe_destination(Style::Unix, "/tmp/root", "../out").is_err());
    assert!(safe_recorded_destination(Style::Unix, "/tmp/root", "/tmp/outside/file.txt").is_err());
}

#[test]
fn names_are_sanitized() {
    assert_eq!(safe_name("A/B: C"), "A_B_ C");
    assert_eq!(safe_name("CON"), "_CON");
    assert_eq!(safe_name("nul.txt"), "_nul.txt");
    assert_eq!(safe_name("Категория.   "), "Категория");
    assert_eq!(safe_name(".."), "Прочее");
    assert!(safe_name(&"a".repeat(200)).chars().count() <= 80);
}

#[test]
fn windows_incompatible_target_components_are_rejected() {
    let root = "/tmp/root";
    assert!(safe_destination(Style::Unix, root, "AI Sorted/CON/file.txt").is_err());
    assert!(safe_destination(Style::Unix, root, "AI Sorted/Работа./file.txt").is_err());
    assert!(safe_destination(Style::Unix, root, "AI Sorted/Работа/file?.txt").is_err());
}

#[test]
fn model_categories_cannot_create_new_top_level_folders() {
    assert_eq!(restricted_category("Business", "Личное"), "Работа");
    assert_eq!(restricted_category("Adello Visuals", "Личное"), "Личное");
    assert_eq!(
        restricted_category("unknown", "Кастомная категория"),
        "Прочее"
    );
}

#[test]
fn planned_target_uses_only_category_and_filename() {
    assert_eq!(
        planned_target(Style::Unix, "Работа", "old/nested/report:final.pdf"),
        "AI Sorted/Работа/report_final.pdf"
    );
}

#[test]
fn standard_categories_work() {
    assert_eq!(
        classify("tax_invoice.pdf", "pdf", &test_sort()).0,
        "Финансы"
    );
}

#[test]
fn installers_go_to_downloaders() {
    let sort = test_sort();
    assert_eq!(classify("Discord.dmg", "dmg", &sort).0, "Загрузчики");
    assert_eq!(
        classify("coconut_latest.zip", "zip", &sort).0,
        "Загрузчики"
    );
}

#[test]
fn scan_excludes_sorted_and_app_directories() {
    let entries = [
        (0, "root", true, true),
        (1, "AI Sorted", true, false),
        (1, "ai sorted", true, false),
        (1, "Example.app", true, false),
        (1, "$RECYCLE.BIN", true, false),
        (1, "System Volume Information", true, false),
        (1, "keep", true, true),
        (1, "Example.app", false, true),
        (0, "Example.app", true, true),
    ];
    for (depth, name, is_folder, expected) in entries {
        assert_eq!(scan_entry(depth, name, is_folder), expected, "{name}");
    }
    let files: Vec<&str> = [
        "root/keep.txt",
        "root/Thumbs.db",
        "root/desktop.ini",
        "root/.ai-file-sorter-last-operation.json",
        "root/.ai-file-sorter-last-operation.test.bak",
        "root/.DS_Store",
        "root/.localized",
    ]
    .into_iter()
    .filter(|path| !skip_file(Style::Unix, path))
    .collect();
    assert_eq!(files, vec!["root/keep.txt"]);
    assert!(!skip_file(Style::Unix, "/"));
    assert!(skip_name("THUMBS.DB"));
}

#[test]
fn text_preview_respects_character_limit_without_reading_the_whole_file() {
    let content = "😀😀😀😀😀секретный хвост".as_bytes();
    let limit = 5;
    let bytes = match plan_preview("txt", limit) {
        PreviewPlan::Read(count) => &content[..content.len().min(count as usize)],
        PreviewPlan::Done(_) => panic!("text is read"),
    };
    assert!(bytes.len() < content.len());
    let preview = preview_of_bytes(Some(bytes), limit);
    assert_eq!(preview.extract.as_deref(), Some("😀😀😀😀😀"));
    assert!(preview.status.contains("фрагмент"));
}

#[test]
fn unlimited_mode_uses_the_custom_per_file_text_limit() {
    let sort = SortSettings {
        mode: "standard".into(),
        custom_prompt: String::new(),
        text_limit: 1_200,
        total_limit: usize::MAX,
        unlimited: true,
    };
    let mut scan = Scan::begin(Style::Unix, &sort);
    let limit = scan.next_text_limit(&sort);
    let content = "a".repeat(5_000);
    let bytes = match plan_preview("txt", limit) {
        PreviewPlan::Read(count) => &content.as_bytes()[..content.len().min(count as usize)],
        PreviewPlan::Done(_) => panic!("text is read"),
    };
    let preview = preview_of_bytes(Some(bytes), limit);
    assert_eq!(scan.add_file(&sort, &facts("large.txt", "txt"), &preview), FileFate::Added);
    scan.finish(&sort);
    assert_eq!(scan.contexts.len(), 1);
    assert!(scan.contexts[0]
        .content_extract
        .as_ref()
        .is_some_and(|text| text.chars().count() == 1_200));
    assert!(scan
        .warnings
        .iter()
        .any(|warning| warning.contains("Без общего лимита")));
}

#[test]
fn a_file_becomes_an_item_and_a_context() {
    let sort = test_sort();
    let mut scan = Scan::begin(Style::Unix, &sort);
    let preview = preview_of_text("текст", 1);
    assert_eq!(scan.add_file(&sort, &facts("папка/Bank Счёт.MP3", "MP3"), &preview), FileFate::Added);
    scan.add_file_as(&sort, &facts("b.dmg", "dmg"), "dmg", &preview, "second");
    let item = &scan.items[0];
    let context = &scan.contexts[0];
    assert_eq!(item.id, context.id);
    assert_eq!(item.id.len(), 36);
    assert_eq!(item.id.as_bytes()[14], b'4');
    assert_eq!(item.category, "Финансы");
    assert_eq!(item.target, "AI Sorted/Финансы/Bank Счёт.MP3");
    assert_eq!(item.source, "/tmp/root/папка/Bank Счёт.MP3");
    assert_eq!(item.ai_status, AiStatus::RetryPending);
    assert!(item.included);
    assert!(item.warning.is_some());
    assert_eq!(context.extension, "mp3");
    assert_eq!(context.suggested_category, "Финансы");
    assert_eq!(context.content_extract.as_deref(), Some("т"));
    assert_eq!(context.modified_at.as_deref(), Some("2026-08-01T10:00:00+03:00"));
    assert_eq!(scan.items[1].id, "second");
    assert_eq!(scan.items[1].category, "Загрузчики");
    assert_eq!(scan.total_chars, 2);
    assert_ne!(scan.items[0].id, scan.items[1].id);
}

#[test]
fn a_file_whose_name_is_no_text_gets_one() {
    let sort = test_sort();
    let mut scan = Scan::begin(Style::Unix, &sort);
    let mut unnamed = facts("a\u{fffd}.txt", "txt");
    unnamed.file_name = None;
    assert_eq!(scan.add_file(&sort, &unnamed, &preview_of_text("", 1)), FileFate::Added);
    assert_eq!(scan.items[0].target, "AI Sorted/Личное/файл");
    assert_eq!(scan.items[0].relative_path, "a\u{fffd}.txt");
}

#[test]
fn a_file_without_room_for_its_text_is_not_added() {
    let sort = test_sort();
    let mut scan = Scan::begin(Style::Unix, &sort);
    let preview = preview_of_text("текст", 5);
    let long = "a".repeat(9_000);
    assert_eq!(scan.add_file(&sort, &facts(&long, "txt"), &preview), FileFate::NoRoom);
    assert!(scan.items.is_empty());
    assert!(scan.contexts.is_empty());
}

#[test]
fn a_file_that_is_left_out_changes_nothing() {
    let sort = test_sort();
    let mut scan = Scan::begin(Style::Unix, &sort);
    let preview = preview_of_text("текст", 1);
    for relative in [
        "a/Thumbs.db",
        ".DS_Store",
        ".ai-file-sorter-last-operation.json",
        "b/.ai-file-sorter-probe",
    ] {
        assert_eq!(scan.add_file(&sort, &facts(relative, ""), &preview), FileFate::Skipped);
        assert!(skip_file(Style::Unix, relative));
    }
    assert!(scan.items.is_empty());
    assert!(scan.contexts.is_empty());
    assert_eq!(scan.total_chars, 0);
    assert_eq!(scan.add_file(&sort, &facts("keep.txt", "txt"), &preview), FileFate::Added);
    assert_eq!(scan.items.len(), 1);
    assert!(scan.items.iter().all(|item| !skip_file(Style::Unix, &item.relative_path)));
}

#[test]
fn text_is_used_up_file_by_file() {
    let mut sort = test_sort();
    sort.text_limit = 4;
    sort.total_limit = 6;
    let mut scan = Scan::begin(Style::Unix, &sort);
    assert_eq!(scan.next_text_limit(&sort), 4);
    let first = preview_of_text("abcdef", 4);
    assert_eq!(scan.add_file(&sort, &facts("1.txt", "txt"), &first), FileFate::Added);
    assert_eq!(scan.next_text_limit(&sort), 2);
    let second = preview_of_text("abcdef", 2);
    assert_eq!(scan.add_file(&sort, &facts("2.txt", "txt"), &second), FileFate::Added);
    assert_eq!(scan.next_text_limit(&sort), 0);
    assert_eq!(scan.total_chars, 6);
    match plan_preview("txt", 0) {
        PreviewPlan::Done(preview) => {
            assert!(preview.extract.is_none());
            assert_eq!(
                preview.status,
                "Достигнут общий лимит текста; использованы метаданные файла."
            );
        }
        PreviewPlan::Read(_) => panic!("nothing is read"),
    }
    let refinement = AiRefinement {
        summary: AiSummary {
            ai_processed: 2,
            retry_succeeded: 0,
            ai_unprocessed: 0,
        },
        warnings: vec!["из прохода".into()],
    };
    let total = scan.total_chars;
    let result = conclude(&sort, scan.items, total, scan.warnings, &refinement);
    assert_eq!(result.total_files, 2);
    assert_eq!(result.estimated_chars, 6);
    assert_eq!(result.summary, refinement.summary);
    assert_eq!(
        result.warnings,
        vec![
            "из прохода",
            "Достигнут общий лимит текста. Часть файлов будет оценена по имени и метаданным.",
        ]
    );
}

#[test]
fn a_scan_warns_of_what_it_did() {
    let sort = SortSettings {
        mode: "custom".into(),
        custom_prompt: " ".repeat(601),
        text_limit: 1,
        total_limit: 1,
        unlimited: false,
    };
    let mut scan = Scan::begin(Style::Unix, &sort);
    scan.note_inaccessible();
    scan.note_inaccessible();
    scan.finish(&sort);
    assert_eq!(
        scan.warnings,
        vec![
            "Для устойчивости в ИИ передаются только первые 600 символов пользовательской инструкции.",
            "Кастомный режим без инструкции использовал стандартные категории.",
            "Нет доступа к 2 объектам; их имена и пути скрыты.",
        ]
    );
    let event = scan_log_event(&scan, 12);
    assert_eq!(event.phase, "scanning");
    assert_eq!(event.skipped_files, 2);
    assert_eq!(event.duration_ms, 12);
    assert_eq!(event.file_count, 0);
    assert_eq!(scan_progress().message, "Сканирование файлов…");
}

#[test]
fn previews_say_what_was_read() {
    let empty = preview_of_bytes(Some(b""), 10);
    assert!(empty.extract.is_none());
    assert_eq!(
        empty.status,
        "Текстовый файл пуст; использованы метаданные файла."
    );
    let failed = preview_of_bytes(None, 10);
    assert_eq!(
        failed.status,
        "Не удалось прочитать содержимое; использованы метаданные файла."
    );
    let broken = preview_of_bytes(Some(b"a\xffb"), 10);
    assert_eq!(broken.extract.as_deref(), Some("a\u{fffd}b"));
    let cut = preview_of_bytes(Some(&"яя".as_bytes()[..3]), 1);
    assert_eq!(cut.extract.as_deref(), Some("я"));
    match plan_preview("pdf", 10) {
        PreviewPlan::Done(preview) => assert_eq!(
            preview.status,
            "Содержимое этого формата не извлекается; использованы метаданные файла."
        ),
        PreviewPlan::Read(_) => panic!("nothing is read"),
    }
    assert!(matches!(plan_preview("md", 10), PreviewPlan::Read(44)));
    assert!(matches!(plan_preview("md", usize::MAX), PreviewPlan::Read(u64::MAX)));
    assert!(matches!(plan_preview("md", usize::MAX - 1), PreviewPlan::Read(count) if count == usize::MAX as u64));
}

#[test]
fn extensions_are_lowered() {
    assert_eq!(file_extension(&Some("ТХТ".into())), "тхт");
    assert_eq!(file_extension(&Some("TXT".into())), "txt");
    assert_eq!(file_extension(&None), "");
    assert!(unsupported_warning("mov").is_some());
    assert!(unsupported_warning("txt").is_none());
}

#[test]
fn categories_come_from_names_and_answers() {
    let sort = test_sort();
    let (category, confidence, _) = classify("Discord.DMG", "dmg", &sort);
    assert_eq!(category, "Загрузчики");
    assert_eq!(confidence, Confidence { bits: 0.95f32.to_bits() });
    assert_eq!(
        classify("other.bin", "bin", &sort).1,
        Confidence { bits: 0.45f32.to_bits() }
    );
    let (category, confidence, explanation) = classify("Фото.zip", "zip", &sort);
    assert_eq!(category, "Архив");
    assert_eq!(confidence, Confidence { bits: 0.72f32.to_bits() });
    assert_eq!(
        explanation,
        "Предварительная локальная оценка по имени, расширению и дате."
    );
    assert_eq!(restricted_category(" PHOTO album ", "Личное"), "Медиа");
    assert_eq!(restricted_category("ФИНАНСЫ", "Личное"), "Финансы");
}

#[test]
fn windows_names_are_known() {
    for name in ["con", "PRN", "aux.txt", "NUL", "com1", "LPT9.log"] {
        assert!(is_windows_reserved_name(name), "{name}");
    }
    for name in ["com0", "console", "lpt10", "file"] {
        assert!(!is_windows_reserved_name(name), "{name}");
    }
    for name in ["a:b", "a ", "a.", "", "con", "a\u{1}"] {
        assert!(!windows_compatible_component(name), "{name:?}");
    }
    assert!(windows_compatible_component("отчёт 1.txt"));
}

#[test]
fn destinations_are_inside_the_root() {
    assert_eq!(
        safe_destination(Style::Unix, "/tmp/root", "AI Sorted/Работа/a.txt").unwrap(),
        "/tmp/root/AI Sorted/Работа/a.txt"
    );
    assert_eq!(
        safe_destination(Style::Unix, "/tmp/root", "/etc/passwd").unwrap_err(),
        "Недопустимый целевой путь"
    );
    assert_eq!(
        safe_destination(Style::Unix, "/tmp/root", "./a").unwrap_err(),
        "Недопустимый целевой путь"
    );
    assert_eq!(
        safe_destination(Style::Unix, "/tmp/root", "a/con").unwrap_err(),
        "Имя папки или файла несовместимо с Windows"
    );
    assert_eq!(
        safe_recorded_destination(Style::Unix, "/tmp/root", "/tmp/root/a/b.txt").unwrap(),
        "/tmp/root/a/b.txt"
    );
    assert_eq!(
        safe_recorded_destination(Style::Unix, "/tmp/root", "/tmp/root/../b.txt").unwrap_err(),
        "Путь выходит за пределы выбранной папки"
    );
    assert_eq!(
        safe_recorded_destination(Style::Unix, "/tmp/root", "a/b.txt").unwrap(),
        "/tmp/root/a/b.txt"
    );
    assert_eq!(normalized_path_key("C:\\Ä\\b"), "c:/ä/b");
}

#[test]
fn paths_are_read_as_the_system_reads_them() {
    let style = if std::path::MAIN_SEPARATOR == '/' {
        Style::Unix
    } else {
        Style::Windows
    };
    let list = [
        "", "/", "a", "a/", "/a", "a/b", "./a", "a/./b", "../a", "a/..", "a//b", "/a/b/", ".", "..",
        "a/.b", "a.b.c", ".a", "a.", "/..", "/.", "//a", "a/b.txt", "папка/файл.тхт", "./", "././a",
    ];
    for text in list {
        let path = std::path::Path::new(text);
        let expected: Vec<String> = path
            .components()
            .map(|part| match part {
                std::path::Component::Normal(name) => name.to_str().unwrap().to_owned(),
                std::path::Component::RootDir => "<root>".to_owned(),
                std::path::Component::CurDir => "<here>".to_owned(),
                std::path::Component::ParentDir => "<up>".to_owned(),
                std::path::Component::Prefix(_) => "<prefix>".to_owned(),
            })
            .collect();
        let found: Vec<String> = components(style, text)
            .into_iter()
            .map(|part| match part {
                Component::Prefix(_) => "<prefix>".to_owned(),
                Component::Normal(name) => name,
                Component::RootDir => "<root>".to_owned(),
                Component::CurDir => "<here>".to_owned(),
                Component::ParentDir => "<up>".to_owned(),
            })
            .collect();
        assert_eq!(found, expected, "{text}");
        assert_eq!(is_absolute_path(style, text), path.is_absolute(), "{text}");
        let name = path.file_name().and_then(|name| name.to_str());
        assert_eq!(file_name_of(style, text).as_deref(), name, "{text}");
        if let Some(name) = name {
            assert_eq!(stem(name), path.file_stem().unwrap().to_str().unwrap());
            assert_eq!(
                extension(name).as_deref(),
                path.extension().and_then(|found| found.to_str())
            );
        }
        assert_eq!(
            parent_of(style, text).as_deref(),
            path.parent().and_then(|parent| parent.to_str()),
            "{text}"
        );
        assert_eq!(
            renamed(style, text, "n (2).x"),
            path.with_file_name("n (2).x").to_str().unwrap(),
            "{text}"
        );
        for other in list {
            let second = std::path::Path::new(other);
            assert_eq!(
                joined(style, text, other),
                path.join(other).to_str().unwrap(),
                "{text} {other}"
            );
            assert_eq!(is_inside(style, text, other), path.starts_with(second), "{text} {other}");
            assert_eq!(is_same_path(style, text, other), path == second, "{text} {other}");
        }
    }
}

fn shown(style: Style, path: &str) -> Vec<String> {
    components(style, path)
        .into_iter()
        .map(|part| match part {
            Component::Prefix(Prefix::Disk(letter)) => format!("<{letter}>"),
            Component::Prefix(Prefix::VerbatimDisk(letter)) => format!("<?{letter}>"),
            Component::Prefix(Prefix::Unc(server, share)) => format!("<{server}+{share}>"),
            Component::Prefix(Prefix::VerbatimUnc(server, share)) => {
                format!("<?{server}+{share}>")
            }
            Component::Prefix(Prefix::Verbatim(name)) => format!("<?{name}?>"),
            Component::Prefix(Prefix::Device(name)) => format!("<.{name}.>"),
            Component::RootDir => "<root>".to_owned(),
            Component::CurDir => "<here>".to_owned(),
            Component::ParentDir => "<up>".to_owned(),
            Component::Normal(name) => name,
        })
        .collect()
}

#[test]
fn windows_absolute_history_paths_stay_inside_root() {
    let root = r"C:\Selected";
    assert_eq!(
        safe_recorded_destination(Style::Windows, root, r"C:\Selected\incoming\file.txt").unwrap(),
        r"C:\Selected\incoming\file.txt"
    );
    assert!(safe_recorded_destination(Style::Windows, root, r"D:\outside\file.txt").is_err());
}

#[test]
fn windows_paths_are_read_by_their_own_rules() {
    let cases: [(&str, &[&str]); 24] = [
        (r"C:\Selected\a.txt", &["<C>", "<root>", "Selected", "a.txt"]),
        (r"c:/Selected/./a.txt", &["<C>", "<root>", "Selected", "a.txt"]),
        (r"C:a\b", &["<C>", "a", "b"]),
        (r"C:.\a", &["<C>", "a"]),
        (r"C:", &["<C>"]),
        (r"\a\..\b", &["<root>", "a", "<up>", "b"]),
        (r".\a/b", &["<here>", "a", "b"]),
        (r"a\b", &["a", "b"]),
        (r"\\server\share\a", &["<server+share>", "<root>", "a"]),
        (r"//server/share", &["<server+share>", "<root>"]),
        (r"\\server", &["<root>", "server"]),
        (r"\\.\COM4\a", &["<.COM4.>", "<root>", "a"]),
        (r"\\?\C:\a\.\b/c", &["<?C>", "<root>", "a", "<here>", "b/c"]),
        (r"\\?\c:", &["<?C>"]),
        (r"\\?\C:/a/b", &["<?C>", "<root>", "a/b"]),
        (r"\\?\C:/a\b", &["<?C>", "<root>", "a", "b"]),
        (r"\\?\C:/", &["<?C>", "<root>"]),
        (r"\\?\C:/..", &["<?C>", "<root>", "<up>"]),
        (r"\\?\UNC\server\share\a", &["<?server+share>", "<root>", "a"]),
        (r"\\?\pictures\a", &["<?pictures?>", "<root>", "a"]),
        (r"\\?\C:x\a", &["<?C:x?>", "<root>", "a"]),
        (r"//?/C:/a", &["<?+C:>", "<root>", "a"]),
        (r"ab:\c", &["ab:", "c"]),
        (r"", &[]),
    ];
    for (path, expected) in cases {
        assert_eq!(shown(Style::Windows, path), expected, "{path}");
    }
    for path in [r"C:\a", r"\\server\share", r"\\?\C:", r"\\.\NUL"] {
        assert!(is_absolute_path(Style::Windows, path), "{path}");
    }
    for path in [r"C:a", r"\a", r"a\b", r"/a", ""] {
        assert!(!is_absolute_path(Style::Windows, path), "{path}");
    }
}

#[test]
fn windows_paths_are_put_together_by_their_own_rules() {
    let cases = [
        (r"C:\a", "b", r"C:\a\b"),
        (r"C:\a\", "b", r"C:\a\b"),
        (r"C:/a/", "b", r"C:/a/b"),
        (r"C:", "b", r"C:b"),
        (r"C:\a", r"\b", r"C:\b"),
        (r"C:\a", r"D:b", r"D:b"),
        (r"C:\a", r"\\s\h\b", r"\\s\h\b"),
        (r"\\s\h", "b", r"\\s\h\b"),
        (r"\\?\C:\a", "b/c", r"\\?\C:\a\b\c"),
        (r"\\?\C:\a", r"..\b\.\c", r"\\?\C:\b\c"),
        (r"\\?\C:\a", r"\b", r"\\?\C:\b"),
        (r"\\?\C:\a", "", r"\\?\C:\a\"),
        (r"\\?\C:/", "a", r"\\?\C:\a"),
        (r"\\?\C:/a", "b", r"\\?\C:\a\b"),
        (r"\\?\C:/", "", r"\\?\C:/"),
        (r"\\?\UNC\s\h", "b", r"\\?\UNC\s\h\b"),
        ("", "b", "b"),
        ("a", "b", r"a\b"),
    ];
    for (base, relative, expected) in cases {
        assert_eq!(joined(Style::Windows, base, relative), expected, "{base} {relative}");
    }
    let parents = [
        (r"C:\a\b", Some(r"C:\a")),
        (r"C:\a", Some(r"C:\")),
        (r"C:\", None),
        (r"C:a", Some(r"C:")),
        (r"C:", None),
        (r"\\s\h\a", Some(r"\\s\h\")),
        (r"\\?\C:\a", Some(r"\\?\C:\")),
        (r"\\?\C:/a", Some(r"\\?\C:/")),
        (r"\\?\C:/a/b", Some(r"\\?\C:/")),
        (r"\\?\C:/a\b", Some(r"\\?\C:/a")),
        (r"\\?\C:/", None),
        (r"a\b/", Some("a")),
        ("a", Some("")),
        (".", Some("")),
    ];
    for (path, expected) in parents {
        assert_eq!(parent_of(Style::Windows, path).as_deref(), expected, "{path}");
    }
    assert_eq!(renamed(Style::Windows, r"C:\a\b.txt", "c"), r"C:\a\c");
    assert!(is_inside(Style::Windows, r"c:\a\b", r"C:\a\"));
    assert!(!is_inside(Style::Windows, r"\\?\C:\a\b", r"C:\a"));
    assert!(!is_inside(Style::Windows, r"C:\ab", r"C:\a"));
    assert!(is_same_path(Style::Windows, r"C:/a/b", r"c:\a\.\b"));
    assert!(is_same_path(Style::Windows, r"\\?\C:/a", r"\\?\c:\a"));
    assert!(is_inside(Style::Windows, r"\\?\C:/a", r"\\?\C:\"));
    assert!(!is_inside(Style::Windows, r"\\?\C:/a/b", r"\\?\C:\a"));
}

#[test]
fn windows_roots_behind_a_verbatim_drive_take_either_separator() {
    assert_eq!(
        safe_recorded_destination(Style::Windows, r"\\?\C:\", r"\\?\C:/foo").unwrap(),
        r"\\?\C:/foo"
    );
    assert_eq!(
        safe_recorded_destination(Style::Windows, r"\\?\C:", r"\\?\C:/..").unwrap_err(),
        "Путь выходит за пределы выбранной папки"
    );
    assert_eq!(
        safe_destination(Style::Windows, r"\\?\C:/", "a").unwrap(),
        r"\\?\C:\a"
    );
    assert_eq!(file_name_of(Style::Windows, r"\\?\C:/foo").as_deref(), Some("foo"));
    assert_eq!(renamed(Style::Windows, r"\\?\C:/foo", "bar"), r"\\?\C:\bar");
}

#[test]
fn windows_targets_and_destinations_use_their_own_separator() {
    assert_eq!(
        planned_target(Style::Windows, "Работа", r"sub\file.txt"),
        r"AI Sorted\Работа\file.txt"
    );
    assert_eq!(
        safe_destination(Style::Windows, r"\\?\C:\Selected", r"AI Sorted\Работа/file.txt").unwrap(),
        r"\\?\C:\Selected\AI Sorted\Работа\file.txt"
    );
    for target in [r"..\out", r"C:\out", r"C:out", r"\out", r".\out"] {
        assert_eq!(
            safe_destination(Style::Windows, r"C:\Selected", target).unwrap_err(),
            "Недопустимый целевой путь",
            "{target}"
        );
    }
    assert_eq!(
        safe_destination(Style::Windows, r"\\server", "share").unwrap_err(),
        "Путь выходит за пределы выбранной папки"
    );
    assert_eq!(
        safe_recorded_destination(Style::Windows, r"C:\Selected", r"C:\Selected\..\b").unwrap_err(),
        "Путь выходит за пределы выбранной папки"
    );
    assert!(skip_file(Style::Windows, r"C:\a\Thumbs.db"));
    let sort = test_sort();
    let mut scan = Scan::begin(Style::Windows, &sort);
    assert_eq!(scan.add_file(&sort, &facts("b.txt", "txt"), &preview_of_text("", 1)), FileFate::Added);
    assert_eq!(scan.items[0].target, r"AI Sorted\Личное\b.txt");
}

#[test]
fn names_that_may_stand_are_kept() {
    for name in ["отчёт 1.txt", "a.b", "_CON", ".hidden"] {
        assert_eq!(safe_name(name), name);
    }
}

#[test]
fn categories_given_back_stay() {
    for category in [
        "Работа", "Личное", "Финансы", "Учёба", "Медиа", "Архив", "Загрузчики", "Прочее",
    ] {
        assert_eq!(restricted_category(category, category), category);
    }
}

#[test]
fn characters_are_told_apart_as_the_library_does() {
    for code in 0..=0x10ffff_u32 {
        if let Some(c) = char::from_u32(code) {
            assert_eq!(char_is_space(c), c.is_whitespace(), "{code:x}");
            assert_eq!(char_is_control(c), c.is_control(), "{code:x}");
        }
    }
    for number in [0u64, 7, 10, 99, 100, 12345, u64::MAX] {
        assert_eq!(decimal_of(number), number.to_string());
    }
}
