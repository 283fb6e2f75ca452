use file_sorter::addresses::is_loopback_host;
use file_sorter::decisions::clamp_confidence;
use file_sorter::diagnostics::{anonymized_error, model_http_error, refusal_text};
use file_sorter::endpoints::{
    bearer_token, chat_completions_url, check_analysis_settings, is_loopback_endpoint,
    list_models_failure, list_models_request, list_models_url, list_not_json, no_client,
    test_connection_failure, test_connection_request, test_connection_url, ServiceFailure,
};
use file_sorter::models::{list_models, lm_studio_models, named_models, ModelEntry};
use file_sorter::records::{AiFileContext, AiSettings, Confidence, SortSettings};
use file_sorter::replies::{
    invalid_reply, read_confidence, reply_in, spoken_confidence, unfenced_reply, SpokenConfidence,
};
use file_sorter::requests::{
    answer_not_json, bounded_custom_prompt, chat_request, model_instruction, request_failure,
    timeout_failure, MAX_CUSTOM_PROMPT_CHARS,
};

fn settings(provider: &str, base_url: &str) -> AiSettings {
    AiSettings {
        provider: provider.into(),
        base_url: base_url.into(),
        model: "test".into(),
        api_key: String::new(),
        cloud_consent: false,
    }
}

fn json(text: &str) -> serde_json::Value {
    serde_json::from_str(text).unwrap()
}

fn sort(mode: &str, prompt: &str) -> SortSettings {
    SortSettings {
        mode: mode.into(),
        custom_prompt: prompt.into(),
        text_limit: 1,
        total_limit: 1,
        unlimited: false,
    }
}

fn context(text: &str) -> AiFileContext {
    AiFileContext {
        id: "file-0".into(),
        path: "a.txt".into(),
        extension: "txt".into(),
        size_bytes: 10,
        created_at: None,
        modified_at: None,
        suggested_category: "Личное".into(),
        content_extract: Some(text.into()),
        content_status: "прочитан".into(),
    }
}

#[test]
fn invalid_json_has_a_clear_technical_error() {
    let value = json(r#"{"choices":[{"message":{"content":"not json"}}]}"#);
    let reply = reply_in(&value).unwrap();
    let error = serde_json::from_str::<Vec<serde_json::Value>>(&reply).unwrap_err();
    assert!(invalid_reply(&error.to_string()).contains("невалидный JSON"));
}

#[test]
fn string_confidence_does_not_discard_a_valid_model_decision() {
    let value = json(
        r#"{"choices": [{"message": {"content": "[{\"id\":\"file-1\",\"category\":\"Работа\",\"confidence\":\"high\"}]"}}]}"#,
    );
    let reply = reply_in(&value).unwrap();
    let decisions = serde_json::from_str::<Vec<serde_json::Value>>(&reply).unwrap();
    assert_eq!(decisions.len(), 1);
    let confidence = decisions[0].pointer("/confidence").unwrap();
    assert_eq!(
        read_confidence(confidence.as_str().unwrap()),
        SpokenConfidence::Grade(Confidence {
            bits: 0.75f32.to_bits()
        })
    );
}

#[test]
fn diagnostic_errors_hide_urls_and_local_paths() {
    let (_, url_detail) = anonymized_error(
        "Модель вернула ошибку HTTP: 400 Bad Request for url (http://127.0.0.1:1234/v1/chat/completions)",
    );
    assert!(url_detail.contains("400 Bad Request"));
    assert!(!url_detail.contains("http://"));

    let (_, path_detail) =
        anonymized_error("Ошибка запроса к модели: /Users/private/Documents/secret-file.txt");
    assert_eq!(path_detail, "Сетевая ошибка запроса к модели");
    assert!(!path_detail.contains("secret-file"));
}

#[test]
fn context_error_is_useful_without_exposing_server_response() {
    let error = model_http_error(
        400,
        r#"{"error":{"message":"context length 12000 exceeds 4096 for /Users/private/secret.txt"}}"#,
    );
    assert!(error.contains("превышает доступный контекст"));
    assert!(!error.contains("secret.txt"));
    assert!(!error.contains("/Users/"));
}

#[test]
fn ollama_uses_its_openai_compatible_chat_endpoint() {
    let ai = AiSettings {
        provider: "ollama".into(),
        base_url: "http://127.0.0.1:11434".into(),
        model: "test".into(),
        api_key: String::new(),
        cloud_consent: false,
    };
    assert_eq!(
        chat_completions_url(&ai),
        "http://127.0.0.1:11434/v1/chat/completions"
    );
    assert_eq!(test_connection_url(&ai), "http://127.0.0.1:11434/api/tags");
}

#[test]
fn only_real_loopback_hosts_bypass_cloud_consent() {
    assert!(is_loopback_endpoint("http://localhost:1234/v1"));
    assert!(is_loopback_endpoint("http://127.0.0.1:11434"));
    assert!(is_loopback_endpoint("http://127.12.34.56:11434"));
    assert!(is_loopback_endpoint("http://[::1]:1234/v1"));
    assert!(!is_loopback_endpoint("https://example.com/?next=localhost"));
    assert!(!is_loopback_endpoint("https://localhost.example.com/v1"));
    assert!(!is_loopback_endpoint("not a URL containing localhost"));
}

#[test]
fn custom_instruction_has_a_hard_character_limit() {
    let prompt = "я".repeat(MAX_CUSTOM_PROMPT_CHARS + 1);
    let bounded = bounded_custom_prompt(&prompt);
    assert_eq!(bounded.chars().count(), MAX_CUSTOM_PROMPT_CHARS);
}

#[test]
fn each_kind_of_error_is_told_apart() {
    let kinds = [
        ("Тайм-аут пакета", "timeout"),
        ("operation timed out", "timeout"),
        ("Модель вернула невалидный JSON: x", "invalid_json"),
        ("Ответ API не является JSON: x", "invalid_json"),
        ("Модель вернула HTTP 500", "http"),
        ("нет choices[0].message.content", "response_shape"),
        ("error sending request", "network"),
        ("что-то другое", "unknown"),
    ];
    for (error, kind) in kinds {
        assert_eq!(anonymized_error(error).0, kind, "{error}");
    }
    assert_eq!(
        anonymized_error("C:\\Users\\x\\y.txt").1,
        "Неизвестная техническая ошибка модели"
    );
    assert_eq!(anonymized_error("  сбой: (  ").1, "сбой");
    assert_eq!(anonymized_error(&"я".repeat(300)).1.chars().count(), 238);
    assert_eq!(anonymized_error(&"я".repeat(240)).1.chars().count(), 240);
}

#[test]
fn a_refusal_says_its_status_and_reason() {
    assert_eq!(
        model_http_error(404, "MODEL NOT FOUND: x"),
        "Модель вернула HTTP 404 Not Found: выбранная модель не найдена или не загружена."
    );
    assert_eq!(
        model_http_error(401, "Unauthorized"),
        "Модель вернула HTTP 401 Unauthorized: API отклонил авторизацию."
    );
    assert_eq!(
        model_http_error(413, "Payload rejected"),
        "Модель вернула HTTP 413 Payload Too Large: запрос слишком большой для API модели."
    );
    assert_eq!(
        model_http_error(799, "boom"),
        "Модель вернула HTTP 799 <unknown status code>: API отклонил запрос; подробности ответа скрыты для конфиденциальности."
    );
    assert_eq!(
        refusal_text("500", "max_tokens"),
        "Модель вернула HTTP 500: запрос превышает доступный контекст модели."
    );
}

#[test]
fn addresses_lose_their_slashes_and_version() {
    let ai = settings("ollama", "http://localhost:11434/v1//");
    assert_eq!(
        chat_completions_url(&ai),
        "http://localhost:11434/v1/chat/completions"
    );
    assert_eq!(test_connection_url(&ai), "http://localhost:11434/api/tags");
    assert_eq!(list_models_url(&ai), "http://localhost:11434/api/tags");
    let ai = settings("lmstudio", "http://localhost:1234/v1/");
    assert_eq!(list_models_url(&ai), "http://localhost:1234/api/v1/models");
    assert_eq!(test_connection_url(&ai), "http://localhost:1234/v1/models");
    let ai = settings("compatible", "https://api.example.com/v1");
    assert_eq!(
        chat_completions_url(&ai),
        "https://api.example.com/v1/chat/completions"
    );
    assert_eq!(list_models_url(&ai), "https://api.example.com/v1/models");
}

#[test]
fn requests_need_an_address() {
    let blank = settings("compatible", "  ");
    assert_eq!(
        test_connection_request(&blank).unwrap_err(),
        "Укажите базовый URL"
    );
    assert_eq!(
        list_models_request(&blank).unwrap_err(),
        "Укажите базовый URL"
    );
    let mut ai = settings("compatible", "http://localhost");
    ai.api_key = " key ".into();
    let request = list_models_request(&ai).unwrap();
    assert_eq!(request.url, "http://localhost/models");
    assert_eq!(request.bearer.as_deref(), Some(" key "));
    ai.api_key = "   ".into();
    assert!(test_connection_request(&ai).unwrap().bearer.is_none());
    assert!(bearer_token(&ai).is_none());
}

#[test]
fn analysis_needs_a_model_and_consent() {
    let mut ai = settings("compatible", "https://example.com");
    assert_eq!(
        check_analysis_settings(&ai).unwrap_err(),
        "Нужно подтвердить передачу данных в облако"
    );
    ai.cloud_consent = true;
    assert!(check_analysis_settings(&ai).is_ok());
    ai.model = " ".into();
    assert_eq!(
        check_analysis_settings(&ai).unwrap_err(),
        "Укажите имя модели"
    );
    assert!(check_analysis_settings(&settings("ollama", "http://localhost:1")).is_ok());
}

#[test]
fn hosts_are_read_as_addresses_are() {
    let local = [
        "localhost",
        "LOCALHOST.",
        "[::1]",
        "::1",
        "0:0:0:0:0:0:0:1",
        "0::1",
        "::0:1",
        "0:0::0001",
        "::0.0.0.1",
        "0:0:0:0:0:0:0.0.0.1",
        "0:0:0:0:0:0::1",
        "::0:0:0:0:0:0:1",
        "127.0.0.1",
        "127.255.255.255",
        "127.0.0.0",
        "127.0.0.1.",
    ];
    let elsewhere = [
        "0:0:0:0:0:0:0::1",
        "::0:0:0:0:0:0:0:1",
        ":::1",
        ":0::1",
        "0:::1",
        "::1:",
        "1::",
        "::",
        "",
        ":",
        "1",
        "00000::1",
        "::00001",
        "::2",
        "::0.0.0.01",
        "::ffff:127.0.0.1",
        "0:0:0:0:0:0:0:0:1",
        "0:0:0:0:0:0:1",
        "0::0::1",
        "127.0.0.256",
        "127.0.0.01",
        "127.0.0",
        "127.0.0.1.1",
        "127..0.1",
        "128.0.0.1",
        "0127.0.0.1",
        "127.0.0.1a",
        "127.0.0.1234",
        "xlocalhost",
        "[localhost]x",
    ];
    for host in local {
        assert!(is_loopback_host(host), "{host}");
    }
    for host in elsewhere {
        assert!(!is_loopback_host(host), "{host}");
    }
}

#[test]
fn failures_of_a_service_are_told_without_a_trace() {
    assert_eq!(
        test_connection_failure(&ServiceFailure::TimedOut),
        "Сервис не ответил за 8 секунд"
    );
    assert_eq!(
        test_connection_failure(&ServiceFailure::Unreachable(
            "error for url (http://127.0.0.1:1/)".into()
        )),
        "Сервис не ответил: error"
    );
    assert_eq!(
        test_connection_failure(&ServiceFailure::Refused("500".into())),
        "Сервис вернул ошибку HTTP: 500"
    );
    assert_eq!(
        list_models_failure(&ServiceFailure::TimedOut),
        "Список моделей не получен за 12 секунд"
    );
    assert_eq!(
        list_models_failure(&ServiceFailure::Unreachable("x".into())),
        "Не удалось получить модели: x"
    );
    assert_eq!(
        list_models_failure(&ServiceFailure::Refused("404".into())),
        "Сервис вернул ошибку HTTP: 404"
    );
    assert_eq!(list_not_json("x"), "Список моделей не является JSON: x");
    assert_eq!(no_client("x"), "Не удалось создать HTTP-клиент: x");
}

#[test]
fn models_of_lm_studio_start_with_the_loaded_one() {
    let value = json(
        r#"{"models":[
            {"type":"embedding","key":"e","loaded_instances":[{"id":"e"}]},
            {"type":"llm","key":"b","loaded_instances":[]},
            {"type":"llm","key":"a","loaded_instances":[{"id":"a"}]},
            {"type":"llm","loaded_instances":{"0":{"id":"z"}}},
            {"key":"untyped"},
            7
        ]}"#,
    );
    let list = list_models("lmstudio", &value).unwrap();
    assert_eq!(list.models, vec!["a", "b"]);
    assert_eq!(list.active_model.as_deref(), Some("a"));
    assert_eq!(
        list_models("lmstudio", &json(r#"{"models":[]}"#)).unwrap_err(),
        "LM Studio не сообщил доступных языковых моделей"
    );
    assert_eq!(
        list_models("lmstudio", &json(r#"{"data":[]}"#)).unwrap_err(),
        "Сервис вернул список моделей в неизвестном формате"
    );
}

#[test]
fn models_of_other_services_are_sorted() {
    let value = json(r#"{"models":[{"name":"b"},{"name":"a"},{"name":"b"},{"id":"c"},{"name":5}]}"#);
    let list = list_models("ollama", &value).unwrap();
    assert_eq!(list.models, vec!["a", "b"]);
    assert!(list.active_model.is_none());
    let value = json(r#"{"data":[{"id":"я"},{"id":"Z"},{"id":"a"}]}"#);
    assert_eq!(
        list_models("compatible", &value).unwrap().models,
        vec!["Z", "a", "я"]
    );
    assert_eq!(
        list_models("compatible", &json(r#"{"data":[{}]}"#)).unwrap_err(),
        "Локальный сервис не сообщил доступных моделей"
    );
    assert!(list_models("compatible", &json("[]")).is_err());
}

#[test]
fn models_are_chosen_from_what_is_told_of_them() {
    let entry = |kind: &str, name: &str, instance: Option<&str>| ModelEntry {
        kind: Some(kind.into()),
        name: Some(name.into()),
        instance: instance.map(str::to_owned),
    };
    let entries = vec![
        entry("llm", "one", None),
        entry("llm", "two", Some("two@1")),
        entry("llm", "three", Some("three")),
    ];
    let list = lm_studio_models(&entries).unwrap();
    assert_eq!(list.models, vec!["two@1", "one", "two", "three"]);
    assert_eq!(list.active_model.as_deref(), Some("two@1"));
    assert_eq!(
        named_models(&entries).unwrap().models,
        vec!["one", "three", "two"]
    );
    assert!(named_models(&Vec::new()).is_err());
}

#[test]
fn fences_round_a_reply_are_dropped() {
    assert_eq!(unfenced_reply("[1]"), "[1]");
    assert_eq!(unfenced_reply(" ```json\n[1]\n``` "), "[1]");
    assert_eq!(unfenced_reply("```\n[1]```"), "[1]");
    assert_eq!(unfenced_reply("[1]```"), "[1]");
    assert_eq!(unfenced_reply("```json"), "");
    let missing = json(r#"{"choices":[]}"#);
    assert_eq!(
        reply_in(&missing).unwrap_err(),
        "Ответ API не содержит choices[0].message.content"
    );
}

#[test]
fn confidence_is_read_from_words_and_numbers() {
    let grade = |value: f32| {
        SpokenConfidence::Grade(Confidence {
            bits: value.to_bits(),
        })
    };
    assert_eq!(read_confidence(" ВЫСОКАЯ "), grade(0.75));
    assert_eq!(read_confidence("Average"), grade(0.5));
    assert_eq!(read_confidence("низко"), grade(0.25));
    assert_eq!(
        read_confidence(" 87,5 % "),
        SpokenConfidence::Percentage("87.5".into())
    );
    assert_eq!(
        read_confidence("0.9"),
        SpokenConfidence::Number("0.9".into())
    );
    assert_eq!(spoken_confidence("%%"), SpokenConfidence::Percentage("".into()));
    assert_eq!(spoken_confidence(""), SpokenConfidence::Number("".into()));
}

#[test]
fn confidence_is_held_between_nothing_and_one() {
    let values = [
        0.0f32,
        -0.0,
        0.5,
        1.0,
        1.0000001,
        7.0,
        -0.25,
        f32::INFINITY,
        f32::NEG_INFINITY,
        f32::NAN,
        f32::MIN_POSITIVE,
        -f32::MIN_POSITIVE,
    ];
    for value in values {
        let held = clamp_confidence(Confidence {
            bits: value.to_bits(),
        });
        assert_eq!(held.bits, value.clamp(0.0, 1.0).to_bits(), "{value}");
    }
}

#[test]
fn a_request_asks_about_its_files() {
    let mut ai = settings("ollama", "http://localhost:11434/");
    ai.api_key = "key".into();
    let request = chat_request(&ai, &sort("standard", ""), &[context("x\"y")]).unwrap();
    assert_eq!(
        request.url,
        "http://localhost:11434/v1/chat/completions"
    );
    assert_eq!(request.bearer.as_deref(), Some("key"));
    let body: serde_json::Value = serde_json::from_str(&request.body).unwrap();
    let text = |pointer: &str| body.pointer(pointer).and_then(|v| v.as_str()).unwrap();
    assert_eq!(text("/model"), "test");
    assert_eq!(text("/messages/0/role"), "system");
    assert_eq!(text("/messages/1/role"), "user");
    assert_eq!(body.pointer("/temperature").and_then(|v| v.as_u64()), Some(0));
    assert_eq!(body.pointer("/max_tokens").and_then(|v| v.as_u64()), Some(512));
    let prompt = text("/messages/1/content");
    assert!(prompt.starts_with("Классифицируй только этот небольшой пакет файлов. Инструкция: Категория должна быть"));
    assert!(prompt.contains("всегда относятся к Загрузчикам.\nДля каждого файла"));
    assert!(prompt.contains("{id, category, confidence}"));
    assert!(prompt.ends_with("\"contentStatus\":\"прочитан\"}]"));
}

#[test]
fn the_users_instruction_counts_in_custom_mode() {
    let shown = model_instruction(&sort("custom", "по клиентам"));
    assert!(shown.ends_with(" Дополнительная инструкция пользователя: по клиентам"));
    assert!(!shown.contains("DMG"));
    assert!(model_instruction(&sort("custom", "  ")).contains("DMG"));
    assert!(model_instruction(&sort("standard", "по клиентам")).contains("DMG"));
}

#[test]
fn files_that_are_too_big_are_not_sent() {
    let ai = settings("compatible", "http://localhost");
    let error = chat_request(&ai, &sort("standard", ""), &[context(&"a".repeat(9_000))]).unwrap_err();
    assert!(error.starts_with("Входной контекст пакета (9"));
    assert!(error.ends_with(" байт) превышает безопасный лимит 8000 байт."));
}

#[test]
fn failures_of_a_request_are_told() {
    assert_eq!(request_failure("x"), "Ошибка запроса к модели: x");
    assert_eq!(answer_not_json("x"), "Ответ API не является JSON: x");
    assert_eq!(
        timeout_failure(300),
        "Тайм-аут пакета: модель не ответила за 300 секунд"
    );
}
