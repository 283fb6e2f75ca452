//! What the model is asked.

use crate::batches;
use crate::endpoints;
use crate::json;
use crate::records;
use crate::records::{AiFileContext, AiSettings, ContextView, SortSettings};
use crate::text;
use vstd::prelude::*;

verus! {

/// The number of tokens that a reply may have.
pub const MAX_MODEL_RESPONSE_TOKENS: usize = 512;

/// The number of characters of the user's instruction that reach the model.
pub const MAX_CUSTOM_PROMPT_CHARS: usize = 600;

/// The mode in which the user's instruction counts.
pub const CUSTOM_MODE: &'static str = "custom";

pub const CATEGORY_RULE: &'static str =
    "Категория должна быть ровно одной из: Работа, Личное, Финансы, Учёба, Медиа, Архив, Загрузчики, Прочее.";

pub const USER_INSTRUCTION: &'static str = " Дополнительная инструкция пользователя: ";

pub const INSTALLER_RULE: &'static str =
    " Установочные файлы с расширениями DMG, EXE, PKG, MSI и похожими всегда относятся к Загрузчикам.";

pub const PROMPT_START: &'static str =
    "Классифицируй только этот небольшой пакет файлов. Инструкция: ";

pub const PROMPT_RULES: &'static str =
    "\nДля каждого файла сначала используй contentExtract, если он есть. Если его нет, анализируй только метаданные: path, extension, sizeBytes, даты и suggestedCategory. Не выдумывай содержимое. Верни ТОЛЬКО компактный JSON-массив объектов {id, category, confidence}. Без explanation, Markdown и любого текста вне JSON. Верни ровно одно решение для каждого переданного id.\nФайлы: ";

pub const SYSTEM_PROMPT: &'static str =
    "Отвечай только компактным валидным JSON-массивом. Каждый объект: id, category, confidence. Никакого Markdown, explanation или текста вне JSON.";

// ---------------------------------------------------------------------------
// The instruction
// ---------------------------------------------------------------------------

/// The part of the user's instruction that reaches the model.
pub fn bounded_custom_prompt(value: &str) -> (shown: String)
    ensures
        shown@ == text::first_chars(value@, MAX_CUSTOM_PROMPT_CHARS as nat),
{
    batches::shorten_text(value, MAX_CUSTOM_PROMPT_CHARS)
}

/// The instruction for the model: what categories there are, and either what the user
/// wants or where installers go.
pub open spec fn instruction(mode: Seq<char>, custom: Seq<char>) -> Seq<char> {
    if mode == CUSTOM_MODE@ && text::trim(custom).len() > 0 {
        CATEGORY_RULE@ + USER_INSTRUCTION@ + text::first_chars(
            custom,
            MAX_CUSTOM_PROMPT_CHARS as nat,
        )
    } else {
        CATEGORY_RULE@ + INSTALLER_RULE@
    }
}

/// The instruction for the model.
pub fn model_instruction(sort: &SortSettings) -> (shown: String)
    ensures
        shown@ == instruction(sort.mode@, sort.custom_prompt@),
{
    let mut shown = CATEGORY_RULE.to_owned();
    let chars = text::chars_of(&sort.custom_prompt);
    if text::same_text(&sort.mode, CUSTOM_MODE) && text::trimmed(&chars).len() > 0 {
        shown.append(USER_INSTRUCTION);
        shown.append(&bounded_custom_prompt(&sort.custom_prompt));
    } else {
        shown.append(INSTALLER_RULE);
    }
    shown
}

/// What the model is asked about some files.
pub open spec fn prompt(mode: Seq<char>, custom: Seq<char>, batch: Seq<ContextView>) -> Seq<char> {
    PROMPT_START@ + instruction(mode, custom) + PROMPT_RULES@ + json::contexts_json(batch)
}

/// What the model is asked about some files.
pub fn model_prompt(sort: &SortSettings, batch: &[AiFileContext]) -> (shown: String)
    ensures
        shown@ == prompt(sort.mode@, sort.custom_prompt@, records::context_views(batch@)),
{
    let mut shown = PROMPT_START.to_owned();
    shown.append(&model_instruction(sort));
    shown.append(PROMPT_RULES);
    shown.append(&json::write_contexts(batch));
    shown
}

// ---------------------------------------------------------------------------
// The request
// ---------------------------------------------------------------------------

/// The body of a request.
pub open spec fn chat_body(model: Seq<char>, prompt: Seq<char>) -> Seq<char> {
    "{\"max_tokens\":"@ + text::decimal(MAX_MODEL_RESPONSE_TOKENS as nat)
        + ",\"messages\":[{\"content\":"@ + json::quoted(SYSTEM_PROMPT@)
        + ",\"role\":\"system\"},{\"content\":"@ + json::quoted(prompt)
        + ",\"role\":\"user\"}],\"model\":"@ + json::quoted(model) + ",\"temperature\":0}"@
}

/// The body of a request.
pub fn chat_request_body(model: &str, prompt: &str) -> (body: String)
    ensures
        body@ == chat_body(model@, prompt@),
{
    let mut body = "{\"max_tokens\":".to_owned();
    body.append(&text::decimal_of(MAX_MODEL_RESPONSE_TOKENS as u64));
    body.append(",\"messages\":[{\"content\":");
    body.append(&json::quote(SYSTEM_PROMPT));
    body.append(",\"role\":\"system\"},{\"content\":");
    body.append(&json::quote(prompt));
    body.append(",\"role\":\"user\"}],\"model\":");
    body.append(&json::quote(model));
    body.append(",\"temperature\":0}");
    body
}

/// What is said of files that are too big for a request.
pub open spec fn too_big(bytes: nat) -> Seq<char> {
    "Входной контекст пакета ("@ + text::decimal(bytes)
        + " байт) превышает безопасный лимит "@ + text::decimal(
        batches::MAX_BATCH_CONTEXT_BYTES as nat,
    ) + " байт."@
}

/// A request to the model.
#[derive(Debug)]
pub struct ChatRequest {
    pub url: String,
    /// What the request is authorised with.
    pub bearer: Option<String>,
    pub body: String,
}

/// The number of bytes of some files in a request.
pub open spec fn batch_bytes(batch: Seq<ContextView>) -> nat {
    batches::bytes_between(batch, 0, batch.len() as int)
}

/// What a [`ChatRequest`] stands for.
#[verifier::ext_equal]
pub struct RequestView {
    pub url: Seq<char>,
    pub bearer: Option<Seq<char>>,
    pub body: Seq<char>,
}

/// The request about some files, or why there is none.
pub open spec fn request_about(
    ai: AiSettings,
    sort: SortSettings,
    batch: Seq<ContextView>,
) -> Result<RequestView, Seq<char>> {
    if batch_bytes(batch) > batches::MAX_BATCH_CONTEXT_BYTES {
        Err(too_big(batches::saturated(batch_bytes(batch))))
    } else {
        Ok(
            RequestView {
                url: endpoints::chat_url(ai),
                bearer: endpoints::bearer(ai),
                body: chat_body(ai.model@, prompt(sort.mode@, sort.custom_prompt@, batch)),
            },
        )
    }
}

/// Whether a request is the one that is asked for.
pub open spec fn is_request(
    request: Result<ChatRequest, String>,
    expected: Result<RequestView, Seq<char>>,
) -> bool {
    match (request, expected) {
        (Ok(request), Ok(view)) => {
            &&& request.url@ == view.url
            &&& records::option_view(request.bearer) == view.bearer
            &&& request.body@ == view.body
        },
        (Err(message), Err(view)) => message@ == view,
        _ => false,
    }
}

/// The request about some files, unless they are too big for one.
pub fn chat_request(ai: &AiSettings, sort: &SortSettings, batch: &[AiFileContext]) -> (request:
    Result<ChatRequest, String>)
    ensures
        is_request(request, request_about(*ai, *sort, records::context_views(batch@))),
        match request {
            Ok(request) => {
                &&& batch_bytes(records::context_views(batch@)) <= batches::MAX_BATCH_CONTEXT_BYTES
                &&& request.url@ == endpoints::chat_url(*ai)
                &&& records::option_view(request.bearer) == endpoints::bearer(*ai)
                &&& request.body@ == chat_body(
                    ai.model@,
                    prompt(sort.mode@, sort.custom_prompt@, records::context_views(batch@)),
                )
            },
            Err(message) => {
                &&& batch_bytes(records::context_views(batch@)) > batches::MAX_BATCH_CONTEXT_BYTES
                &&& message@ == too_big(
                    batches::saturated(batch_bytes(records::context_views(batch@))),
                )
            },
        },
{
    let bytes: usize = batches::model_batch_context_bytes(batch);
    if bytes > batches::MAX_BATCH_CONTEXT_BYTES {
        let mut message = "Входной контекст пакета (".to_owned();
        message.append(&text::decimal_of(bytes as u64));
        message.append(" байт) превышает безопасный лимит ");
        message.append(&text::decimal_of(batches::MAX_BATCH_CONTEXT_BYTES as u64));
        message.append(" байт.");
        return Err(message);
    }
    let shown = model_prompt(sort, batch);
    Ok(
        ChatRequest {
            url: endpoints::chat_completions_url(ai),
            bearer: endpoints::bearer_token(ai),
            body: chat_request_body(&ai.model, &shown),
        },
    )
}

// ---------------------------------------------------------------------------
// What is said of a request that failed
// ---------------------------------------------------------------------------

pub const REQUEST_FAILED: &'static str = "Ошибка запроса к модели: ";

pub const ANSWER_NOT_JSON: &'static str = "Ответ API не является JSON: ";

/// What is said of a request that brought no answer.
pub fn request_failure(error: &str) -> (message: String)
    ensures
        message@ == REQUEST_FAILED@ + error@,
{
    let mut message = REQUEST_FAILED.to_owned();
    message.append(error);
    message
}

/// What is said of an answer that is no JSON.
pub fn answer_not_json(error: &str) -> (message: String)
    ensures
        message@ == ANSWER_NOT_JSON@ + error@,
{
    let mut message = ANSWER_NOT_JSON.to_owned();
    message.append(error);
    message
}

/// What is said of a request that was not answered in time.
pub open spec fn too_late(seconds: nat) -> Seq<char> {
    "Тайм-аут пакета: модель не ответила за "@ + text::decimal(seconds) + " секунд"@
}

/// What is said of a request that was not answered in time.
pub fn timeout_failure(seconds: u64) -> (message: String)
    ensures
        message@ == too_late(seconds as nat),
        message@ == "Тайм-аут пакета: модель не ответила за "@ + text::decimal(seconds as nat)
            + " секунд"@,
{
    let mut message = "Тайм-аут пакета: модель не ответила за ".to_owned();
    message.append(&text::decimal_of(seconds));
    message.append(" секунд");
    message
}

} // verus!
