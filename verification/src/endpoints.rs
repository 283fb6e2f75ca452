//! Where requests go, and whether they may be made.

use crate::addresses;
use crate::diagnostics;
use crate::outside;
use crate::records::AiSettings;
use crate::text;
use vstd::prelude::*;

verus! {

pub const OLLAMA: &'static str = "ollama";

pub const LM_STUDIO: &'static str = "lmstudio";

pub const NO_BASE_URL: &'static str = "Укажите базовый URL";

pub const NO_MODEL: &'static str = "Укажите имя модели";

pub const NO_CONSENT: &'static str = "Нужно подтвердить передачу данных в облако";

// ---------------------------------------------------------------------------
// Addresses
// ---------------------------------------------------------------------------

/// The address of a service, without the slashes at its end.
pub open spec fn base(ai: AiSettings) -> Seq<char> {
    text::trim_end_any(ai.base_url@, seq!['/'])
}

/// The address of a service without the version of its interface.
pub open spec fn unversioned(ai: AiSettings) -> Seq<char> {
    text::trim_end_text(base(ai), "/v1"@)
}

/// Where the connection is tested.
pub open spec fn test_url(ai: AiSettings) -> Seq<char> {
    if ai.provider@ == OLLAMA@ {
        unversioned(ai) + "/api/tags"@
    } else {
        base(ai) + "/models"@
    }
}

/// Where the models are listed.
pub open spec fn list_url(ai: AiSettings) -> Seq<char> {
    if ai.provider@ == LM_STUDIO@ {
        unversioned(ai) + "/api/v1/models"@
    } else if ai.provider@ == OLLAMA@ {
        unversioned(ai) + "/api/tags"@
    } else {
        base(ai) + "/models"@
    }
}

/// Where the model is asked.
pub open spec fn chat_url(ai: AiSettings) -> Seq<char> {
    if ai.provider@ == OLLAMA@ && !text::ends_with(base(ai), "/v1"@) {
        base(ai) + "/v1/chat/completions"@
    } else {
        base(ai) + "/chat/completions"@
    }
}

fn base_text(ai: &AiSettings) -> (shown: String)
    ensures
        shown@ == base(*ai),
{
    let chars = text::chars_of(&ai.base_url);
    let slash = ['/'];
    assert(slash@ =~= seq!['/']);
    text::string_of(text::trimmed_end_any(&chars, &slash))
}

fn unversioned_text(ai: &AiSettings) -> (shown: String)
    ensures
        shown@ == unversioned(*ai),
{
    let shown = base_text(ai);
    let chars = text::chars_of(&shown);
    let version = text::chars_of("/v1");
    assert("/v1"@.len() == 3) by {
        reveal_strlit("/v1");
    }
    text::string_of(text::trimmed_end_text(&chars, &version))
}

/// Where the connection is tested.
pub fn test_connection_url(ai: &AiSettings) -> (url: String)
    ensures
        url@ == test_url(*ai),
{
    if text::same_text(&ai.provider, OLLAMA) {
        let mut url = unversioned_text(ai);
        url.append("/api/tags");
        url
    } else {
        let mut url = base_text(ai);
        url.append("/models");
        url
    }
}

/// Where the models are listed.
pub fn list_models_url(ai: &AiSettings) -> (url: String)
    ensures
        url@ == list_url(*ai),
{
    if text::same_text(&ai.provider, LM_STUDIO) {
        let mut url = unversioned_text(ai);
        url.append("/api/v1/models");
        url
    } else {
        test_connection_url(ai)
    }
}

/// Where the model is asked.
pub fn chat_completions_url(ai: &AiSettings) -> (url: String)
    ensures
        url@ == chat_url(*ai),
{
    let mut url = base_text(ai);
    let chars = text::chars_of(&url);
    if text::same_text(&ai.provider, OLLAMA) && !text::finishes_with(&chars, "/v1") {
        url.append("/v1/chat/completions");
    } else {
        url.append("/chat/completions");
    }
    url
}

// ---------------------------------------------------------------------------
// This computer
// ---------------------------------------------------------------------------

/// Whether an address, given by its host, means this computer.
pub open spec fn is_local_host(host: Option<Seq<char>>) -> bool {
    match host {
        Some(host) => addresses::is_loopback(host),
        None => false,
    }
}

/// Whether an address means this computer. One that cannot be read does not.
pub open spec fn is_local(address: Seq<char>) -> bool {
    is_local_host(outside::url_host_of(text::trim(address)))
}

/// Whether an address, given by its host, means this computer.
pub fn is_loopback_url_host(host: &Option<String>) -> (yes: bool)
    ensures
        yes == is_local_host(
            match *host {
                Some(host) => Some(host@),
                None => None,
            },
        ),
{
    match host {
        Some(host) => addresses::is_loopback_host(host),
        None => false,
    }
}

/// Whether an address means this computer.
pub fn is_loopback_endpoint(value: &str) -> (yes: bool)
    ensures
        yes == is_local(value@),
{
    let chars = text::chars_of(value);
    let address = text::string_of(text::trimmed(&chars));
    is_loopback_url_host(&outside::url_host(&address))
}

// ---------------------------------------------------------------------------
// What has to be given
// ---------------------------------------------------------------------------

/// A request to a service.
#[derive(Debug)]
pub struct ServiceRequest {
    pub url: String,
    /// What the request is authorised with.
    pub bearer: Option<String>,
}

fn is_blank(value: &str) -> (blank: bool)
    ensures
        blank == (text::trim(value@).len() == 0),
{
    let chars = text::chars_of(value);
    text::trimmed(&chars).len() == 0
}

/// What a request is authorised with: the key, where one is given.
pub open spec fn bearer(ai: AiSettings) -> Option<Seq<char>> {
    if text::trim(ai.api_key@).len() == 0 {
        None
    } else {
        Some(ai.api_key@)
    }
}

/// What a request is authorised with.
pub fn bearer_token(ai: &AiSettings) -> (token: Option<String>)
    ensures
        match token {
            Some(token) => bearer(*ai) == Some(token@),
            None => bearer(*ai) is None,
        },
{
    if is_blank(&ai.api_key) {
        None
    } else {
        Some(ai.api_key.clone())
    }
}

/// Whether a request goes to the given place, authorised as the settings say.
pub open spec fn is_request(request: ServiceRequest, ai: AiSettings, url: Seq<char>) -> bool {
    &&& request.url@ == url
    &&& request.bearer is Some <==> bearer(ai) is Some
    &&& request.bearer is Some ==> request.bearer->0@ == bearer(ai)->0
}

/// Why a service is not asked at all, where it is not: it has no address.
pub open spec fn nowhere_to_ask(ai: AiSettings) -> Option<Seq<char>> {
    if text::trim(ai.base_url@).len() == 0 {
        Some(NO_BASE_URL@)
    } else {
        None
    }
}

/// Whether a request goes to the given place, or is refused for want of an address.
pub open spec fn is_asked(
    request: Result<ServiceRequest, String>,
    ai: AiSettings,
    url: Seq<char>,
) -> bool {
    match request {
        Ok(request) => nowhere_to_ask(ai) is None && is_request(request, ai, url),
        Err(message) => nowhere_to_ask(ai) == Some(message@),
    }
}

/// The request that tests the connection. It needs an address.
pub fn test_connection_request(ai: &AiSettings) -> (request: Result<ServiceRequest, String>)
    ensures
        is_asked(request, *ai, test_url(*ai)),
        match request {
            Ok(request) => text::trim(ai.base_url@).len() > 0 && is_request(
                request,
                *ai,
                test_url(*ai),
            ),
            Err(message) => text::trim(ai.base_url@).len() == 0 && message@ == NO_BASE_URL@,
        },
{
    if is_blank(&ai.base_url) {
        return Err(NO_BASE_URL.to_owned());
    }
    Ok(ServiceRequest { url: test_connection_url(ai), bearer: bearer_token(ai) })
}

/// The request for the list of models. It needs an address.
pub fn list_models_request(ai: &AiSettings) -> (request: Result<ServiceRequest, String>)
    ensures
        is_asked(request, *ai, list_url(*ai)),
        match request {
            Ok(request) => text::trim(ai.base_url@).len() > 0 && is_request(
                request,
                *ai,
                list_url(*ai),
            ),
            Err(message) => text::trim(ai.base_url@).len() == 0 && message@ == NO_BASE_URL@,
        },
{
    if is_blank(&ai.base_url) {
        return Err(NO_BASE_URL.to_owned());
    }
    Ok(ServiceRequest { url: list_models_url(ai), bearer: bearer_token(ai) })
}

/// Why an analysis may not be started with some settings, where it may not: no model is
/// named, or the files would leave this computer without consent.
pub open spec fn objection(model: Seq<char>, local: bool, consent: bool) -> Option<Seq<char>> {
    if text::trim(model).len() == 0 {
        Some(NO_MODEL@)
    } else if !local && !consent {
        Some(NO_CONSENT@)
    } else {
        None
    }
}

/// Whether an analysis may be started, by where the model is.
pub fn check_analysis(ai: &AiSettings, local: bool) -> (result: Result<(), String>)
    ensures
        match result {
            Ok(_) => objection(ai.model@, local, ai.cloud_consent) is None,
            Err(message) => objection(ai.model@, local, ai.cloud_consent) == Some(message@),
        },
{
    if is_blank(&ai.model) {
        return Err(NO_MODEL.to_owned());
    }
    if !local && !ai.cloud_consent {
        return Err(NO_CONSENT.to_owned());
    }
    Ok(())
}

/// Whether an analysis may be started.
pub fn check_analysis_settings(ai: &AiSettings) -> (result: Result<(), String>)
    ensures
        match result {
            Ok(_) => objection(ai.model@, is_local(ai.base_url@), ai.cloud_consent) is None,
            Err(message) => objection(ai.model@, is_local(ai.base_url@), ai.cloud_consent) == Some(
                message@,
            ),
        },
{
    check_analysis(ai, is_loopback_endpoint(&ai.base_url))
}

/// Without consent no file leaves this computer: an analysis starts only if the host of
/// the model's address means this computer.
pub proof fn no_file_leaves_without_consent(model: Seq<char>, address: Seq<char>)
    ensures
        objection(model, is_local(address), false) is None ==> {
            &&& outside::url_host_of(text::trim(address)) is Some
            &&& addresses::is_loopback(outside::url_host_of(text::trim(address))->0)
        },
{
}

// ---------------------------------------------------------------------------
// What is said of a service that cannot be reached
// ---------------------------------------------------------------------------

/// What went wrong with a request to a service, in the words of those who made it.
#[derive(Debug)]
pub enum ServiceFailure {
    TimedOut,
    Unreachable(String),
    Refused(String),
}

pub const NO_CLIENT: &'static str = "Не удалось создать HTTP-клиент: ";

pub const TEST_TIMED_OUT: &'static str = "Сервис не ответил за 8 секунд";

pub const TEST_UNREACHABLE: &'static str = "Сервис не ответил: ";

pub const SERVICE_REFUSED: &'static str = "Сервис вернул ошибку HTTP: ";

pub const TEST_PASSED: &'static str = "Подключение успешно";

pub const LIST_TIMED_OUT: &'static str = "Список моделей не получен за 12 секунд";

pub const LIST_UNREACHABLE: &'static str = "Не удалось получить модели: ";

pub const LIST_NOT_JSON: &'static str = "Список моделей не является JSON: ";

/// Two texts, one behind the other.
fn behind(first: &str, second: &str) -> (both: String)
    ensures
        both@ == first@ + second@,
{
    let mut both = first.to_owned();
    both.append(second);
    both
}

/// What is said of a list of models that did not come.
pub open spec fn list_failure_message(failure: ServiceFailure) -> Seq<char> {
    match failure {
        ServiceFailure::TimedOut => LIST_TIMED_OUT@,
        ServiceFailure::Unreachable(error) => diagnostics::error_detail(LIST_UNREACHABLE@ + error@),
        ServiceFailure::Refused(error) => diagnostics::error_detail(SERVICE_REFUSED@ + error@),
    }
}

/// What is said of a list of models that did not come.
pub fn list_models_failure(failure: &ServiceFailure) -> (message: String)
    ensures
        message@ == list_failure_message(*failure),
{
    match failure {
        ServiceFailure::TimedOut => LIST_TIMED_OUT.to_owned(),
        ServiceFailure::Unreachable(error) => diagnostics::anonymized_error(
            &behind(LIST_UNREACHABLE, error),
        ).1,
        ServiceFailure::Refused(error) => diagnostics::anonymized_error(
            &behind(SERVICE_REFUSED, error),
        ).1,
    }
}

/// What is said of a list of models that is no JSON.
pub fn list_not_json(error: &str) -> (message: String)
    ensures
        message@ == LIST_NOT_JSON@ + error@,
{
    behind(LIST_NOT_JSON, error)
}

/// What is said where there is nothing to make requests with.
pub fn no_client(error: &str) -> (message: String)
    ensures
        message@ == NO_CLIENT@ + error@,
{
    behind(NO_CLIENT, error)
}

/// What is said of a test that failed: that no answer came in time, that none came, or
/// that the service refused.
pub open spec fn test_failure_message(failure: ServiceFailure) -> Seq<char> {
    match failure {
        ServiceFailure::TimedOut => TEST_TIMED_OUT@,
        ServiceFailure::Refused(error) => diagnostics::error_detail(SERVICE_REFUSED@ + error@),
        ServiceFailure::Unreachable(error) => diagnostics::error_detail(TEST_UNREACHABLE@ + error@),
    }
}

/// What is said of a test that failed.
pub fn test_connection_failure(failure: &ServiceFailure) -> (message: String)
    ensures
        message@ == test_failure_message(*failure),
{
    match failure {
        ServiceFailure::TimedOut => TEST_TIMED_OUT.to_owned(),
        ServiceFailure::Refused(error) => diagnostics::anonymized_error(
            &behind(SERVICE_REFUSED, error),
        ).1,
        ServiceFailure::Unreachable(error) => diagnostics::anonymized_error(
            &behind(TEST_UNREACHABLE, error),
        ).1,
    }
}

} // verus!
