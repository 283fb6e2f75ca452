//! The records that the sorter works on, each with the value that it stands for.

use vstd::prelude::*;

verus! {

/// How to reach the model.
#[derive(Debug)]
pub struct AiSettings {
    pub provider: String,
    pub base_url: String,
    pub model: String,
    pub api_key: String,
    pub cloud_consent: bool,
}

/// How to sort.
#[derive(Debug)]
pub struct SortSettings {
    pub mode: String,
    pub custom_prompt: String,
    pub text_limit: usize,
    pub total_limit: usize,
    pub unlimited: bool,
}

/// How sure a category is: a single-precision number, held as its bit pattern.
#[derive(Debug, Clone, Copy, PartialEq, Eq, Structural)]
pub struct Confidence {
    pub bits: u32,
}

/// How far the model has come with a file.
#[derive(Debug, Clone, Copy, PartialEq, Eq, Structural)]
pub enum AiStatus {
    Processed,
    RetryPending,
    Unprocessed,
}

/// One file of the plan.
#[derive(Debug)]
pub struct PlanItem {
    pub id: String,
    pub source: String,
    pub relative_path: String,
    pub target: String,
    pub category: String,
    pub explanation: String,
    pub confidence: Confidence,
    pub included: bool,
    pub warning: Option<String>,
    pub ai_status: AiStatus,
    pub ai_error: Option<String>,
}

/// What a [`PlanItem`] stands for.
#[verifier::ext_equal]
pub struct PlanItemView {
    pub id: Seq<char>,
    pub source: Seq<char>,
    pub relative_path: Seq<char>,
    pub target: Seq<char>,
    pub category: Seq<char>,
    pub explanation: Seq<char>,
    pub confidence: Confidence,
    pub included: bool,
    pub warning: Option<Seq<char>>,
    pub ai_status: AiStatus,
    pub ai_error: Option<Seq<char>>,
}

/// What a text that may be missing stands for.
pub open spec fn option_view(text: Option<String>) -> Option<Seq<char>> {
    match text {
        Some(text) => Some(text@),
        None => None,
    }
}

impl View for PlanItem {
    type V = PlanItemView;

    open spec fn view(&self) -> PlanItemView {
        PlanItemView {
            id: self.id@,
            source: self.source@,
            relative_path: self.relative_path@,
            target: self.target@,
            category: self.category@,
            explanation: self.explanation@,
            confidence: self.confidence,
            included: self.included,
            warning: option_view(self.warning),
            ai_status: self.ai_status,
            ai_error: option_view(self.ai_error),
        }
    }
}

/// What a list of items stands for.
pub open spec fn item_views(items: Seq<PlanItem>) -> Seq<PlanItemView> {
    Seq::new(items.len(), |i: int| items[i]@)
}

/// What the model is told of a file.
#[derive(Debug)]
pub struct AiFileContext {
    pub id: String,
    pub path: String,
    pub extension: String,
    pub size_bytes: u64,
    pub created_at: Option<String>,
    pub modified_at: Option<String>,
    pub suggested_category: String,
    pub content_extract: Option<String>,
    pub content_status: String,
}

/// What an [`AiFileContext`] stands for.
#[verifier::ext_equal]
pub struct ContextView {
    pub id: Seq<char>,
    pub path: Seq<char>,
    pub extension: Seq<char>,
    pub size_bytes: u64,
    pub created_at: Option<Seq<char>>,
    pub modified_at: Option<Seq<char>>,
    pub suggested_category: Seq<char>,
    pub content_extract: Option<Seq<char>>,
    pub content_status: Seq<char>,
}

impl View for AiFileContext {
    type V = ContextView;

    open spec fn view(&self) -> ContextView {
        ContextView {
            id: self.id@,
            path: self.path@,
            extension: self.extension@,
            size_bytes: self.size_bytes,
            created_at: option_view(self.created_at),
            modified_at: option_view(self.modified_at),
            suggested_category: self.suggested_category@,
            content_extract: option_view(self.content_extract),
            content_status: self.content_status@,
        }
    }
}

/// What a list of contexts stands for.
pub open spec fn context_views(contexts: Seq<AiFileContext>) -> Seq<ContextView> {
    Seq::new(contexts.len(), |i: int| contexts[i]@)
}

/// A copy of a text that may be missing.
pub fn option_copy(text: &Option<String>) -> (copy: Option<String>)
    ensures
        option_view(copy) == option_view(*text),
{
    match text {
        Some(text) => Some(text.clone()),
        None => None,
    }
}

impl Clone for AiFileContext {
    fn clone(&self) -> (copy: Self)
        ensures
            copy@ == self@,
    {
        AiFileContext {
            id: self.id.clone(),
            path: self.path.clone(),
            extension: self.extension.clone(),
            size_bytes: self.size_bytes,
            created_at: option_copy(&self.created_at),
            modified_at: option_copy(&self.modified_at),
            suggested_category: self.suggested_category.clone(),
            content_extract: option_copy(&self.content_extract),
            content_status: self.content_status.clone(),
        }
    }
}

/// What the model decided on a file.
#[derive(Debug)]
pub struct AiDecision {
    pub id: String,
    pub category: String,
    pub explanation: Option<String>,
    pub confidence: Option<Confidence>,
}

/// What an [`AiDecision`] stands for.
#[verifier::ext_equal]
pub struct DecisionView {
    pub id: Seq<char>,
    pub category: Seq<char>,
    pub explanation: Option<Seq<char>>,
    pub confidence: Option<Confidence>,
}

impl View for AiDecision {
    type V = DecisionView;

    open spec fn view(&self) -> DecisionView {
        DecisionView {
            id: self.id@,
            category: self.category@,
            explanation: option_view(self.explanation),
            confidence: self.confidence,
        }
    }
}

/// What a list of decisions stands for.
pub open spec fn decision_views(decisions: Seq<AiDecision>) -> Seq<DecisionView> {
    Seq::new(decisions.len(), |i: int| decisions[i]@)
}

/// What a list of texts stands for.
pub open spec fn text_views(texts: Seq<String>) -> Seq<Seq<char>> {
    Seq::new(texts.len(), |i: int| texts[i]@)
}

/// How often an extension occurs.
#[derive(Debug, Clone, PartialEq, Eq)]
pub struct ExtensionCount {
    pub extension: String,
    pub count: usize,
}

/// What an [`ExtensionCount`] stands for.
#[verifier::ext_equal]
pub struct CountView {
    pub extension: Seq<char>,
    pub count: nat,
}

impl View for ExtensionCount {
    type V = CountView;

    open spec fn view(&self) -> CountView {
        CountView { extension: self.extension@, count: self.count as nat }
    }
}

/// What a list of counts stands for.
pub open spec fn count_views(counts: Seq<ExtensionCount>) -> Seq<CountView> {
    Seq::new(counts.len(), |i: int| counts[i]@)
}

/// One line of the analysis log. It holds no names and no paths.
#[derive(Debug, Clone, PartialEq, Eq)]
pub struct AnalysisLogEvent {
    pub phase: String,
    pub attempt: Option<usize>,
    pub batch_number: Option<usize>,
    pub total_batches: Option<usize>,
    pub file_count: usize,
    pub extensions: Vec<ExtensionCount>,
    pub duration_ms: u64,
    pub outcome: String,
    pub successful_files: usize,
    pub unresolved_files: usize,
    pub skipped_files: usize,
    pub input_bytes: Option<usize>,
    pub error_kind: Option<String>,
    pub error_detail: Option<String>,
}

/// What an [`AnalysisLogEvent`] stands for.
#[verifier::ext_equal]
pub struct LogView {
    pub phase: Seq<char>,
    pub attempt: Option<usize>,
    pub batch_number: Option<usize>,
    pub total_batches: Option<usize>,
    pub file_count: nat,
    pub extensions: Seq<CountView>,
    pub duration_ms: u64,
    pub outcome: Seq<char>,
    pub successful_files: nat,
    pub unresolved_files: nat,
    pub skipped_files: nat,
    pub input_bytes: Option<usize>,
    pub error_kind: Option<Seq<char>>,
    pub error_detail: Option<Seq<char>>,
}

impl View for AnalysisLogEvent {
    type V = LogView;

    open spec fn view(&self) -> LogView {
        LogView {
            phase: self.phase@,
            attempt: self.attempt,
            batch_number: self.batch_number,
            total_batches: self.total_batches,
            file_count: self.file_count as nat,
            extensions: count_views(self.extensions@),
            duration_ms: self.duration_ms,
            outcome: self.outcome@,
            successful_files: self.successful_files as nat,
            unresolved_files: self.unresolved_files as nat,
            skipped_files: self.skipped_files as nat,
            input_bytes: self.input_bytes,
            error_kind: option_view(self.error_kind),
            error_detail: option_view(self.error_detail),
        }
    }
}

/// How far the analysis has come.
#[derive(Debug, Clone, PartialEq, Eq)]
pub struct AnalysisProgress {
    pub phase: String,
    pub completed_batches: usize,
    pub total_batches: usize,
    pub processed_files: usize,
    pub pending_files: usize,
    pub not_attempted_files: usize,
    pub retry_pending_files: usize,
    pub message: String,
}

/// What an [`AnalysisProgress`] stands for.
#[verifier::ext_equal]
pub struct ProgressView {
    pub phase: Seq<char>,
    pub completed_batches: nat,
    pub total_batches: nat,
    pub processed_files: nat,
    pub pending_files: nat,
    pub not_attempted_files: nat,
    pub retry_pending_files: nat,
    pub message: Seq<char>,
}

impl View for AnalysisProgress {
    type V = ProgressView;

    open spec fn view(&self) -> ProgressView {
        ProgressView {
            phase: self.phase@,
            completed_batches: self.completed_batches as nat,
            total_batches: self.total_batches as nat,
            processed_files: self.processed_files as nat,
            pending_files: self.pending_files as nat,
            not_attempted_files: self.not_attempted_files as nat,
            retry_pending_files: self.retry_pending_files as nat,
            message: self.message@,
        }
    }
}

} // verus!
