//! Data model for a council run: per-call results, usage counters, and the
//! conversation records the orchestrator reads and appends to.

use vstd::prelude::*;

verus! {

/// Token counts reported for one model call.
#[derive(Clone, Copy, Debug, PartialEq, Eq, Structural)]
pub struct Usage {
    pub prompt_tokens: u32,
    pub completion_tokens: u32,
    pub total_tokens: u32,
}

impl Usage {
    /// The all-zero counter, the unit of summation.
    pub fn zero() -> (r: Usage)
        ensures
            r.prompt_tokens == 0,
            r.completion_tokens == 0,
            r.total_tokens == 0,
    {
        Usage { prompt_tokens: 0, completion_tokens: 0, total_tokens: 0 }
    }
}

/// One file attached to a user message; `data` holds a base64 data URL.
#[derive(Clone, Debug)]
pub struct FileAttachment {
    pub name: String,
    pub file_type: String,
    pub size: usize,
    pub data: String,
}

/// What one model call produced: the reply text and, when the backend
/// reported them, its token counts.
#[derive(Clone, Debug)]
pub struct ModelResponse {
    pub content: String,
    pub usage: Option<Usage>,
}

/// One council model's independent answer from the first stage.
#[derive(Clone, Debug)]
pub struct Stage1Result {
    pub model: String,
    pub response: String,
    pub usage: Option<Usage>,
}

/// One council model's ranking verdict from the second stage: the raw text
/// and the label list parsed out of it.
#[derive(Clone, Debug)]
pub struct Stage2Result {
    pub model: String,
    pub ranking: String,
    pub parsed_ranking: Vec<String>,
    pub usage: Option<Usage>,
}

/// The chairman's synthesis from the third stage.
#[derive(Clone, Debug)]
pub struct Stage3Result {
    pub model: String,
    pub response: String,
    pub usage: Option<Usage>,
}

/// Average peer-assigned position for one model. The average is kept exact
/// as hundredths (a value of 200 means an average position of 2.00).
#[derive(Clone, Debug)]
pub struct AggregateRanking {
    pub model: String,
    pub average_rank_hundredths: u64,
    pub rankings_count: usize,
}

/// Per-stage and per-model token totals for one council run.
#[derive(Clone, Debug)]
pub struct UsageSummary {
    pub stage1_total: Usage,
    pub stage2_total: Usage,
    pub stage3_total: Usage,
    pub grand_total: Usage,
    pub by_model: Vec<(String, Usage)>,
}

/// Metadata stored with an assistant message when a council run succeeds.
#[derive(Clone, Debug)]
pub struct MessageMetadata {
    pub label_to_model: Option<Vec<(String, String)>>,
    pub aggregate_rankings: Option<Vec<AggregateRanking>>,
    pub usage_summary: Option<UsageSummary>,
}

/// One message of a conversation: either a user turn (content and files) or
/// an assistant turn (the three stage results and metadata).
#[derive(Clone, Debug)]
pub struct Message {
    pub role: String,
    pub content: Option<String>,
    pub files: Option<Vec<FileAttachment>>,
    pub stage1: Option<Vec<Stage1Result>>,
    pub stage2: Option<Vec<Stage2Result>>,
    pub stage3: Option<Stage3Result>,
    pub metadata: Option<MessageMetadata>,
}

/// A stored conversation: identity, creation time, title, and messages.
#[derive(Clone, Debug)]
pub struct Conversation {
    pub id: String,
    pub created_at: String,
    pub title: String,
    pub messages: Vec<Message>,
}

/// The listing entry for one conversation.
#[derive(Clone, Debug)]
pub struct ConversationMetadata {
    pub id: String,
    pub created_at: String,
    pub title: String,
    pub message_count: usize,
}

/// Body of a request that creates a conversation.
#[derive(Clone, Debug)]
pub struct CreateConversationRequest {}

/// Body of a request that sends a user message.
#[derive(Clone, Debug)]
pub struct SendMessageRequest {
    pub content: String,
    pub files: Vec<FileAttachment>,
}

/// Body of a request that renames a conversation.
#[derive(Clone, Debug)]
pub struct UpdateTitleRequest {
    pub title: String,
}

/// Health-check reply.
#[derive(Clone, Debug)]
pub struct StatusResponse {
    pub status: String,
    pub service: String,
}

/// Acknowledgement reply for deletions and similar operations.
#[derive(Clone, Debug)]
pub struct DeleteResponse {
    pub status: String,
    pub message: String,
}

} // verus!
