//! Request and response data of an OpenAI-compatible chat backend.
use vstd::prelude::*;

verus! {

/// One role-tagged message of a chat request.
#[derive(Debug, Clone)]
pub struct ChatMessage {
    pub role: String,
    pub content: String,
}

/// A chat-completion response.
#[derive(Debug, Clone)]
pub struct ChatCompletionResponse {
    pub id: String,
    pub object: String,
    pub created: u64,
    pub model: String,
    pub choices: Vec<ChatChoice>,
    pub usage: UsageStats,
}

/// One choice of a response.
#[derive(Debug, Clone)]
pub struct ChatChoice {
    pub index: u32,
    pub message: ChatMessage,
    pub finish_reason: String,
}

/// Token usage that a response reports.
#[derive(Debug, Clone, Copy)]
pub struct UsageStats {
    pub prompt_tokens: u32,
    pub completion_tokens: u32,
    pub total_tokens: u32,
}

/// A message with role `system`.
pub fn system_message(content: String) -> (r: ChatMessage)
    ensures
        r.role@ == "system"@,
        r.content == content,
{
    ChatMessage { role: "system".to_owned(), content }
}

/// A message with role `user`.
pub fn user_message(content: String) -> (r: ChatMessage)
    ensures
        r.role@ == "user"@,
        r.content == content,
{
    ChatMessage { role: "user".to_owned(), content }
}

/// A message with role `assistant`.
pub fn assistant_message(content: String) -> (r: ChatMessage)
    ensures
        r.role@ == "assistant"@,
        r.content == content,
{
    ChatMessage { role: "assistant".to_owned(), content }
}

} // verus!
