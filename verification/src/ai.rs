//! The data shapes of the optional local-AI features: the retrieval context
//! handed to a chat engine, its streamed chunks and final answer, and the
//! settings that switch the features on. Every feature is off by default.

use vstd::prelude::*;

use crate::error::TomeError;

verus! {

/// One article snippet given to the model as context. `id` is the citation
/// index used in the prompt (from 1); `page_id` is the article's id.
#[derive(Debug, Clone)]
pub struct ChatContext {
    pub id: u32,
    pub page_id: u64,
    pub title: String,
    pub snippet: String,
}

/// One streamed piece of an answer: a token as it is generated, or the
/// final answer once.
#[derive(Debug, Clone)]
pub enum ChatChunk {
    Token(String),
    Done(ChatAnswer),
}

/// A final answer and the context indices it cites.
#[derive(Debug, Clone)]
pub struct ChatAnswer {
    pub answer: String,
    pub citations: Vec<u32>,
}

/// A local chat engine that answers from the given context.
pub trait ChatEngine {
    /// A complete answer to `question` from `context`.
    fn answer(&self, question: &str, context: &[ChatContext]) -> Result<ChatAnswer, TomeError>;
}

/// Switches of the AI features.
#[derive(Debug, Clone, Copy)]
pub struct AiConfig {
    /// Master switch; when off, every AI feature does nothing.
    pub enabled: bool,
    pub semantic_search_enabled: bool,
    pub rag_enabled: bool,
}

impl Default for AiConfig {
    /// Everything off.
    fn default() -> (r: Self)
        ensures
            !r.enabled,
            !r.semantic_search_enabled,
            !r.rag_enabled,
    {
        AiConfig { enabled: false, semantic_search_enabled: false, rag_enabled: false }
    }
}

} // verus!
