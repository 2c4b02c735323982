//! What the controllers hand to the UI.
use vstd::prelude::*;
use crate::capability::Item;
use crate::entity::{ExtensionCapabilityId, ProviderBackendId};
use crate::permission::entity::UserDecision;

verus! {

/// An update for the UI.
#[derive(Debug)]
pub enum RenderEvent {
    Search(SearchRenderEvent),
    Chat(ChatRenderEvent),
    Cancel,
    Done,
    Error { message: String },
}

#[derive(Debug)]
pub enum SearchRenderEvent {
    Append { response: QueryResponse },
}

/// The results of one handler for a query.
#[derive(Debug)]
pub struct QueryResponse {
    pub extension_capability_id: ExtensionCapabilityId,
    /// The section name to display.
    pub name: String,
    pub items: Vec<Item>,
}

#[derive(Debug)]
pub enum ChatRenderEvent {
    UserPrompt { text: String },
    TextDelta { provider_backend_id: ProviderBackendId, text: String },
    ReasoningDelta { text: String },
    ToolCall { name: String, arguments: String, description: Option<String>, decisions: Vec<UserDecision> },
}

} // verus!
