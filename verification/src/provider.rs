//! What the chat provider streams back, as far as the app reads it.
use vstd::prelude::*;
use crate::entity::ProviderBackendId;

verus! {

/// One item of a conversation's history.
#[derive(Debug)]
pub enum ConversationItem {
    UserPrompt { prompt: String },
    /// Assistant text, one entry per content part.
    Message { message: Vec<String> },
    ToolCall { call_id: String, name: String, arguments: String },
    HostedTool { function_type: String, content: Option<String> },
    ToolResult { call_id: String, name: String, output: String },
}

/// One event of a provider's chat stream.
#[derive(Debug)]
pub enum ChatEvent {
    TextDelta { provider_backend_id: ProviderBackendId, text: String },
    ReasoningSummaryDelta { text: String },
    OutputItem { item: ConversationItem },
    Done,
}

/// The abstract content of a [`ConversationItem`].
pub enum ItemView {
    UserPrompt { prompt: Seq<char> },
    Message { message: Seq<Seq<char>> },
    ToolCall { call_id: Seq<char>, name: Seq<char>, arguments: Seq<char> },
    HostedTool { function_type: Seq<char>, content: Option<Seq<char>> },
    ToolResult { call_id: Seq<char>, name: Seq<char>, output: Seq<char> },
}

impl View for ConversationItem {
    type V = ItemView;

    open spec fn view(&self) -> ItemView {
        match self {
            ConversationItem::UserPrompt { prompt } => ItemView::UserPrompt { prompt: prompt@ },
            ConversationItem::Message { message } => ItemView::Message { message: message.deep_view() },
            ConversationItem::ToolCall { call_id, name, arguments } => ItemView::ToolCall {
                call_id: call_id@,
                name: name@,
                arguments: arguments@,
            },
            ConversationItem::HostedTool { function_type, content } => ItemView::HostedTool {
                function_type: function_type@,
                content: match content {
                    Some(c) => Some(c@),
                    None => None,
                },
            },
            ConversationItem::ToolResult { call_id, name, output } => ItemView::ToolResult {
                call_id: call_id@,
                name: name@,
                output: output@,
            },
        }
    }
}

/// The abstract content of a [`ChatEvent`].
pub enum ChatView {
    TextDelta { provider_backend_id: ProviderBackendId, text: Seq<char> },
    ReasoningSummaryDelta { text: Seq<char> },
    OutputItem { item: ItemView },
    Done,
}

impl View for ChatEvent {
    type V = ChatView;

    open spec fn view(&self) -> ChatView {
        match self {
            ChatEvent::TextDelta { provider_backend_id, text } => ChatView::TextDelta {
                provider_backend_id: *provider_backend_id,
                text: text@,
            },
            ChatEvent::ReasoningSummaryDelta { text } => ChatView::ReasoningSummaryDelta { text: text@ },
            ChatEvent::OutputItem { item } => ChatView::OutputItem { item: item@ },
            ChatEvent::Done => ChatView::Done,
        }
    }
}

impl Clone for ProviderBackendId {
    fn clone(&self) -> (r: Self)
        ensures
            r == *self,
    {
        ProviderBackendId { provider_id: self.provider_id.clone(), backend_id: self.backend_id.clone() }
    }
}

fn clone_strings(v: &Vec<String>) -> (r: Vec<String>)
    ensures
        r.deep_view() == v.deep_view(),
{
    let mut r: Vec<String> = Vec::new();
    let n = v.len();
    let mut i: usize = 0;
    while i < n
        invariant
            n == v@.len(),
            i <= n,
            r@ == v@.subrange(0, i as int),
        decreases n - i,
    {
        r.push(v[i].clone());
        i = i + 1;
        assert(r@ =~= v@.subrange(0, i as int));
    }
    assert(r@ =~= v@);
    assert(r.deep_view() =~= v.deep_view());
    r
}

impl Clone for ConversationItem {
    fn clone(&self) -> (r: Self)
        ensures
            r@ == self@,
    {
        match self {
            ConversationItem::UserPrompt { prompt } => ConversationItem::UserPrompt { prompt: prompt.clone() },
            ConversationItem::Message { message } => ConversationItem::Message { message: clone_strings(message) },
            ConversationItem::ToolCall { call_id, name, arguments } => ConversationItem::ToolCall {
                call_id: call_id.clone(),
                name: name.clone(),
                arguments: arguments.clone(),
            },
            ConversationItem::HostedTool { function_type, content } => ConversationItem::HostedTool {
                function_type: function_type.clone(),
                content: match content {
                    Some(c) => Some(c.clone()),
                    None => None,
                },
            },
            ConversationItem::ToolResult { call_id, name, output } => ConversationItem::ToolResult {
                call_id: call_id.clone(),
                name: name.clone(),
                output: output.clone(),
            },
        }
    }
}

impl Clone for ChatEvent {
    fn clone(&self) -> (r: Self)
        ensures
            r@ == self@,
    {
        match self {
            ChatEvent::TextDelta { provider_backend_id, text } => ChatEvent::TextDelta {
                provider_backend_id: provider_backend_id.clone(),
                text: text.clone(),
            },
            ChatEvent::ReasoningSummaryDelta { text } => ChatEvent::ReasoningSummaryDelta { text: text.clone() },
            ChatEvent::OutputItem { item } => ChatEvent::OutputItem { item: item.clone() },
            ChatEvent::Done => ChatEvent::Done,
        }
    }
}

} // verus!
