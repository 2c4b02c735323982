//! How tool calls are shown in the chat.
use vstd::prelude::*;
use crate::controller::entity::{ChatRenderEvent, RenderEvent};
use crate::controller::permission_workflow::{check_result, join_space, join_words, options_view, PermissionWorkflowManager, WorkflowView};
use crate::controller::session::{join_with, message_text};
use crate::db::RestoreEntry;
use crate::provider::{ConversationItem, ItemView};
use crate::controller::tool::Disposition;
use crate::permission::entity::{choices, UserDecision};
use crate::permission::transparent::tokens;

verus! {

/// The pretty-printed form of `text` when it is JSON, as serde_json reads it
/// into a value and writes it back indented.
pub uninterp spec fn json_pretty(text: Seq<char>) -> Option<Seq<char>>;

/// Calls `serde_json::from_str` into a `Value` and `serde_json::to_string_pretty`
/// on it: a function of `text` alone; `None` when `text` is no JSON.
#[verifier::external_body]
fn pretty_json(text: &str) -> (r: Option<String>)
    ensures
        match json_pretty(text@) {
            Some(p) => r matches Some(s) && s@ == p,
            None => r is None,
        },
{
    match serde_json::from_str::<serde_json::Value>(text) {
        Ok(v) => serde_json::to_string_pretty(&v).ok(),
        Err(_) => None,
    }
}

/// Arguments as shown: pretty-printed when they are JSON, else as they are.
pub open spec fn shown_arguments(text: Seq<char>) -> Seq<char> {
    match json_pretty(text) {
        Some(p) => p,
        None => text,
    }
}

fn show_arguments(text: &str) -> (r: String)
    ensures
        r@ == shown_arguments(text@),
{
    match pretty_json(text) {
        Some(p) => p,
        None => text.to_owned(),
    }
}

/// Whether `r` shows a tool call with these parts.
pub open spec fn is_tool_call(r: RenderEvent, name: Seq<char>, arguments: Seq<char>, description: Option<Seq<char>>, decisions: Seq<crate::permission::entity::Choice>) -> bool {
    r matches RenderEvent::Chat(ChatRenderEvent::ToolCall { name: n, arguments: a, description: d, decisions: ds })
        && n@ == name && a@ == arguments && choices(ds@) == decisions
        && match description {
            Some(x) => d matches Some(y) && y@ == x,
            None => d is None,
        }
}

/// A call of a tool the provider runs itself: its type, and its content as
/// arguments.
pub fn hosted_tool_render(function_type: &str, content: &str) -> (r: RenderEvent)
    ensures
        is_tool_call(r, function_type@, shown_arguments(content@), None, Seq::empty()),
{
    let decisions: Vec<UserDecision> = Vec::new();
    assert(choices(decisions@) =~= Seq::empty());
    RenderEvent::Chat(ChatRenderEvent::ToolCall {
        name: function_type.to_owned(),
        arguments: show_arguments(content),
        description: None,
        decisions,
    })
}

/// Whether `r` shows a function call: a gated call shows its argv, its
/// description and, unless it finished, the options the user has; other
/// calls show their arguments; malformed calls are not shown, and neither
/// are gated calls whose options cannot be had.
pub open spec fn tool_call_shown(
    w: WorkflowView,
    session_id: u128,
    call_id: Seq<char>,
    name: Seq<char>,
    arguments: Seq<char>,
    disposition: Disposition,
    finished: bool,
    r: Option<RenderEvent>,
) -> bool {
    match disposition {
        Disposition::Skip => r is None,
        Disposition::Passthrough => r matches Some(e) && is_tool_call(e, name, shown_arguments(arguments), None, Seq::empty()),
        Disposition::Gated(command, description) => {
            let d = match description {
                Some(x) => Some(x@),
                None => None,
            };
            if finished {
                r matches Some(e) && is_tool_call(e, name, join_words(command.deep_view()), d, Seq::empty())
            } else {
                match check_result(w, session_id, call_id) {
                    Ok(options) => r matches Some(e) && is_tool_call(e, name, join_words(command.deep_view()), d, options),
                    Err(_) => r is None,
                }
            }
        },
    }
}

/// A function call as shown (see [`tool_call_shown`]).
pub fn tool_call_render(
    workflow: &PermissionWorkflowManager,
    session_id: u128,
    call_id: &str,
    name: &str,
    arguments: &str,
    disposition: Disposition,
    finished: bool,
) -> (r: Option<RenderEvent>)
    requires
        workflow.wf(),
    ensures
        tool_call_shown(workflow@, session_id, call_id@, name@, arguments@, disposition, finished, r),
{
    match disposition {
        Disposition::Skip => None,
        Disposition::Passthrough => {
            let decisions: Vec<UserDecision> = Vec::new();
            assert(choices(decisions@) =~= Seq::empty());
            Some(RenderEvent::Chat(ChatRenderEvent::ToolCall {
                name: name.to_owned(),
                arguments: show_arguments(arguments),
                description: None,
                decisions,
            }))
        },
        Disposition::Gated(command, description) => {
            let decisions = if finished {
                let d: Vec<UserDecision> = Vec::new();
                assert(choices(d@) =~= Seq::empty());
                d
            } else {
                match workflow.check_decision(session_id, call_id.to_owned()) {
                    Ok(d) => d,
                    Err(_) => return None,
                }
            };
            let cs = command.as_slice();
            assert(tokens(cs) =~= command.deep_view());
            Some(RenderEvent::Chat(ChatRenderEvent::ToolCall {
                name: name.to_owned(),
                arguments: join_space(cs),
                description,
                decisions,
            }))
        },
    }
}

/// Whether `r` is what replaying a stored entry shows: a prompt as the
/// user's prompt; a message with parts as one text delta of its parts on
/// separate lines, from the entry's backend; a function call as
/// [`tool_call_shown`] with the entry's finished flag; a hosted tool call
/// with its content (empty when it has none); nothing for a message without
/// parts or for anything else.
pub open spec fn history_shown(w: WorkflowView, session_id: u128, e: RestoreEntry, disposition: Disposition, r: Option<RenderEvent>) -> bool {
    match e.payload@ {
        ItemView::UserPrompt { prompt } =>
            r matches Some(RenderEvent::Chat(ChatRenderEvent::UserPrompt { text })) && text@ == prompt,
        ItemView::Message { message } => if message.len() == 0 {
            r is None
        } else {
            r matches Some(RenderEvent::Chat(ChatRenderEvent::TextDelta { provider_backend_id: b, text: t }))
                && b == e.provider_backend_id && t@ == join_with(message, '\n')
        },
        ItemView::ToolCall { call_id, name, arguments } =>
            tool_call_shown(w, session_id, call_id, name, arguments, disposition, e.finished, r),
        ItemView::HostedTool { function_type, content } =>
            r matches Some(x) && is_tool_call(x, function_type, shown_arguments(match content {
                Some(c) => c,
                None => Seq::empty(),
            }), None, Seq::empty()),
        ItemView::ToolResult { .. } => r is None,
    }
}

/// What replaying a stored entry shows (see [`history_shown`]); the
/// disposition is that of the entry's function call, if it is one.
pub fn history_render(workflow: &PermissionWorkflowManager, session_id: u128, entry: &RestoreEntry, disposition: Disposition) -> (r: Option<RenderEvent>)
    requires
        workflow.wf(),
    ensures
        history_shown(workflow@, session_id, *entry, disposition, r),
{
    match &entry.payload {
        ConversationItem::UserPrompt { prompt } => Some(RenderEvent::Chat(ChatRenderEvent::UserPrompt { text: prompt.clone() })),
        ConversationItem::Message { message } => {
            let parts = message.as_slice();
            assert(parts.deep_view() =~= message.deep_view());
            match message_text(parts) {
                Some(text) => Some(RenderEvent::Chat(ChatRenderEvent::TextDelta {
                    provider_backend_id: entry.provider_backend_id.clone(),
                    text,
                })),
                None => None,
            }
        },
        ConversationItem::ToolCall { call_id, name, arguments } => tool_call_render(
            workflow,
            session_id,
            call_id.as_str(),
            name.as_str(),
            arguments.as_str(),
            disposition,
            entry.finished,
        ),
        ConversationItem::HostedTool { function_type, content } => {
            let c: &str = match content {
                Some(c) => c.as_str(),
                None => "",
            };
            proof {
                reveal_strlit("");
            }
            assert(c@ == match content {
                Some(x) => x@,
                None => Seq::<char>::empty(),
            });
            Some(hosted_tool_render(function_type.as_str(), c))
        },
        ConversationItem::ToolResult { .. } => None,
    }
}

/// The replay of a session's stored history, entry by entry and in order:
/// element `i` is what entry `i` shows, given the disposition of its
/// function call.
pub fn replay_history(
    workflow: &PermissionWorkflowManager,
    session_id: u128,
    entries: &Vec<RestoreEntry>,
    dispositions: Vec<Disposition>,
) -> (r: Vec<Option<RenderEvent>>)
    requires
        workflow.wf(),
        entries@.len() == dispositions@.len(),
    ensures
        r@.len() == entries@.len(),
        forall|i: int| 0 <= i < r@.len() ==> history_shown(workflow@, session_id, entries@[i], dispositions@[i], #[trigger] r@[i]),
{
    let ghost ds = dispositions@;
    let n = entries.len();
    let mut r: Vec<Option<RenderEvent>> = Vec::new();
    let mut i: usize = 0;
    for d in it: dispositions.into_iter()
        invariant
            it.seq() == ds,
            ds.len() == entries@.len(),
            n == entries@.len(),
            workflow.wf(),
            i == it.index(),
            r@.len() == i,
            forall|j: int| 0 <= j < r@.len() ==> history_shown(workflow@, session_id, entries@[j], ds[j], #[trigger] r@[j]),
    {
        let x = history_render(workflow, session_id, &entries[i], d);
        r.push(x);
        i = i + 1;
    }
    r
}

} // verus!
