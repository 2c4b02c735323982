//! Tool calls: what the model asked for, whether the user let it run, and
//! the text handed back to the model.
use vstd::prelude::*;
use crate::capability::ToolResult;
use crate::permission::entity::PermissionState;

verus! {

/// A function call the model made.
#[derive(Debug)]
pub struct ToolCallPayload {
    pub call_id: String,
    pub name: String,
    pub arguments: String,
}

pub open spec fn denied_message() -> Seq<char> {
    "command was denied by the user"@
}

pub open spec fn invalid_message() -> Seq<char> {
    "the command could not be validated for permission (it may be empty or malformed); it was not executed"@
}

pub open spec fn cancelled_message() -> Seq<char> {
    "permission request was cancelled; command was not executed"@
}

/// What keeps a call from running, given the user's decision (`None` when
/// the request was dropped before a decision): nothing once allowed, and
/// otherwise the reason told to the model.
pub fn authorization_failure(decision: Option<PermissionState>) -> (r: Option<String>)
    ensures
        match decision {
            Some(PermissionState::Allow) => r is None,
            Some(PermissionState::Deny) => r matches Some(m) && m@ == denied_message(),
            Some(PermissionState::Error) => r matches Some(m) && m@ == invalid_message(),
            None => r matches Some(m) && m@ == cancelled_message(),
        },
{
    match decision {
        Some(PermissionState::Allow) => None,
        Some(PermissionState::Deny) => Some("command was denied by the user".to_owned()),
        Some(PermissionState::Error) => Some(
            "the command could not be validated for permission (it may be empty or malformed); it was not executed".to_owned(),
        ),
        None => Some("permission request was cancelled; command was not executed".to_owned()),
    }
}

/// The text handed back to the model for a tool's outcome: the text it
/// produced, a placeholder naming the type of binary output, or the error.
pub fn tool_output(outcome: Result<ToolResult, String>) -> (r: String)
    ensures
        match outcome {
            Ok(ToolResult::Text(t)) => r@ == t@,
            Ok(ToolResult::Binary { mime_type, .. }) => r@ == "<binary output: "@ + mime_type@ + ">"@,
            Err(m) => r@ == m@,
        },
{
    match outcome {
        Ok(ToolResult::Text(t)) => t,
        Ok(ToolResult::Binary { mime_type, .. }) => {
            let mut r = "<binary output: ".to_owned();
            r.append(mime_type.as_str());
            r.append(">");
            r
        },
        Err(m) => m,
    }
}

/// How a call's arguments take part in the permission check.
#[derive(Debug)]
pub enum Disposition {
    /// The argv to check, and the call's description.
    Gated(Vec<String>, Option<String>),
    /// Shown as it is; no check.
    Passthrough,
    /// Malformed arguments.
    Skip,
}

/// The argv whose permission a call needs, if any: a malformed call gets an
/// empty one, so that its check fails.
pub fn permission_command(d: Disposition) -> (r: Option<Vec<String>>)
    ensures
        match d {
            Disposition::Gated(c, _) => r matches Some(x) && x@ == c@,
            Disposition::Skip => r matches Some(x) && x@.len() == 0,
            Disposition::Passthrough => r is None,
        },
{
    match d {
        Disposition::Gated(c, _) => Some(c),
        Disposition::Skip => Some(Vec::new()),
        Disposition::Passthrough => None,
    }
}

/// How a call's arguments take part in the permission check, by its tool:
/// the shell tool is gated on the argv and description of its arguments
/// (`shell_args`, `None` when they did not parse, which makes the call
/// malformed); an MCP tool is gated on its server's name and the tool's
/// name, with the tool's description; any other tool passes through.
pub fn extract_args(
    is_shell: bool,
    spec_name: String,
    mcp_tool: Option<String>,
    spec_description: String,
    shell_args: Option<(Vec<String>, String)>,
) -> (r: Disposition)
    ensures
        if is_shell {
            match shell_args {
                Some((command, description)) => r matches Disposition::Gated(c, Some(d))
                    && c.deep_view() == command.deep_view() && d@ == description@,
                None => r is Skip,
            }
        } else {
            match mcp_tool {
                Some(t) => r matches Disposition::Gated(c, Some(d))
                    && c.deep_view() == seq![spec_name@, t@] && d@ == spec_description@,
                None => r is Passthrough,
            }
        },
{
    if is_shell {
        match shell_args {
            Some((command, description)) => Disposition::Gated(command, Some(description)),
            None => Disposition::Skip,
        }
    } else {
        match mcp_tool {
            Some(t) => {
                let mut c: Vec<String> = Vec::new();
                c.push(spec_name);
                c.push(t);
                assert(c.deep_view() =~= seq![c@[0]@, c@[1]@]);
                Disposition::Gated(c, Some(spec_description))
            },
            None => Disposition::Passthrough,
        }
    }
}

} // verus!
