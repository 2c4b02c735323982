//! MCP servers: how they are listed, what a call's answer becomes for the
//! model, and how a call bears on a server's health.
use vstd::prelude::*;
use vstd::string::*;
use crate::capability::calculator::utf8_len;
use crate::capability::process::MAX_STREAM_PAYLOAD_BYTES;
use crate::capability::shell_output::{decimal, decimal_string, leaf, open_tag_string};
use crate::extension::content::{fit_end, fit_len};
use crate::text::{chars_of, string_of};
use crate::entity::{HealthStatus, Plugin};
use crate::extension::{CapabilityFacet, CapabilityInfo};

verus! {

/// An MCP server as the app lists it.
#[derive(Clone)]
pub struct McpPluginInfo {
    pub description: String,
    pub status: HealthStatus,
    pub error: Option<String>,
    pub config: Plugin,
}

/// How a tool call ended, as far as the server's health is concerned.
#[derive(Clone, Copy, Debug, PartialEq, Eq, Structural)]
pub enum CallEnd {
    Answered,
    /// Failed for want of a connection: it could not be set up, or it was
    /// lost.
    ConnectionFailed,
    /// Failed otherwise: the server is up.
    Failed,
    /// No answer in time: a slow tool or a hung server.
    TimedOut,
}

/// A server's health after a call: an answer shows it running, a lost
/// connection shows it unhealthy, anything else leaves it as it was.
pub fn health_after_call(status: HealthStatus, end: CallEnd) -> (r: HealthStatus)
    ensures
        r == match end {
            CallEnd::Answered => HealthStatus::Running,
            CallEnd::ConnectionFailed => HealthStatus::Unhealthy,
            _ => status,
        },
{
    match end {
        CallEnd::Answered => HealthStatus::Running,
        CallEnd::ConnectionFailed => HealthStatus::Unhealthy,
        _ => status,
    }
}

/// The text blocks of an answer, in order.
pub open spec fn texts_of(blocks: Seq<Option<String>>) -> Seq<Seq<char>>
    decreases blocks.len(),
{
    if blocks.len() == 0 {
        Seq::empty()
    } else {
        let rest = texts_of(blocks.drop_last());
        match blocks.last() {
            Some(t) => rest.push(t@),
            None => rest,
        }
    }
}

/// Texts joined by newlines.
pub open spec fn join_lines(t: Seq<Seq<char>>) -> Seq<char>
    decreases t.len(),
{
    if t.len() == 0 {
        Seq::empty()
    } else if t.len() == 1 {
        t[0]
    } else {
        join_lines(t.drop_last()) + "\n"@ + t.last()
    }
}

/// The text of a tool's answer: its structured content when it has some,
/// else its text blocks (`None` for blocks of other kinds) joined by
/// newlines.
pub fn answer_text(structured: Option<String>, blocks: &Vec<Option<String>>) -> (r: String)
    ensures
        r@ == match structured {
            Some(s) => s@,
            None => join_lines(texts_of(blocks@)),
        },
{
    if let Some(s) = structured {
        return s;
    }
    let ghost bs = blocks@;
    let mut r = String::new();
    let mut count: usize = 0;
    let n = blocks.len();
    let mut i: usize = 0;
    proof {
        reveal_strlit("\n");
    }
    while i < n
        invariant
            n == bs.len(),
            bs == blocks@,
            i <= n,
            count <= i,
            count == texts_of(bs.take(i as int)).len(),
            r@ == join_lines(texts_of(bs.take(i as int))),
        decreases n - i,
    {
        proof {
            assert(bs.take(i + 1).drop_last() =~= bs.take(i as int));
            assert(bs.take(i + 1).last() == bs[i as int]);
        }
        match &blocks[i] {
            Some(t) => {
                let ghost before = texts_of(bs.take(i as int));
                if count > 0 {
                    r.append("\n");
                }
                r.append(t.as_str());
                count = count + 1;
                proof {
                    let after = before.push(t@);
                    assert(after.drop_last() =~= before);
                    if before.len() == 0 {
                        assert(join_lines(after) == t@);
                    }
                }
            },
            None => {},
        }
        i = i + 1;
    }
    assert(bs.take(n as int) =~= bs);
    r
}

/// Whether an answer's text is over the payload limit.
pub fn payload_over_limit(text: &str) -> (r: bool)
    requires
        utf8_len(text@) <= usize::MAX,
    ensures
        r == (utf8_len(text@) > MAX_STREAM_PAYLOAD_BYTES),
{
    proof {
        crate::capability::calculator::utf8_len_is_encoding_length(text@);
    }
    text.len() > MAX_STREAM_PAYLOAD_BYTES
}

/// The attributes of a cut answer: the tool, the whole size, the
/// truncation mark and, when it was written, where the whole text lies.
pub open spec fn payload_attrs(tool: Seq<char>, len: nat, path: Option<Seq<char>>) -> Seq<(Seq<char>, Seq<char>)> {
    seq![("tool"@, tool), ("total_bytes"@, decimal(len)), ("truncated"@, "true"@)] + match path {
        Some(p) => seq![("full_output"@, p)],
        None => Seq::empty(),
    }
}

/// An answer as the model gets it: whole when within the payload limit,
/// else an `mcp_output` element with the longest prefix within the limit
/// (whole characters only) and `...`.
pub open spec fn payload_text(tool: Seq<char>, text: Seq<char>, path: Option<Seq<char>>) -> Seq<char> {
    if utf8_len(text) <= MAX_STREAM_PAYLOAD_BYTES {
        text
    } else {
        leaf(
            "mcp_output"@,
            payload_attrs(tool, utf8_len(text), path),
            Some(text.take(fit_len(text, MAX_STREAM_PAYLOAD_BYTES as nat) as int) + "..."@),
        )
    }
}

/// Cuts an answer over the payload limit, given where its whole text was
/// spilled (`None` if that failed).
pub fn truncate_payload(tool: &str, text: String, spill_path: Option<String>) -> (r: String)
    requires
        utf8_len(text@) <= usize::MAX,
    ensures
        r@ == payload_text(tool@, text@, match spill_path {
            Some(p) => Some(p@),
            None => None,
        }),
{
    proof {
        crate::capability::calculator::utf8_len_is_encoding_length(text@);
    }
    let len = text.as_str().len();
    if len <= MAX_STREAM_PAYLOAD_BYTES {
        return text;
    }
    let ghost gp = match &spill_path {
        Some(p) => Some(p@),
        None => None,
    };
    let mut keys: Vec<&str> = Vec::new();
    let mut values: Vec<String> = Vec::new();
    keys.push("tool");
    values.push(tool.to_owned());
    keys.push("total_bytes");
    values.push(decimal_string(len as u128));
    keys.push("truncated");
    values.push("true".to_owned());
    match spill_path {
        Some(p) => {
            keys.push("full_output");
            values.push(p);
        },
        None => {},
    }
    assert(Seq::new(keys@.len(), |j: int| (keys@[j]@, values@[j]@)) =~= payload_attrs(tool@, utf8_len(text@), gp));
    let mut r = open_tag_string("mcp_output", &keys, &values);
    let v = chars_of(text.as_str());
    let end = fit_end(v.as_slice(), MAX_STREAM_PAYLOAD_BYTES);
    let kept = vstd::slice::slice_subrange(v.as_slice(), 0, end);
    r.append("<![CDATA[");
    r.append(string_of(kept).as_str());
    r.append("...");
    r.append("]]></mcp_output>");
    proof {
        reveal_strlit("<![CDATA[");
        reveal_strlit("...");
        reveal_strlit("]]></mcp_output>");
        reveal_strlit("mcp_output");
        reveal_strlit("]]>");
        reveal_strlit("</");
        reveal_strlit(">");
    }
    assert(r@ =~= payload_text(tool@, text@, gp));
    r
}

/// Whether a tool of a server is disabled for a facet.
pub open spec fn is_disabled(disabled: Seq<(String, String, CapabilityFacet)>, server: Seq<char>, tool: Seq<char>, facet: CapabilityFacet) -> bool {
    exists|i: int| 0 <= i < disabled.len() && #[trigger] disabled[i].0@ == server && disabled[i].1@ == tool && disabled[i].2 == facet
}

fn disabled_for(disabled: &Vec<(String, String, CapabilityFacet)>, server: &str, tool: &str) -> (r: bool)
    ensures
        r == is_disabled(disabled@, server@, tool@, CapabilityFacet::Mcp),
{
    let n = disabled.len();
    let mut i: usize = 0;
    while i < n
        invariant
            n == disabled@.len(),
            i <= n,
            forall|j: int| 0 <= j < i ==> !(#[trigger] disabled@[j].0@ == server@ && disabled@[j].1@ == tool@ && disabled@[j].2 == CapabilityFacet::Mcp),
        decreases n - i,
    {
        if crate::text::str_eq(disabled[i].0.as_str(), server) && crate::text::str_eq(disabled[i].1.as_str(), tool)
            && disabled[i].2 == CapabilityFacet::Mcp {
            return true;
        }
        i = i + 1;
    }
    false
}

/// The capabilities of an MCP server for listing: one per tool (its name
/// and description), with its MCP facet marked disabled when the user
/// turned it off.
pub fn tool_infos(server: &str, tools: Vec<(String, String)>, disabled: &Vec<(String, String, CapabilityFacet)>) -> (r: Vec<CapabilityInfo>)
    ensures
        r@.len() == tools@.len(),
        forall|i: int| 0 <= i < r@.len() ==> {
            &&& #[trigger] r@[i].id@ == tools@[i].0@
            &&& r@[i].description@ == tools@[i].1@
            &&& r@[i].facets@.len() == 1
            &&& r@[i].facets@[0].0 == CapabilityFacet::Mcp
            &&& r@[i].facets@[0].1 == is_disabled(disabled@, server@, tools@[i].0@, CapabilityFacet::Mcp)
        },
{
    let ghost ts = tools@;
    let mut r: Vec<CapabilityInfo> = Vec::new();
    for t in it: tools.into_iter()
        invariant
            it.seq() == ts,
            r@.len() == it.index(),
            forall|i: int| 0 <= i < r@.len() ==> {
                &&& #[trigger] r@[i].id@ == ts[i].0@
                &&& r@[i].description@ == ts[i].1@
                &&& r@[i].facets@.len() == 1
                &&& r@[i].facets@[0].0 == CapabilityFacet::Mcp
                &&& r@[i].facets@[0].1 == is_disabled(disabled@, server@, ts[i].0@, CapabilityFacet::Mcp)
            },
    {
        let flag = disabled_for(disabled, server, t.0.as_str());
        let mut facets: Vec<(CapabilityFacet, bool)> = Vec::new();
        facets.push((CapabilityFacet::Mcp, flag));
        r.push(CapabilityInfo { id: t.0, description: t.1, facets });
    }
    r
}

/// Why a tool call on an MCP server failed.
#[derive(Debug, PartialEq, Eq)]
pub enum McpCallError {
    /// The call names no tool.
    MissingToolName,
    /// The server, named here, has no live connection.
    Disconnected(String),
    /// No answer within the server's time limit, in seconds.
    CallTimeout { tool: String, seconds: u32 },
    /// The session was cancelled during the call.
    Cancelled,
    /// The server or its transport failed; whether the connection itself
    /// failed or was lost, and the failure described.
    Failed { connection_level: bool, message: String },
}

/// How a call's attempt ended.
#[derive(Debug)]
pub enum CallReply {
    /// The tool answered: its structured content, if any, and its content
    /// blocks (`None` for blocks that are not text).
    Answered { structured: Option<String>, blocks: Vec<Option<String>> },
    /// The attempt failed (after its retries).
    Failed { connection_level: bool, message: String },
    /// The session was cancelled.
    Cancelled,
    /// No answer within the time limit.
    TimedOut,
}

/// The tool a call is for: a tool name is needed first, then a live
/// connection to the server.
pub fn call_tool(name: Option<String>, connected: bool, server: &str) -> (r: Result<String, McpCallError>)
    ensures
        match name {
            None => r matches Err(McpCallError::MissingToolName),
            Some(n) => if connected {
                r matches Ok(t) && t@ == n@
            } else {
                r matches Err(McpCallError::Disconnected(s)) && s@ == server@
            },
        },
{
    match name {
        None => Err(McpCallError::MissingToolName),
        Some(n) => if connected {
            Ok(n)
        } else {
            Err(McpCallError::Disconnected(server.to_owned()))
        },
    }
}

/// What a call comes to, with the server's health after it: an answer gives
/// its text (before the payload limit is applied) and shows the server
/// running; a failure is handed on and marks the server unhealthy only when
/// the connection failed; a cancelled call or a timeout leaves the health
/// as it was, a timeout naming the tool and the limit.
pub fn call_outcome(tool: String, timeout_secs: u32, status: HealthStatus, reply: CallReply) -> (r: (Result<String, McpCallError>, HealthStatus))
    ensures
        match reply {
            CallReply::Answered { structured, blocks } => {
                &&& r.0 matches Ok(t) && t@ == match structured {
                    Some(s) => s@,
                    None => join_lines(texts_of(blocks@)),
                }
                &&& r.1 == HealthStatus::Running
            },
            CallReply::Failed { connection_level, message } => {
                &&& r.0 matches Err(McpCallError::Failed { connection_level: c, message: m }) && c == connection_level && m@ == message@
                &&& r.1 == if connection_level { HealthStatus::Unhealthy } else { status }
            },
            CallReply::Cancelled => r.0 matches Err(McpCallError::Cancelled) && r.1 == status,
            CallReply::TimedOut => {
                &&& r.0 matches Err(McpCallError::CallTimeout { tool: t, seconds }) && t@ == tool@ && seconds == timeout_secs
                &&& r.1 == status
            },
        },
{
    match reply {
        CallReply::Answered { structured, blocks } => {
            (Ok(answer_text(structured, &blocks)), health_after_call(status, CallEnd::Answered))
        },
        CallReply::Failed { connection_level, message } => {
            let end = if connection_level { CallEnd::ConnectionFailed } else { CallEnd::Failed };
            (Err(McpCallError::Failed { connection_level, message }), health_after_call(status, end))
        },
        CallReply::Cancelled => (Err(McpCallError::Cancelled), status),
        CallReply::TimedOut => (Err(McpCallError::CallTimeout { tool, seconds: timeout_secs }), health_after_call(status, CallEnd::TimedOut)),
    }
}

} // verus!
