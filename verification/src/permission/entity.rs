//! Verdicts and choices of the permission flow.
use vstd::prelude::*;

verus! {

/// Verdict on one argv, from least to most strict.
#[derive(Debug, Clone, Copy, PartialEq, Eq, Structural)]
pub enum ArgvDecision {
    /// Built-in safe-read allowlist hit. No prompt.
    Allow,
    /// Neither dangerous nor on the safe allowlist. Ask the user.
    Unknown,
    /// Dangerous shape; prompt with once/deny only, never persist.
    AskNoPersist,
    /// Cannot be executed via the non-interactive exec path; refuse outright.
    NotExecutable,
}

impl ArgvDecision {
    /// How strict a verdict is, from 0 (`Allow`) to 3 (`NotExecutable`).
    pub open spec fn rank(self) -> u8 {
        match self {
            ArgvDecision::Allow => 0,
            ArgvDecision::Unknown => 1,
            ArgvDecision::AskNoPersist => 2,
            ArgvDecision::NotExecutable => 3,
        }
    }

    /// Aggregation key: higher = stricter verdict.
    pub fn severity(self) -> (r: u8)
        ensures
            r == self.rank(),
    {
        match self {
            ArgvDecision::Allow => 0,
            ArgvDecision::Unknown => 1,
            ArgvDecision::AskNoPersist => 2,
            ArgvDecision::NotExecutable => 3,
        }
    }
}

/// Severity orders the verdicts: distinct verdicts never share a rank, and
/// the ranks run from `Allow` (0) to `NotExecutable` (3).
pub proof fn severity_is_a_strict_order(a: ArgvDecision, b: ArgvDecision)
    ensures
        a.rank() == b.rank() <==> a == b,
        a.rank() <= 3,
        ArgvDecision::Allow.rank() <= a.rank() <= ArgvDecision::NotExecutable.rank(),
{
}

/// Whether a command was a single argv or a composite shell expression.
#[derive(Debug, Clone, Copy, PartialEq, Eq, Structural)]
pub enum CommandType {
    Simple,
    Composite,
}

/// A classified command: its shape, its argvs and the overall verdict.
pub struct PermissionDecision {
    t: CommandType,
    parsed_commands: Vec<Vec<String>>,
    decision: ArgvDecision,
}

/// The abstract content of a [`PermissionDecision`].
pub struct DecisionView {
    pub command_type: CommandType,
    pub parsed_commands: Seq<Seq<Seq<char>>>,
    pub decision: ArgvDecision,
}

impl View for PermissionDecision {
    type V = DecisionView;

    closed spec fn view(&self) -> DecisionView {
        DecisionView {
            command_type: self.t,
            parsed_commands: self.parsed_commands.deep_view(),
            decision: self.decision,
        }
    }
}

impl PermissionDecision {
    pub fn new(t: CommandType, parsed_commands: Vec<Vec<String>>, decision: ArgvDecision) -> (r: Self)
        ensures
            r@.command_type == t,
            r@.parsed_commands == parsed_commands.deep_view(),
            r@.decision == decision,
    {
        PermissionDecision { t, parsed_commands, decision }
    }

    pub fn command_type(&self) -> (r: &CommandType)
        ensures
            *r == self@.command_type,
    {
        &self.t
    }

    pub fn parsed_commands(&self) -> (r: &[Vec<String>])
        ensures
            r.deep_view() == self@.parsed_commands,
    {
        let r = self.parsed_commands.as_slice();
        assert(r.deep_view() =~= self.parsed_commands.deep_view());
        r
    }

    pub fn decision(&self) -> (r: ArgvDecision)
        ensures
            r == self@.decision,
    {
        self.decision
    }
}

/// Outcome of a permission request.
#[derive(Debug, Clone, Copy, PartialEq, Eq, Structural)]
pub enum PermissionState {
    Allow,
    Deny,
    Error,
}

/// A choice offered to, and made by, the user. Session ids are the 128-bit
/// values of the session UUIDs.
#[derive(Debug, PartialEq, Eq)]
pub enum UserDecision {
    AllowOnce { call_id: String },
    Allow { call_id: String, command: String, glob: bool },
    AllowSession { session_id: u128, call_id: String },
    IgnorePermission { session_id: u128, call_id: String },
    Deny { call_id: String },
}

/// The abstract content of a [`UserDecision`].
pub enum Choice {
    AllowOnce { call_id: Seq<char> },
    Allow { call_id: Seq<char>, command: Seq<char>, glob: bool },
    AllowSession { session_id: u128, call_id: Seq<char> },
    IgnorePermission { session_id: u128, call_id: Seq<char> },
    Deny { call_id: Seq<char> },
}

impl View for UserDecision {
    type V = Choice;

    open spec fn view(&self) -> Choice {
        match self {
            UserDecision::AllowOnce { call_id } => Choice::AllowOnce { call_id: call_id@ },
            UserDecision::Allow { call_id, command, glob } => Choice::Allow {
                call_id: call_id@,
                command: command@,
                glob: *glob,
            },
            UserDecision::AllowSession { session_id, call_id } => Choice::AllowSession {
                session_id: *session_id,
                call_id: call_id@,
            },
            UserDecision::IgnorePermission { session_id, call_id } => Choice::IgnorePermission {
                session_id: *session_id,
                call_id: call_id@,
            },
            UserDecision::Deny { call_id } => Choice::Deny { call_id: call_id@ },
        }
    }
}

/// The abstract content of a list of choices.
pub open spec fn choices(v: Seq<UserDecision>) -> Seq<Choice> {
    v.map_values(|d: UserDecision| d@)
}

/// Why a command could not be classified.
#[derive(Debug, Clone, Copy, PartialEq, Eq, Structural)]
pub enum PermissionError {
    EmptyCommand,
}

} // verus!
