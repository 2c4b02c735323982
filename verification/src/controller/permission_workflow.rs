//! The permission workflow: which tool calls may run, which must wait for
//! the user, and what the user may choose.
use vstd::prelude::*;
use vstd::string::*;
use crate::permission::entity::{
    choices, ArgvDecision, Choice, CommandType, DecisionView, PermissionDecision, PermissionError,
    PermissionState, UserDecision,
};
use crate::permission::transparent::tokens;
use crate::text::{dash, is_dash};
use crate::table::{has_key, keys_unique, lemma_table_absent, lemma_table_at, lemma_table_push, lemma_table_remove, lemma_table_update, map_keep, table};

verus! {

/// `t` joined by single spaces.
pub open spec fn join_words(t: Seq<Seq<char>>) -> Seq<char>
    decreases t.len(),
{
    if t.len() == 0 {
        Seq::empty()
    } else if t.len() == 1 {
        t[0]
    } else {
        join_words(t.drop_last()) + seq![' '] + t.last()
    }
}

/// The words of `v` joined by single spaces.
pub fn join_space(v: &[String]) -> (r: String)
    ensures
        r@ == join_words(tokens(v)),
{
    let ghost t = tokens(v);
    let n = v.len();
    let mut r = String::new();
    let mut i: usize = 0;
    proof {
        reveal_strlit(" ");
    }
    while i < n
        invariant
            t == tokens(v),
            n == v@.len(),
            i <= n,
            r@ == join_words(t.subrange(0, i as int)),
        decreases n - i,
    {
        assert(t[i as int] == v@[i as int]@);
        proof {
            reveal_strlit(" ");
        }
        let ghost prev = r@;
        if i > 0 {
            r.append(" ");
        }
        r.append(v[i].as_str());
        i = i + 1;
        let ghost u = t.subrange(0, i as int);
        assert(u.drop_last() =~= t.subrange(0, i - 1));
        if i == 1 {
            assert(r@ =~= u[0]);
        } else {
            assert(r@ =~= prev + seq![' '] + u.last());
        }
    }
    assert(t.subrange(0, n as int) =~= t);
    r
}

/// The persistent choices for an argv: the program alone, and the program
/// with its subcommand when the second word is not an option.
pub open spec fn decision_options(call_id: Seq<char>, t: Seq<Seq<char>>) -> Seq<Choice> {
    if t.len() == 0 {
        Seq::empty()
    } else if t.len() > 1 && !dash(t[1]) {
        seq![
            Choice::Allow { call_id, command: t[0], glob: true },
            Choice::Allow { call_id, command: join_words(t.subrange(0, 2)), glob: true },
        ]
    } else {
        seq![Choice::Allow { call_id, command: t[0], glob: true }]
    }
}

/// The four choices for a dangerous or composite command.
pub open spec fn unsafe_options(call_id: Seq<char>, session_id: u128) -> Seq<Choice> {
    seq![
        Choice::AllowOnce { call_id },
        Choice::AllowSession { session_id, call_id },
        Choice::IgnorePermission { session_id, call_id },
        Choice::Deny { call_id },
    ]
}

/// Options for a dangerous or composite command: once, for the session,
/// ignore for the session, or deny.
pub fn generate_unsafe_decision_options(call_id: String, session_id: u128) -> (r: Vec<UserDecision>)
    ensures
        choices(r@) == unsafe_options(call_id@, session_id),
{
    let mut r: Vec<UserDecision> = Vec::new();
    r.push(UserDecision::AllowOnce { call_id: call_id.clone() });
    r.push(UserDecision::AllowSession { session_id, call_id: call_id.clone() });
    r.push(UserDecision::IgnorePermission { session_id, call_id: call_id.clone() });
    r.push(UserDecision::Deny { call_id });
    assert(choices(r@) =~= unsafe_options(call_id@, session_id));
    r
}

/// Persistent allow options for an argv, broadest first.
pub fn generate_decision_options(call_id: String, command_vec: &[String]) -> (r: Vec<UserDecision>)
    ensures
        choices(r@) == decision_options(call_id@, tokens(command_vec)),
{
    let ghost t = tokens(command_vec);
    let n = command_vec.len();
    let mut r: Vec<UserDecision> = Vec::new();
    if n == 0 {
        assert(choices(r@) =~= Seq::<Choice>::empty());
        return r;
    }
    assert(t[0] == command_vec@[0]@);
    r.push(UserDecision::Allow { call_id: call_id.clone(), command: command_vec[0].clone(), glob: true });
    if n > 1 && {
        assert(t[1] == command_vec@[1]@);
        !is_dash(command_vec[1].as_str())
    } {
        let two = vstd::slice::slice_subrange(command_vec, 0, 2);
        assert(tokens(two) =~= t.subrange(0, 2));
        r.push(UserDecision::Allow { call_id, command: join_space(two), glob: true });
    }
    assert(choices(r@) =~= decision_options(call_id@, t));
    r
}


/// How long a resolved request is kept before it is evicted, in seconds.
pub const PERMISSION_EVICT_TTL_SECS: u64 = 600;

/// Why a workflow step failed.
#[derive(Debug, PartialEq, Eq)]
pub enum PermissionWorkflowError {
    Permission(PermissionError),
    MissingCallerId(String),
    /// The session entry is created when a call is registered; its absence
    /// afterwards means a decision arrived without a registration.
    MissingSession(u128),
    ChannelClosed,
    AlreadyResolved(String),
}

/// The abstract content of a [`PermissionWorkflowError`].
pub enum WorkflowFailure {
    Permission(PermissionError),
    MissingCallerId(Seq<char>),
    MissingSession(u128),
    ChannelClosed,
    AlreadyResolved(Seq<char>),
}

impl View for PermissionWorkflowError {
    type V = WorkflowFailure;

    open spec fn view(&self) -> WorkflowFailure {
        match self {
            PermissionWorkflowError::Permission(e) => WorkflowFailure::Permission(*e),
            PermissionWorkflowError::MissingCallerId(c) => WorkflowFailure::MissingCallerId(c@),
            PermissionWorkflowError::MissingSession(s) => WorkflowFailure::MissingSession(*s),
            PermissionWorkflowError::ChannelClosed => WorkflowFailure::ChannelClosed,
            PermissionWorkflowError::AlreadyResolved(c) => WorkflowFailure::AlreadyResolved(c@),
        }
    }
}

/// What a user decision leads to: a resolution, or an allow rule that the
/// caller must persist before the request resolves (see
/// [`PermissionWorkflowManager::finish_allow`]).
#[derive(Debug, PartialEq, Eq)]
pub enum Decided {
    Resolved(PermissionState),
    Persist { call_id: String, command: String, glob: bool },
}

pub enum DecidedView {
    Resolved(PermissionState),
    Persist { call_id: Seq<char>, command: Seq<char>, glob: bool },
}

impl View for Decided {
    type V = DecidedView;

    open spec fn view(&self) -> DecidedView {
        match self {
            Decided::Resolved(s) => DecidedView::Resolved(*s),
            Decided::Persist { call_id, command, glob } => DecidedView::Persist {
                call_id: call_id@,
                command: command@,
                glob: *glob,
            },
        }
    }
}

/// What is known of one tool call's permission.
pub struct RequestView {
    pub decision: DecisionView,
    /// `None` while the user has not decided.
    pub resolved: Option<PermissionState>,
    pub command: Seq<Seq<char>>,
    /// `None` while pending (kept forever); the eviction deadline, in
    /// seconds, once resolved.
    pub evict_at: Option<u64>,
}

/// What a session allows without asking.
pub struct SessionView {
    /// Every composite command is allowed.
    pub always: bool,
    /// Composite commands allowed in this session, as joined text.
    pub allowlist: Set<Seq<char>>,
}

pub struct WorkflowView {
    pub sessions: Map<u128, SessionView>,
    pub requests: Map<Seq<char>, RequestView>,
}

struct SessionPermission {
    id: u128,
    always: bool,
    allowlist: Vec<String>,
}

struct PermissionRequest {
    call_id: String,
    decision: PermissionDecision,
    resolved: Option<PermissionState>,
    command: Vec<String>,
    evict_at: Option<u64>,
}

/// The permission workflow's state: per session and per tool call.
pub struct PermissionWorkflowManager {
    sessions: Vec<SessionPermission>,
    requests: Vec<PermissionRequest>,
}

spec fn session_key(s: SessionPermission) -> u128 {
    s.id
}

spec fn session_view(s: SessionPermission) -> SessionView {
    SessionView {
        always: s.always,
        allowlist: Set::new(|c: Seq<char>| exists|i: int| 0 <= i < s.allowlist@.len() && #[trigger] s.allowlist@[i]@ == c),
    }
}

spec fn request_key(r: PermissionRequest) -> Seq<char> {
    r.call_id@
}

spec fn request_view(r: PermissionRequest) -> RequestView {
    RequestView { decision: r.decision@, resolved: r.resolved, command: r.command.deep_view(), evict_at: r.evict_at }
}

impl View for PermissionWorkflowManager {
    type V = WorkflowView;

    closed spec fn view(&self) -> WorkflowView {
        WorkflowView {
            sessions: table(self.sessions@, |s: SessionPermission| session_key(s), |s: SessionPermission| session_view(s)),
            requests: table(self.requests@, |r: PermissionRequest| request_key(r), |r: PermissionRequest| request_view(r)),
        }
    }
}

/// A request for a simple command carries the argv it was classified on.
pub open spec fn request_ok(r: RequestView) -> bool {
    r.decision.command_type == CommandType::Simple ==> r.decision.parsed_commands.len() > 0
}

/// The deadline of a request resolved at `now`.
pub open spec fn deadline(now: u64) -> u64 {
    (now + PERMISSION_EVICT_TTL_SECS) as u64
}

pub open spec fn empty_session() -> SessionView {
    SessionView { always: false, allowlist: Set::empty() }
}

/// Decision recorded for a composite command that its session allows.
pub open spec fn session_allowed_decision() -> DecisionView {
    DecisionView { command_type: CommandType::Composite, parsed_commands: Seq::empty(), decision: ArgvDecision::Allow }
}

/// Decision recorded when classification failed.
pub open spec fn failed_decision() -> DecisionView {
    DecisionView {
        command_type: CommandType::Composite,
        parsed_commands: Seq::empty(),
        decision: ArgvDecision::NotExecutable,
    }
}

/// The request registered for `command` given its classification.
pub open spec fn registered(
    session: SessionView,
    command: Seq<Seq<char>>,
    classified: Result<DecisionView, PermissionError>,
    now: u64,
) -> RequestView {
    let allows = session.always || session.allowlist.contains(join_words(command));
    match classified {
        Ok(d) => {
            if allows && d.command_type == CommandType::Composite {
                RequestView {
                    decision: session_allowed_decision(),
                    resolved: Some(PermissionState::Allow),
                    command,
                    evict_at: Some(deadline(now)),
                }
            } else if d.decision == ArgvDecision::Allow {
                RequestView { decision: d, resolved: Some(PermissionState::Allow), command, evict_at: Some(deadline(now)) }
            } else if d.decision == ArgvDecision::NotExecutable {
                RequestView { decision: d, resolved: Some(PermissionState::Deny), command, evict_at: Some(deadline(now)) }
            } else {
                RequestView { decision: d, resolved: None, command, evict_at: None }
            }
        },
        Err(_) => RequestView {
            decision: failed_decision(),
            resolved: Some(PermissionState::Error),
            command,
            evict_at: Some(deadline(now)),
        },
    }
}

/// Registering a tool call: its session gets an entry, and the call a request.
pub open spec fn init_next(
    v: WorkflowView,
    session_id: u128,
    call_id: Seq<char>,
    command: Seq<Seq<char>>,
    classified: Result<DecisionView, PermissionError>,
    now: u64,
) -> WorkflowView {
    let session = if v.sessions.contains_key(session_id) { v.sessions[session_id] } else { empty_session() };
    WorkflowView {
        sessions: v.sessions.insert(session_id, session),
        requests: v.requests.insert(call_id, registered(session, command, classified, now)),
    }
}

/// The options offered for a call.
pub open spec fn check_result(v: WorkflowView, session_id: u128, call_id: Seq<char>) -> Result<Seq<Choice>, WorkflowFailure> {
    if !v.requests.contains_key(call_id) {
        Err(WorkflowFailure::MissingCallerId(call_id))
    } else {
        let r = v.requests[call_id];
        if r.resolved is Some {
            Ok(Seq::empty())
        } else if r.decision.command_type == CommandType::Composite {
            Ok(unsafe_options(call_id, session_id))
        } else if r.decision.decision == ArgvDecision::Unknown {
            Ok(seq![Choice::AllowOnce { call_id }] + decision_options(call_id, r.decision.parsed_commands[0])
                + seq![Choice::Deny { call_id }])
        } else if r.decision.decision == ArgvDecision::AskNoPersist {
            Ok(unsafe_options(call_id, session_id))
        } else {
            Ok(Seq::empty())
        }
    }
}

/// Why a decision about `call_id` cannot be taken, if it cannot.
pub open spec fn guard(v: WorkflowView, call_id: Seq<char>) -> Option<WorkflowFailure> {
    if !v.requests.contains_key(call_id) {
        Some(WorkflowFailure::MissingCallerId(call_id))
    } else if v.requests[call_id].resolved is Some {
        Some(WorkflowFailure::AlreadyResolved(call_id))
    } else {
        None
    }
}

/// The request for `call_id` resolved to `state` at `now`.
pub open spec fn resolve(v: WorkflowView, call_id: Seq<char>, state: PermissionState, now: u64) -> WorkflowView {
    WorkflowView {
        sessions: v.sessions,
        requests: v.requests.insert(
            call_id,
            RequestView { resolved: Some(state), evict_at: Some(deadline(now)), ..v.requests[call_id] },
        ),
    }
}

pub open spec fn choice_call_id(d: Choice) -> Seq<char> {
    match d {
        Choice::AllowOnce { call_id } => call_id,
        Choice::Allow { call_id, .. } => call_id,
        Choice::AllowSession { call_id, .. } => call_id,
        Choice::IgnorePermission { call_id, .. } => call_id,
        Choice::Deny { call_id } => call_id,
    }
}

/// A user decision applied to the workflow: the next state and the outcome.
pub open spec fn decide_next(v: WorkflowView, d: Choice, now: u64) -> (WorkflowView, Result<DecidedView, WorkflowFailure>) {
    let call_id = choice_call_id(d);
    match guard(v, call_id) {
        Some(f) => (v, Err(f)),
        None => match d {
            Choice::AllowOnce { .. } => (resolve(v, call_id, PermissionState::Allow, now), Ok(DecidedView::Resolved(PermissionState::Allow))),
            Choice::Allow { call_id, command, glob } => (v, Ok(DecidedView::Persist { call_id, command, glob })),
            Choice::AllowSession { session_id, .. } => {
                if v.sessions.contains_key(session_id) {
                    let s = v.sessions[session_id];
                    let allowed = SessionView {
                        allowlist: s.allowlist.insert(join_words(v.requests[call_id].command)),
                        ..s
                    };
                    let w = WorkflowView { sessions: v.sessions.insert(session_id, allowed), requests: v.requests };
                    (resolve(w, call_id, PermissionState::Allow, now), Ok(DecidedView::Resolved(PermissionState::Allow)))
                } else {
                    (resolve(v, call_id, PermissionState::Deny, now), Err(WorkflowFailure::MissingSession(session_id)))
                }
            },
            Choice::IgnorePermission { session_id, .. } => {
                if v.sessions.contains_key(session_id) {
                    let s = v.sessions[session_id];
                    let w = WorkflowView {
                        sessions: v.sessions.insert(session_id, SessionView { always: true, ..s }),
                        requests: v.requests,
                    };
                    (resolve(w, call_id, PermissionState::Allow, now), Ok(DecidedView::Resolved(PermissionState::Allow)))
                } else {
                    (resolve(v, call_id, PermissionState::Deny, now), Err(WorkflowFailure::MissingSession(session_id)))
                }
            },
            Choice::Deny { .. } => (resolve(v, call_id, PermissionState::Deny, now), Ok(DecidedView::Resolved(PermissionState::Deny))),
        },
    }
}

/// Requests still kept at `now`: pending ones, and resolved ones before
/// their deadline.
pub open spec fn kept(now: u64) -> spec_fn(RequestView) -> bool {
    |r: RequestView| r.evict_at is None || now < r.evict_at->0
}

impl PermissionWorkflowManager {
    /// Keys are distinct, and every request for a simple command carries
    /// its argv.
    pub closed spec fn wf(&self) -> bool {
        &&& keys_unique(self.sessions@, |s: SessionPermission| session_key(s))
        &&& keys_unique(self.requests@, |r: PermissionRequest| request_key(r))
        &&& forall|i: int| 0 <= i < self.requests@.len() ==> request_ok(request_view(#[trigger] self.requests@[i]))
    }

    pub fn new() -> (r: Self)
        ensures
            r.wf(),
            r@.sessions == Map::<u128, SessionView>::empty(),
            r@.requests == Map::<Seq<char>, RequestView>::empty(),
    {
        let r = PermissionWorkflowManager { sessions: Vec::new(), requests: Vec::new() };
        assert(r@.sessions =~= Map::<u128, SessionView>::empty());
        assert(r@.requests =~= Map::<Seq<char>, RequestView>::empty());
        r
    }

    fn find_request(&self, call_id: &str) -> (r: Option<usize>)
        requires
            self.wf(),
        ensures
            match r {
                Some(i) => i < self.requests@.len() && self.requests@[i as int].call_id@ == call_id@
                    && self@.requests.contains_key(call_id@)
                    && self@.requests[call_id@] == request_view(self.requests@[i as int]),
                None => !self@.requests.contains_key(call_id@),
            },
    {
        let n = self.requests.len();
        let mut i: usize = 0;
        while i < n
            invariant
                self.wf(),
                n == self.requests@.len(),
                i <= n,
                forall|j: int| 0 <= j < i ==> #[trigger] request_key(self.requests@[j]) != call_id@,
            decreases n - i,
        {
            if crate::text::str_eq(self.requests[i].call_id.as_str(), call_id) {
                proof {
                    lemma_table_at(self.requests@, |r: PermissionRequest| request_key(r), |r: PermissionRequest| request_view(r), i as int);
                }
                return Some(i);
            }
            i = i + 1;
        }
        proof {
            lemma_table_absent(self.requests@, |r: PermissionRequest| request_key(r), |r: PermissionRequest| request_view(r), call_id@);
        }
        None
    }

    fn find_session(&self, session_id: u128) -> (r: Option<usize>)
        requires
            self.wf(),
        ensures
            match r {
                Some(i) => i < self.sessions@.len() && self.sessions@[i as int].id == session_id
                    && self@.sessions.contains_key(session_id)
                    && self@.sessions[session_id] == session_view(self.sessions@[i as int]),
                None => !self@.sessions.contains_key(session_id),
            },
    {
        let n = self.sessions.len();
        let mut i: usize = 0;
        while i < n
            invariant
                self.wf(),
                n == self.sessions@.len(),
                i <= n,
                forall|j: int| 0 <= j < i ==> #[trigger] session_key(self.sessions@[j]) != session_id,
            decreases n - i,
        {
            if self.sessions[i].id == session_id {
                proof {
                    lemma_table_at(self.sessions@, |s: SessionPermission| session_key(s), |s: SessionPermission| session_view(s), i as int);
                }
                return Some(i);
            }
            i = i + 1;
        }
        proof {
            lemma_table_absent(self.sessions@, |s: SessionPermission| session_key(s), |s: SessionPermission| session_view(s), session_id);
        }
        None
    }

    /// Replaces the request at `i` by `e`, which has the same call id.
    fn put_request(&mut self, i: usize, e: PermissionRequest)
        requires
            old(self).wf(),
            i < old(self).requests@.len(),
            e.call_id@ == old(self).requests@[i as int].call_id@,
            request_ok(request_view(e)),
        ensures
            final(self).wf(),
            final(self).sessions == old(self).sessions,
            final(self).requests@ == old(self).requests@.update(i as int, e),
            final(self)@.sessions == old(self)@.sessions,
            final(self)@.requests == old(self)@.requests.insert(e.call_id@, request_view(e)),
    {
        let ghost s0 = self.requests@;
        let _ = self.requests.remove(i);
        self.requests.insert(i, e);
        assert(self.requests@ =~= s0.update(i as int, e));
        proof {
            lemma_table_update(s0, |r: PermissionRequest| request_key(r), |r: PermissionRequest| request_view(r), i as int, e);
        }
    }

    /// Adds or replaces the request for `e.call_id`.
    fn upsert_request(&mut self, e: PermissionRequest)
        requires
            old(self).wf(),
            request_ok(request_view(e)),
        ensures
            final(self).wf(),
            final(self)@.sessions == old(self)@.sessions,
            final(self)@.requests == old(self)@.requests.insert(e.call_id@, request_view(e)),
    {
        match self.find_request(e.call_id.as_str()) {
            Some(i) => self.put_request(i, e),
            None => {
                let ghost s0 = self.requests@;
                self.requests.push(e);
                proof {
                    lemma_table_push(s0, |r: PermissionRequest| request_key(r), |r: PermissionRequest| request_view(r), e);
                }
            },
        }
    }

    /// Resolves the request at `i` to `state`, due for eviction after `now`.
    fn resolve_at(&mut self, i: usize, state: PermissionState, now: u64)
        requires
            old(self).wf(),
            i < old(self).requests@.len(),
            now <= u64::MAX - PERMISSION_EVICT_TTL_SECS,
        ensures
            final(self).wf(),
            final(self).sessions == old(self).sessions,
            final(self)@ == resolve(old(self)@, old(self).requests@[i as int].call_id@, state, now),
    {
        proof {
            lemma_table_at(self.requests@, |r: PermissionRequest| request_key(r), |r: PermissionRequest| request_view(r), i as int);
        }
        let ghost s0 = self.requests@;
        let mut e = self.requests.remove(i);
        e.resolved = Some(state);
        e.evict_at = Some(now + PERMISSION_EVICT_TTL_SECS);
        self.requests.insert(i, e);
        assert(self.requests@ =~= s0.update(i as int, e));
        proof {
            assert(request_ok(request_view(s0[i as int])));
            lemma_table_update(s0, |r: PermissionRequest| request_key(r), |r: PermissionRequest| request_view(r), i as int, e);
        }
    }
}

/// Whether some string of `v` equals `s`.
fn contains_string(v: &Vec<String>, s: &str) -> (r: bool)
    ensures
        r == exists|i: int| 0 <= i < v@.len() && #[trigger] v@[i]@ == s@,
{
    let n = v.len();
    let mut i: usize = 0;
    while i < n
        invariant
            n == v@.len(),
            i <= n,
            forall|j: int| 0 <= j < i ==> #[trigger] v@[j]@ != s@,
        decreases n - i,
    {
        if crate::text::str_eq(v[i].as_str(), s) {
            return true;
        }
        i = i + 1;
    }
    false
}

/// The abstract content of a classification outcome.
pub open spec fn classified_view(c: Result<PermissionDecision, PermissionError>) -> Result<DecisionView, PermissionError> {
    match c {
        Ok(d) => Ok(d@),
        Err(e) => Err(e),
    }
}

impl PermissionWorkflowManager {
    /// Registers a tool call with the classification of its command:
    /// creates the session's entry if it has none, and records the request,
    /// already resolved where no user decision is needed.
    pub fn init_permission_workflow(
        &mut self,
        session_id: u128,
        call_id: String,
        command: Vec<String>,
        classified: Result<PermissionDecision, PermissionError>,
        now: u64,
    )
        requires
            old(self).wf(),
            now <= u64::MAX - PERMISSION_EVICT_TTL_SECS,
            classified matches Ok(d) ==> request_ok(RequestView { decision: d@, resolved: None, command: Seq::empty(), evict_at: None }),
        ensures
            final(self).wf(),
            final(self)@ == init_next(old(self)@, session_id, call_id@, command.deep_view(), classified_view(classified), now),
    {
        let ghost v0 = self@;
        let ghost cmd = command.deep_view();
        let cs = command.as_slice();
        assert(tokens(cs) =~= cmd);
        let joined = join_space(cs);
        let allows = match self.find_session(session_id) {
            Some(i) => {
                let listed = contains_string(&self.sessions[i].allowlist, joined.as_str());
                proof {
                    let sv = session_view(self.sessions@[i as int]);
                    assert(listed == sv.allowlist.contains(join_words(cmd)));
                    assert(self@.sessions.insert(session_id, sv) =~= self@.sessions);
                }
                self.sessions[i].always || listed
            },
            None => {
                let e = SessionPermission { id: session_id, always: false, allowlist: Vec::new() };
                let ghost s0 = self.sessions@;
                self.sessions.push(e);
                proof {
                    lemma_table_push(s0, |s: SessionPermission| session_key(s), |s: SessionPermission| session_view(s), e);
                    assert(session_view(e).allowlist =~= Set::<Seq<char>>::empty());
                    assert forall|j: int| 0 <= j < self.requests@.len() implies request_ok(request_view(#[trigger] self.requests@[j])) by {}
                }
                false
            },
        };
        let ghost session = if v0.sessions.contains_key(session_id) { v0.sessions[session_id] } else { empty_session() };
        assert(allows == (session.always || session.allowlist.contains(join_words(cmd))));
        assert(self@.sessions == v0.sessions.insert(session_id, session));
        let req = match classified {
            Ok(decision) => {
                if allows && *decision.command_type() == CommandType::Composite {
                    let d = PermissionDecision::new(CommandType::Composite, Vec::new(), ArgvDecision::Allow);
                    assert(d@.parsed_commands =~= Seq::<Seq<Seq<char>>>::empty());
                    PermissionRequest {
                        call_id,
                        decision: d,
                        resolved: Some(PermissionState::Allow),
                        command,
                        evict_at: Some(now + PERMISSION_EVICT_TTL_SECS),
                    }
                } else {
                    let (resolved, evict_at) = match decision.decision() {
                        ArgvDecision::Allow => (Some(PermissionState::Allow), Some(now + PERMISSION_EVICT_TTL_SECS)),
                        ArgvDecision::NotExecutable => (Some(PermissionState::Deny), Some(now + PERMISSION_EVICT_TTL_SECS)),
                        _ => (None, None),
                    };
                    PermissionRequest { call_id, decision, resolved, command, evict_at }
                }
            },
            Err(_) => {
                let d = PermissionDecision::new(CommandType::Composite, Vec::new(), ArgvDecision::NotExecutable);
                assert(d@.parsed_commands =~= Seq::<Seq<Seq<char>>>::empty());
                PermissionRequest {
                    call_id,
                    decision: d,
                    resolved: Some(PermissionState::Error),
                    command,
                    evict_at: Some(now + PERMISSION_EVICT_TTL_SECS),
                }
            },
        };
        assert(request_view(req) == registered(session, cmd, classified_view(classified), now));
        self.upsert_request(req);
    }
}

/// The abstract content of a decision outcome.
pub open spec fn outcome_view(r: Result<Decided, PermissionWorkflowError>) -> Result<DecidedView, WorkflowFailure> {
    match r {
        Ok(d) => Ok(d@),
        Err(e) => Err(e@),
    }
}

/// The abstract content of a list of options, or of the failure.
pub open spec fn options_view(r: Result<Vec<UserDecision>, PermissionWorkflowError>) -> Result<Seq<Choice>, WorkflowFailure> {
    match r {
        Ok(v) => Ok(choices(v@)),
        Err(e) => Err(e@),
    }
}

impl PermissionWorkflowManager {
    /// The index of the pending request for `call_id`, or why a decision on
    /// it cannot be taken.
    fn guard_index(&self, call_id: &str) -> (r: Result<usize, PermissionWorkflowError>)
        requires
            self.wf(),
        ensures
            match r {
                Ok(i) => guard(self@, call_id@) is None && i < self.requests@.len()
                    && self.requests@[i as int].call_id@ == call_id@,
                Err(e) => guard(self@, call_id@) == Some(e@),
            },
    {
        match self.find_request(call_id) {
            None => Err(PermissionWorkflowError::MissingCallerId(call_id.to_owned())),
            Some(i) => {
                if self.requests[i].resolved.is_some() {
                    Err(PermissionWorkflowError::AlreadyResolved(call_id.to_owned()))
                } else {
                    Ok(i)
                }
            },
        }
    }

    /// The options to offer the user for `call_id`: none once it is
    /// resolved; otherwise those its classification calls for.
    pub fn check_decision(&self, session_id: u128, call_id: String) -> (r: Result<Vec<UserDecision>, PermissionWorkflowError>)
        requires
            self.wf(),
        ensures
            options_view(r) == check_result(self@, session_id, call_id@),
    {
        match self.find_request(call_id.as_str()) {
            None => Err(PermissionWorkflowError::MissingCallerId(call_id)),
            Some(i) => {
                let req = &self.requests[i];
                if req.resolved.is_some() {
                    let r: Vec<UserDecision> = Vec::new();
                    assert(choices(r@) =~= Seq::<Choice>::empty());
                    return Ok(r);
                }
                match req.decision.command_type() {
                    CommandType::Composite => Ok(generate_unsafe_decision_options(call_id, session_id)),
                    CommandType::Simple => match req.decision.decision() {
                        ArgvDecision::Unknown => {
                            assert(request_ok(request_view(self.requests@[i as int])));
                            let parsed = req.decision.parsed_commands();
                            let first = parsed[0].as_slice();
                            assert(tokens(first) =~= req.decision@.parsed_commands[0]);
                            let mut opts: Vec<UserDecision> = Vec::new();
                            opts.push(UserDecision::AllowOnce { call_id: call_id.clone() });
                            let mut more = generate_decision_options(call_id.clone(), first);
                            let ghost mid = opts@;
                            let ghost added = more@;
                            opts.append(&mut more);
                            opts.push(UserDecision::Deny { call_id });
                            assert(choices(opts@) =~= seq![Choice::AllowOnce { call_id: call_id@ }] + choices(added)
                                + seq![Choice::Deny { call_id: call_id@ }]);
                            Ok(opts)
                        },
                        ArgvDecision::AskNoPersist => Ok(generate_unsafe_decision_options(call_id, session_id)),
                        _ => {
                            let r: Vec<UserDecision> = Vec::new();
                            assert(choices(r@) =~= Seq::<Choice>::empty());
                            Ok(r)
                        },
                    },
                }
            },
        }
    }

    /// The resolution of `call_id` so far: `None` while the user has not
    /// decided.
    pub fn wait_decision(&self, call_id: String) -> (r: Result<Option<PermissionState>, PermissionWorkflowError>)
        requires
            self.wf(),
        ensures
            match r {
                Ok(s) => self@.requests.contains_key(call_id@) && s == self@.requests[call_id@].resolved,
                Err(e) => !self@.requests.contains_key(call_id@) && e@ == WorkflowFailure::MissingCallerId(call_id@),
            },
    {
        match self.find_request(call_id.as_str()) {
            None => Err(PermissionWorkflowError::MissingCallerId(call_id)),
            Some(i) => Ok(self.requests[i].resolved),
        }
    }
}

impl PermissionWorkflowManager {
    /// Applies the user's decision. A persistent allow is handed back as
    /// [`Decided::Persist`]: the caller stores the rule, then calls
    /// [`PermissionWorkflowManager::finish_allow`].
    pub fn decide(&mut self, user_decision: UserDecision, now: u64) -> (r: Result<Decided, PermissionWorkflowError>)
        requires
            old(self).wf(),
            now <= u64::MAX - PERMISSION_EVICT_TTL_SECS,
        ensures
            final(self).wf(),
            decide_next(old(self)@, user_decision@, now) == (final(self)@, outcome_view(r)),
    {
        let ghost v0 = self@;
        match user_decision {
            UserDecision::AllowOnce { call_id } => {
                let i = match self.guard_index(call_id.as_str()) {
                    Ok(i) => i,
                    Err(e) => return Err(e),
                };
                self.resolve_at(i, PermissionState::Allow, now);
                Ok(Decided::Resolved(PermissionState::Allow))
            },
            UserDecision::Allow { call_id, command, glob } => {
                match self.guard_index(call_id.as_str()) {
                    Ok(_) => Ok(Decided::Persist { call_id, command, glob }),
                    Err(e) => Err(e),
                }
            },
            UserDecision::AllowSession { session_id, call_id } => {
                let i = match self.guard_index(call_id.as_str()) {
                    Ok(i) => i,
                    Err(e) => return Err(e),
                };
                proof {
                    lemma_table_at(self.requests@, |r: PermissionRequest| request_key(r), |r: PermissionRequest| request_view(r), i as int);
                }
                let cs = self.requests[i].command.as_slice();
                assert(tokens(cs) =~= v0.requests[call_id@].command);
                let joined = join_space(cs);
                match self.find_session(session_id) {
                    Some(j) => {
                        let ghost e0 = self.sessions@[j as int];
                        let mut e = self.sessions.remove(j);
                        e.allowlist.push(joined);
                        let ghost s1 = self.sessions@;
                        self.sessions.insert(j, e);
                        proof {
                            let a0 = session_view(e0).allowlist;
                            let a1 = session_view(e).allowlist;
                            assert forall|c: Seq<char>| a1.contains(c) <==> a0.insert(joined@).contains(c) by {
                                if a0.contains(c) {
                                    let k = choose|k: int| 0 <= k < e0.allowlist@.len() && #[trigger] e0.allowlist@[k]@ == c;
                                    assert(e.allowlist@[k]@ == c);
                                }
                                if c == joined@ {
                                    assert(e.allowlist@[e0.allowlist@.len() as int]@ == c);
                                }
                                if a1.contains(c) {
                                    let k = choose|k: int| 0 <= k < e.allowlist@.len() && #[trigger] e.allowlist@[k]@ == c;
                                    if k < e0.allowlist@.len() {
                                        assert(e0.allowlist@[k]@ == c);
                                    }
                                }
                            }
                            assert(a1 =~= a0.insert(joined@));
                            let s0 = s1.insert(j as int, e0);
                            assert(s0 =~= old(self).sessions@);
                            assert(self.sessions@ =~= old(self).sessions@.update(j as int, e));
                            lemma_table_update(old(self).sessions@, |s: SessionPermission| session_key(s), |s: SessionPermission| session_view(s), j as int, e);
                        }
                        self.resolve_at(i, PermissionState::Allow, now);
                        Ok(Decided::Resolved(PermissionState::Allow))
                    },
                    None => {
                        self.resolve_at(i, PermissionState::Deny, now);
                        Err(PermissionWorkflowError::MissingSession(session_id))
                    },
                }
            },
            UserDecision::IgnorePermission { session_id, call_id } => {
                let i = match self.guard_index(call_id.as_str()) {
                    Ok(i) => i,
                    Err(e) => return Err(e),
                };
                match self.find_session(session_id) {
                    Some(j) => {
                        let ghost s0 = self.sessions@;
                        let mut e = self.sessions.remove(j);
                        e.always = true;
                        self.sessions.insert(j, e);
                        proof {
                            assert(self.sessions@ =~= s0.update(j as int, e));
                            lemma_table_update(s0, |s: SessionPermission| session_key(s), |s: SessionPermission| session_view(s), j as int, e);
                        }
                        self.resolve_at(i, PermissionState::Allow, now);
                        Ok(Decided::Resolved(PermissionState::Allow))
                    },
                    None => {
                        self.resolve_at(i, PermissionState::Deny, now);
                        Err(PermissionWorkflowError::MissingSession(session_id))
                    },
                }
            },
            UserDecision::Deny { call_id } => {
                let i = match self.guard_index(call_id.as_str()) {
                    Ok(i) => i,
                    Err(e) => return Err(e),
                };
                self.resolve_at(i, PermissionState::Deny, now);
                Ok(Decided::Resolved(PermissionState::Deny))
            },
        }
    }

    /// Resolves `call_id` as allowed once its allow rule has been stored.
    pub fn finish_allow(&mut self, call_id: String, now: u64) -> (r: Result<PermissionState, PermissionWorkflowError>)
        requires
            old(self).wf(),
            now <= u64::MAX - PERMISSION_EVICT_TTL_SECS,
        ensures
            final(self).wf(),
            match guard(old(self)@, call_id@) {
                Some(f) => final(self)@ == old(self)@ && (r matches Err(e) && e@ == f),
                None => final(self)@ == resolve(old(self)@, call_id@, PermissionState::Allow, now)
                    && r == Ok::<PermissionState, PermissionWorkflowError>(PermissionState::Allow),
            },
    {
        let i = match self.guard_index(call_id.as_str()) {
            Ok(i) => i,
            Err(e) => return Err(e),
        };
        self.resolve_at(i, PermissionState::Allow, now);
        Ok(PermissionState::Allow)
    }

    /// Forgets what the session allows.
    pub fn remove_permission(&mut self, session_id: u128)
        requires
            old(self).wf(),
        ensures
            final(self).wf(),
            final(self)@.sessions == old(self)@.sessions.remove(session_id),
            final(self)@.requests == old(self)@.requests,
    {
        match self.find_session(session_id) {
            Some(j) => {
                let ghost s0 = self.sessions@;
                let _ = self.sessions.remove(j);
                proof {
                    lemma_table_remove(s0, |s: SessionPermission| session_key(s), |s: SessionPermission| session_view(s), j as int);
                }
            },
            None => {
                assert(self@.sessions.remove(session_id) =~= self@.sessions);
            },
        }
    }

    /// Evicts the requests whose deadline has passed at `now`.
    pub fn sweep(&mut self, now: u64)
        requires
            old(self).wf(),
        ensures
            final(self).wf(),
            final(self)@.sessions == old(self)@.sessions,
            final(self)@.requests == map_keep(old(self)@.requests, kept(now)),
    {
        let ghost keep = kept(now);
        let ghost m0 = old(self)@.requests;
        let mut i: usize = 0;
        while i < self.requests.len()
            invariant
                self.wf(),
                self.sessions == old(self).sessions,
                i <= self.requests@.len(),
                keep == kept(now),
                map_keep(self@.requests, keep) == map_keep(m0, keep),
                forall|j: int| 0 <= j < i ==> keep(request_view(#[trigger] self.requests@[j])),
            decreases self.requests@.len() - i,
        {
            let stays = match self.requests[i].evict_at {
                None => true,
                Some(d) => now < d,
            };
            if stays {
                i = i + 1;
            } else {
                let ghost s0 = self.requests@;
                let ghost k = request_key(s0[i as int]);
                proof {
                    lemma_table_at(s0, |r: PermissionRequest| request_key(r), |r: PermissionRequest| request_view(r), i as int);
                    lemma_table_remove(s0, |r: PermissionRequest| request_key(r), |r: PermissionRequest| request_view(r), i as int);
                }
                let _ = self.requests.remove(i);
                proof {
                    let before = table(s0, |r: PermissionRequest| request_key(r), |r: PermissionRequest| request_view(r));
                    assert(!keep(before[k]));
                    assert(map_keep(self@.requests, keep) =~= map_keep(before, keep));
                    assert forall|j: int| 0 <= j < self.requests@.len() implies request_ok(request_view(#[trigger] self.requests@[j])) by {
                        assert(self.requests@[j] == s0[if j < i { j } else { j + 1 }]);
                    }
                    assert forall|j: int| 0 <= j < i implies keep(request_view(#[trigger] self.requests@[j])) by {
                        assert(self.requests@[j] == s0[j]);
                    }
                }
            }
        }
        proof {
            let t = self@.requests;
            assert forall|k: Seq<char>| t.contains_key(k) implies keep(t[k]) by {
                let j = choose|j: int| 0 <= j < self.requests@.len() && #[trigger] request_key(self.requests@[j]) == k;
                lemma_table_at(self.requests@, |r: PermissionRequest| request_key(r), |r: PermissionRequest| request_view(r), j);
            }
            assert(map_keep(t, keep) =~= t);
        }
    }
}

/// A resolved request stays resolved: any further decision on it is
/// refused as already resolved and changes nothing.
pub proof fn resolved_request_is_final(v: WorkflowView, d: Choice, now: u64)
    requires
        v.requests.contains_key(choice_call_id(d)),
        v.requests[choice_call_id(d)].resolved is Some,
    ensures
        decide_next(v, d, now) == (v, Err::<DecidedView, WorkflowFailure>(WorkflowFailure::AlreadyResolved(choice_call_id(d)))),
{
}

/// A decision about a call that was never registered is refused, and
/// changes nothing.
pub proof fn unknown_call_is_refused(v: WorkflowView, d: Choice, now: u64)
    requires
        !v.requests.contains_key(choice_call_id(d)),
    ensures
        decide_next(v, d, now) == (v, Err::<DecidedView, WorkflowFailure>(WorkflowFailure::MissingCallerId(choice_call_id(d)))),
{
}

/// Allowing a composite command for the session lets the same command run
/// without asking when the session issues it again.
pub proof fn session_allow_covers_repeats(
    v: WorkflowView,
    session_id: u128,
    call_id: Seq<char>,
    now: u64,
    later_call: Seq<char>,
    later: DecisionView,
    later_now: u64,
)
    requires
        v.requests.contains_key(call_id),
        v.requests[call_id].resolved is None,
        v.sessions.contains_key(session_id),
        later.command_type == CommandType::Composite,
    ensures
        ({
            let w = decide_next(v, Choice::AllowSession { session_id, call_id }, now).0;
            let u = init_next(w, session_id, later_call, v.requests[call_id].command, Ok(later), later_now);
            &&& u.requests[later_call].resolved == Some(PermissionState::Allow)
            &&& u.requests[later_call].decision == session_allowed_decision()
        }),
{
    let w = decide_next(v, Choice::AllowSession { session_id, call_id }, now).0;
    assert(w.sessions[session_id].allowlist.contains(join_words(v.requests[call_id].command)));
}

/// After the user chooses to ignore permissions for a session, every
/// composite command of that session runs without asking.
pub proof fn ignore_permission_covers_composites(
    v: WorkflowView,
    session_id: u128,
    call_id: Seq<char>,
    now: u64,
    later_call: Seq<char>,
    command: Seq<Seq<char>>,
    later: DecisionView,
    later_now: u64,
)
    requires
        v.requests.contains_key(call_id),
        v.requests[call_id].resolved is None,
        v.sessions.contains_key(session_id),
        later.command_type == CommandType::Composite,
    ensures
        init_next(decide_next(v, Choice::IgnorePermission { session_id, call_id }, now).0, session_id, later_call, command, Ok(later), later_now)
            .requests[later_call].resolved == Some(PermissionState::Allow),
{
}

/// What a session allows never bypasses the check of a simple command:
/// its request is the same whatever the session holds.
pub proof fn session_never_bypasses_simple(
    a: SessionView,
    b: SessionView,
    command: Seq<Seq<char>>,
    d: DecisionView,
    now: u64,
)
    requires
        d.command_type == CommandType::Simple,
    ensures
        registered(a, command, Ok(d), now) == registered(b, command, Ok(d), now),
{
}

/// Sweeping never evicts a pending request, nor one whose deadline is
/// still ahead.
pub proof fn sweep_keeps_live_requests(m: Map<Seq<char>, RequestView>, now: u64, call_id: Seq<char>)
    requires
        m.contains_key(call_id),
        m[call_id].evict_at is None || now < m[call_id].evict_at->0,
    ensures
        map_keep(m, kept(now)).contains_key(call_id),
        map_keep(m, kept(now))[call_id] == m[call_id],
{
}

/// A resolved request always carries its eviction deadline, and a pending
/// one none, in every request that registration or a decision produces.
pub proof fn resolution_sets_deadline(
    v: WorkflowView,
    session_id: u128,
    call_id: Seq<char>,
    command: Seq<Seq<char>>,
    classified: Result<DecisionView, PermissionError>,
    now: u64,
)
    ensures
        ({
            let r = init_next(v, session_id, call_id, command, classified, now).requests[call_id];
            (r.resolved is Some <==> r.evict_at is Some) && (r.evict_at is Some ==> r.evict_at->0 == deadline(now))
        }),
{
}

/// A session decision that arrives for a session with no entry denies the
/// request, so that nobody waits on it forever, and reports the session.
pub proof fn missing_session_denies(v: WorkflowView, session_id: u128, call_id: Seq<char>, ignore: bool, now: u64)
    requires
        v.requests.contains_key(call_id),
        v.requests[call_id].resolved is None,
        !v.sessions.contains_key(session_id),
    ensures
        ({
            let d = if ignore {
                Choice::IgnorePermission { session_id, call_id }
            } else {
                Choice::AllowSession { session_id, call_id }
            };
            let (w, r) = decide_next(v, d, now);
            &&& w.requests[call_id].resolved == Some(PermissionState::Deny)
            &&& r == Err::<DecidedView, WorkflowFailure>(WorkflowFailure::MissingSession(session_id))
        }),
{
}

} // verus!
