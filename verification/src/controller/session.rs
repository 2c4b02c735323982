//! Chat sessions: the state of each session's turn, the deltas of a running
//! turn, and when the UI hears of an event.
use vstd::prelude::*;
use crate::controller::entity::{ChatRenderEvent, RenderEvent};
use crate::controller::permission_workflow::PermissionWorkflowError;
use crate::provider::{ChatEvent, ChatView, ConversationItem, ItemView};
use crate::entity::{parse_uuid, parsed_uuid};
use crate::table::{has_key, keys_unique, lemma_table_absent, lemma_table_at, lemma_table_push, lemma_table_remove, lemma_table_update, table};

verus! {

/// Where a session's latest turn stands.
#[derive(Clone, Copy, Debug, PartialEq, Eq, Structural)]
pub enum TerminalState {
    Running,
    Done,
    Error,
    Cancel,
}

/// What a session hears of its turn.
#[derive(Debug)]
pub enum SessionEvent {
    UserPrompt(String),
    Chat(ChatEvent),
    Error(String),
}

/// The abstract content of a [`SessionEvent`].
pub enum EventView {
    UserPrompt(Seq<char>),
    Chat(ChatView),
    Error(Seq<char>),
}

impl View for SessionEvent {
    type V = EventView;

    open spec fn view(&self) -> EventView {
        match self {
            SessionEvent::UserPrompt(p) => EventView::UserPrompt(p@),
            SessionEvent::Chat(c) => EventView::Chat(c@),
            SessionEvent::Error(m) => EventView::Error(m@),
        }
    }
}

impl Clone for SessionEvent {
    fn clone(&self) -> (r: Self)
        ensures
            r@ == self@,
    {
        match self {
            SessionEvent::UserPrompt(p) => SessionEvent::UserPrompt(p.clone()),
            SessionEvent::Chat(c) => SessionEvent::Chat(c.clone()),
            SessionEvent::Error(m) => SessionEvent::Error(m.clone()),
        }
    }
}

/// The UI's subscription to a session: none, one that waits for a restore
/// before it hears anything, or one that hears every event.
#[derive(Clone, Copy, Debug, PartialEq, Eq, Structural)]
pub enum Gate {
    Empty,
    Held,
    Ready,
}

/// What is known of one session.
pub struct SessionState {
    /// Streaming deltas of the running turn; cleared when the turn ends.
    pub delta: Seq<EventView>,
    pub terminal: TerminalState,
    pub gate: Gate,
}

/// A session that was just created or restored from storage.
pub open spec fn fresh() -> SessionState {
    SessionState { delta: Seq::empty(), terminal: TerminalState::Done, gate: Gate::Empty }
}

/// Whether an event is a streaming delta of text or reasoning.
pub open spec fn is_delta(e: EventView) -> bool {
    e matches EventView::Chat(ChatView::TextDelta { .. }) || e matches EventView::Chat(ChatView::ReasoningSummaryDelta { .. })
}

/// A session after it hears `e`: a prompt starts a turn; the end or the
/// failure of a turn clears its deltas; deltas accumulate; output items
/// change nothing (they live in the history).
pub open spec fn updated(s: SessionState, e: EventView) -> SessionState {
    match e {
        EventView::UserPrompt(_) => SessionState { terminal: TerminalState::Running, ..s },
        EventView::Error(_) => SessionState { delta: Seq::empty(), terminal: TerminalState::Error, ..s },
        EventView::Chat(ChatView::Done) => SessionState { delta: Seq::empty(), terminal: TerminalState::Done, ..s },
        EventView::Chat(ChatView::OutputItem { .. }) => s,
        EventView::Chat(_) => SessionState { delta: s.delta.push(e), ..s },
    }
}

/// Why a session operation failed.
#[derive(Debug)]
pub enum SessionManagerError {
    UnknownSession(u128),
    SessionAlreadyExists(u128),
    /// An event other than a prompt arrived for a session whose turn is
    /// over: a bug upstream.
    SessionNotRunning(u128),
    ChannelClosed,
    /// A storage failure, described.
    Storage(String),
    PermissionWorkflow(PermissionWorkflowError),
}

/// What the UI is told once an event is applied.
#[derive(Clone, Copy, Debug, PartialEq, Eq, Structural)]
pub struct Publish {
    /// Send the event's rendering to the subscriber.
    pub send: bool,
    /// Then drop the subscriber: the turn is over.
    pub close: bool,
    /// The event was a failure: roll the history back to the last complete
    /// message.
    pub rollback: bool,
}

/// How a restore ends.
#[derive(Debug)]
pub enum RestoreTail {
    /// The turn still runs: these renderings of its deltas go to the
    /// subscriber, if it is ready.
    Replay(Vec<RenderEvent>),
    /// The turn is over: the subscriber, if there was one, is told it is
    /// done and dropped.
    Finished { notify: bool },
}

struct Session {
    id: u128,
    delta: Vec<SessionEvent>,
    terminal: TerminalState,
    gate: Gate,
}

spec fn session_key(s: Session) -> u128 {
    s.id
}

spec fn session_view(s: Session) -> SessionState {
    SessionState { delta: s.delta@.map_values(|e: SessionEvent| e@), terminal: s.terminal, gate: s.gate }
}

/// The chat sessions known to the app.
pub struct SessionManager {
    sessions: Vec<Session>,
}

impl View for SessionManager {
    type V = Map<u128, SessionState>;

    closed spec fn view(&self) -> Map<u128, SessionState> {
        table(self.sessions@, |s: Session| session_key(s), |s: Session| session_view(s))
    }
}

fn new_session(id: u128) -> (r: Session)
    ensures
        r.id == id,
        r.delta@.len() == 0,
        session_view(r) == fresh(),
{
    let r = Session { id, delta: Vec::new(), terminal: TerminalState::Done, gate: Gate::Empty };
    assert(session_view(r).delta =~= Seq::<EventView>::empty());
    r
}

impl SessionManager {
    /// Keys are distinct, and a session's deltas are streaming deltas.
    pub closed spec fn wf(&self) -> bool {
        &&& keys_unique(self.sessions@, |s: Session| session_key(s))
        &&& forall|i: int, j: int| 0 <= i < self.sessions@.len() && 0 <= j < self.sessions@[i].delta@.len()
            ==> is_delta(#[trigger] self.sessions@[i].delta@[j]@)
    }

    pub fn new() -> (r: Self)
        ensures
            r.wf(),
            r@ == Map::<u128, SessionState>::empty(),
    {
        let r = SessionManager { sessions: Vec::new() };
        assert(r@ =~= Map::<u128, SessionState>::empty());
        r
    }

    fn find(&self, id: u128) -> (r: Option<usize>)
        requires
            self.wf(),
        ensures
            match r {
                Some(i) => i < self.sessions@.len() && self.sessions@[i as int].id == id && self@.contains_key(id)
                    && self@[id] == session_view(self.sessions@[i as int]),
                None => !self@.contains_key(id),
            },
    {
        let n = self.sessions.len();
        let mut i: usize = 0;
        while i < n
            invariant
                self.wf(),
                n == self.sessions@.len(),
                i <= n,
                forall|j: int| 0 <= j < i ==> #[trigger] session_key(self.sessions@[j]) != id,
            decreases n - i,
        {
            if self.sessions[i].id == id {
                proof {
                    lemma_table_at(self.sessions@, |s: Session| session_key(s), |s: Session| session_view(s), i as int);
                }
                return Some(i);
            }
            i = i + 1;
        }
        proof {
            lemma_table_absent(self.sessions@, |s: Session| session_key(s), |s: Session| session_view(s), id);
        }
        None
    }

    /// Replaces the session at `i` by `e`, of the same id.
    fn put(&mut self, i: usize, e: Session)
        requires
            old(self).wf(),
            i < old(self).sessions@.len(),
            e.id == old(self).sessions@[i as int].id,
            forall|j: int| 0 <= j < e.delta@.len() ==> is_delta(#[trigger] e.delta@[j]@),
        ensures
            final(self).wf(),
            final(self)@ == old(self)@.insert(e.id, session_view(e)),
    {
        let ghost s0 = self.sessions@;
        let _ = self.sessions.remove(i);
        self.sessions.insert(i, e);
        assert(self.sessions@ =~= s0.update(i as int, e));
        proof {
            lemma_table_update(s0, |s: Session| session_key(s), |s: Session| session_view(s), i as int, e);
        }
    }

    /// Adds a fresh session, or makes the existing one fresh.
    fn upsert_fresh(&mut self, id: u128)
        requires
            old(self).wf(),
        ensures
            final(self).wf(),
            final(self)@ == old(self)@.insert(id, fresh()),
    {
        let e = new_session(id);
        match self.find(id) {
            Some(i) => self.put(i, e),
            None => {
                let ghost s0 = self.sessions@;
                self.sessions.push(e);
                proof {
                    lemma_table_push(s0, |s: Session| session_key(s), |s: Session| session_view(s), e);
                    assert forall|i: int, j: int| 0 <= i < self.sessions@.len() && 0 <= j < self.sessions@[i].delta@.len()
                        implies is_delta(#[trigger] self.sessions@[i].delta@[j]@) by {
                        if i < s0.len() {
                            assert(self.sessions@[i] == s0[i]);
                        }
                    }
                }
            },
        }
    }

    /// Registers a session after storage answered: a newly stored session
    /// starts fresh; one already stored keeps its state if it is known here.
    pub fn ensure_session(&mut self, id: u128, created: bool)
        requires
            old(self).wf(),
        ensures
            final(self).wf(),
            final(self)@ == if created || !old(self)@.contains_key(id) {
                old(self)@.insert(id, fresh())
            } else {
                old(self)@
            },
    {
        if created {
            self.upsert_fresh(id);
        } else {
            match self.find(id) {
                Some(_) => {},
                None => self.upsert_fresh(id),
            }
        }
    }

    /// Whether an event may be applied to the session: it must be known,
    /// and only a prompt may arrive once its turn is over.
    pub fn check_event(&self, id: u128, payload: &SessionEvent) -> (r: Result<(), SessionManagerError>)
        requires
            self.wf(),
        ensures
            !self@.contains_key(id) ==> (r matches Err(SessionManagerError::UnknownSession(x)) && x == id),
            self@.contains_key(id) && self@[id].terminal != TerminalState::Running && !(payload@ is UserPrompt)
                ==> (r matches Err(SessionManagerError::SessionNotRunning(x)) && x == id),
            self@.contains_key(id) && (self@[id].terminal == TerminalState::Running || payload@ is UserPrompt)
                ==> r is Ok,
    {
        match self.find(id) {
            None => Err(SessionManagerError::UnknownSession(id)),
            Some(i) => {
                let prompt = match payload {
                    SessionEvent::UserPrompt(_) => true,
                    _ => false,
                };
                if self.sessions[i].terminal != TerminalState::Running && !prompt {
                    Err(SessionManagerError::SessionNotRunning(id))
                } else {
                    Ok(())
                }
            },
        }
    }

    /// Applies an event that passed [`SessionManager::check_event`], whose
    /// history item (if any) has been stored. `rendered` says whether the
    /// event has a rendering for the UI.
    pub fn apply_event(&mut self, id: u128, payload: SessionEvent, rendered: bool) -> (r: Publish)
        requires
            old(self).wf(),
            old(self)@.contains_key(id),
        ensures
            final(self).wf(),
            ({
                let s = updated(old(self)@[id], payload@);
                let ended = s.terminal == TerminalState::Done || s.terminal == TerminalState::Error;
                &&& r.send == (rendered && s.gate == Gate::Ready)
                &&& r.close == (r.send && ended)
                &&& r.rollback == (payload@ is Error)
                &&& final(self)@ == old(self)@.insert(id, if r.close { SessionState { gate: Gate::Empty, ..s } } else { s })
            }),
    {
        let i = self.find(id).unwrap();
        let ghost s0 = self.sessions@;
        let mut e = self.sessions.remove(i);
        let ghost d0 = e.delta@;
        let rollback = match &payload {
            SessionEvent::Error(_) => true,
            _ => false,
        };
        match payload {
            SessionEvent::UserPrompt(p) => {
                e.terminal = TerminalState::Running;
            },
            SessionEvent::Error(m) => {
                e.delta = Vec::new();
                e.terminal = TerminalState::Error;
            },
            SessionEvent::Chat(ChatEvent::Done) => {
                e.delta = Vec::new();
                e.terminal = TerminalState::Done;
            },
            SessionEvent::Chat(ChatEvent::OutputItem { item }) => {},
            SessionEvent::Chat(c) => {
                e.delta.push(SessionEvent::Chat(c));
            },
        }
        let ended = e.terminal == TerminalState::Done || e.terminal == TerminalState::Error;
        let send = rendered && e.gate == Gate::Ready;
        let close = send && ended;
        if close {
            e.gate = Gate::Empty;
        }
        self.sessions.insert(i, e);
        proof {
            assert(session_view(e).delta =~= if payload@ is Error || payload@ == EventView::Chat(ChatView::Done) {
                Seq::<EventView>::empty()
            } else if is_delta(payload@) {
                d0.map_values(|x: SessionEvent| x@).push(payload@)
            } else {
                d0.map_values(|x: SessionEvent| x@)
            });
            assert(self.sessions@ =~= s0.update(i as int, e));
            lemma_table_update(s0, |s: Session| session_key(s), |s: Session| session_view(s), i as int, e);
            assert forall|a: int, j: int| 0 <= a < self.sessions@.len() && 0 <= j < self.sessions@[a].delta@.len()
                implies is_delta(#[trigger] self.sessions@[a].delta@[j]@) by {
                if a != i {
                    assert(self.sessions@[a] == s0[a]);
                } else if j < d0.len() {
                    assert(self.sessions@[a].delta@[j] == s0[a].delta@[j]);
                }
            }
        }
        Publish { send, close, rollback }
    }

    /// Cancels the running turn of a session: it ends as cancelled, its
    /// deltas are dropped, and its subscriber (told of the cancel, if there
    /// was one) is dropped. `Some(notify)` when a turn was cancelled, after
    /// which the history must be rolled back; `None` when no turn ran.
    pub fn cancel_event(&mut self, id: u128) -> (r: Result<Option<bool>, SessionManagerError>)
        requires
            old(self).wf(),
        ensures
            final(self).wf(),
            !old(self)@.contains_key(id) ==> final(self)@ == old(self)@
                && (r matches Err(SessionManagerError::UnknownSession(x)) && x == id),
            old(self)@.contains_key(id) && old(self)@[id].terminal != TerminalState::Running
                ==> final(self)@ == old(self)@ && r == Ok::<Option<bool>, SessionManagerError>(None),
            old(self)@.contains_key(id) && old(self)@[id].terminal == TerminalState::Running ==> {
                &&& r == Ok::<Option<bool>, SessionManagerError>(Some(old(self)@[id].gate != Gate::Empty))
                &&& final(self)@ == old(self)@.insert(
                    id,
                    SessionState { delta: Seq::empty(), terminal: TerminalState::Cancel, gate: Gate::Empty },
                )
            },
    {
        let i = match self.find(id) {
            None => return Err(SessionManagerError::UnknownSession(id)),
            Some(i) => i,
        };
        if self.sessions[i].terminal != TerminalState::Running {
            return Ok(None);
        }
        let notify = self.sessions[i].gate != Gate::Empty;
        let e = Session { id, delta: Vec::new(), terminal: TerminalState::Cancel, gate: Gate::Empty };
        assert(session_view(e).delta =~= Seq::<EventView>::empty());
        self.put(i, e);
        Ok(Some(notify))
    }

    /// Forgets a session.
    pub fn remove_session(&mut self, id: u128)
        requires
            old(self).wf(),
        ensures
            final(self).wf(),
            final(self)@ == old(self)@.remove(id),
    {
        match self.find(id) {
            Some(i) => {
                let ghost s0 = self.sessions@;
                let _ = self.sessions.remove(i);
                proof {
                    lemma_table_remove(s0, |s: Session| session_key(s), |s: Session| session_view(s), i as int);
                    assert forall|a: int, j: int| 0 <= a < self.sessions@.len() && 0 <= j < self.sessions@[a].delta@.len()
                        implies is_delta(#[trigger] self.sessions@[a].delta@[j]@) by {
                        assert(self.sessions@[a] == s0[if a < i { a } else { a + 1 }]);
                    }
                }
            },
            None => {
                assert(self@.remove(id) =~= self@);
            },
        }
    }

    /// Attaches the UI: held until a restore, or ready at once.
    pub fn subscribe(&mut self, id: u128, hold: bool) -> (r: Result<(), SessionManagerError>)
        requires
            old(self).wf(),
        ensures
            final(self).wf(),
            old(self)@.contains_key(id) ==> r is Ok && final(self)@ == old(self)@.insert(
                id,
                SessionState { gate: if hold { Gate::Held } else { Gate::Ready }, ..old(self)@[id] },
            ),
            !old(self)@.contains_key(id) ==> final(self)@ == old(self)@
                && (r matches Err(SessionManagerError::UnknownSession(x)) && x == id),
    {
        let i = match self.find(id) {
            None => return Err(SessionManagerError::UnknownSession(id)),
            Some(i) => i,
        };
        let ghost s0 = self.sessions@;
        let mut e = self.sessions.remove(i);
        e.gate = if hold { Gate::Held } else { Gate::Ready };
        self.sessions.insert(i, e);
        proof {
            assert(self.sessions@ =~= s0.update(i as int, e));
            lemma_table_update(s0, |s: Session| session_key(s), |s: Session| session_view(s), i as int, e);
            assert forall|a: int, j: int| 0 <= a < self.sessions@.len() && 0 <= j < self.sessions@[a].delta@.len()
                implies is_delta(#[trigger] self.sessions@[a].delta@[j]@) by {
                if a != i {
                    assert(self.sessions@[a] == s0[a]);
                } else {
                    assert(self.sessions@[a].delta@[j] == s0[a].delta@[j]);
                }
            }
        }
        Ok(())
    }
}

/// A session as the session list shows it.
#[derive(Clone, Debug)]
pub struct SessionListItem {
    pub session_id: u128,
    pub title: String,
    pub last_update: i64,
}

/// A session as storage holds it: its id is the UUID's text.
#[derive(Debug)]
pub struct StoredSession {
    pub session_id: String,
    pub title: String,
    pub last_update: i64,
}

/// What the list shows of a stored session; `None` when its id is no UUID.
pub open spec fn listed(s: StoredSession) -> Option<(u128, Seq<char>, i64)> {
    match parsed_uuid(s.session_id@) {
        Some(u) => Some((u, s.title@, s.last_update)),
        None => None,
    }
}

pub open spec fn list_view(i: SessionListItem) -> (u128, Seq<char>, i64) {
    (i.session_id, i.title@, i.last_update)
}

/// The list entry for a stored session; sessions whose id is no UUID are
/// skipped.
pub fn to_session_list_item(session: &StoredSession) -> (r: Option<SessionListItem>)
    ensures
        match r {
            Some(item) => listed(*session) == Some(list_view(item)),
            None => listed(*session) is None,
        },
{
    match parse_uuid(session.session_id.as_str()) {
        Some(id) => Some(SessionListItem { session_id: id, title: session.title.clone(), last_update: session.last_update }),
        None => None,
    }
}

/// The list entries of the stored sessions, in their order.
pub fn available_sessions(stored: &[StoredSession]) -> (r: Vec<SessionListItem>)
    ensures
        r@.map_values(|i: SessionListItem| list_view(i)) == stored@.filter_map(|s: StoredSession| listed(s)),
{
    let ghost f = |s: StoredSession| listed(s);
    let mut r: Vec<SessionListItem> = Vec::new();
    let n = stored.len();
    let mut i: usize = 0;
    while i < n
        invariant
            n == stored@.len(),
            i <= n,
            f == (|s: StoredSession| listed(s)),
            r@.map_values(|x: SessionListItem| list_view(x)) == stored@.take(i as int).filter_map(f),
        decreases n - i,
    {
        proof {
            stored@.lemma_filter_map_take_succ(f, i as int);
        }
        let ghost before = r@;
        match to_session_list_item(&stored[i]) {
            Some(item) => {
                r.push(item);
                assert(r@.map_values(|x: SessionListItem| list_view(x)) =~= before.map_values(|x: SessionListItem| list_view(x)) + seq![list_view(item)]);
            },
            None => {},
        }
        i = i + 1;
    }
    assert(stored@.take(n as int) =~= stored@);
    r
}

/// The id for a session: the one asked for, or else `fresh`, a new
/// time-ordered UUID that the caller draws from the clock.
pub fn resolve_session_id(requested: Option<u128>, fresh: u128) -> (r: u128)
    ensures
        r == match requested {
            Some(id) => id,
            None => fresh,
        },
{
    match requested {
        Some(id) => id,
        None => fresh,
    }
}

/// The history item that an event adds: the prompt, or the output item.
pub fn history_entry(payload: &SessionEvent) -> (r: Option<ConversationItem>)
    ensures
        match payload@ {
            EventView::UserPrompt(p) => r matches Some(item) && item@ == ItemView::UserPrompt { prompt: p },
            EventView::Chat(ChatView::OutputItem { item }) => r matches Some(x) && x@ == item,
            _ => r is None,
        },
{
    match payload {
        SessionEvent::UserPrompt(p) => Some(ConversationItem::UserPrompt { prompt: p.clone() }),
        SessionEvent::Chat(ChatEvent::OutputItem { item }) => Some(item.clone()),
        _ => None,
    }
}

/// Whether `r` is what the UI is shown for `e`, for the events that need
/// nothing but themselves to be shown; output items are shown otherwise.
pub open spec fn plain_render(e: EventView, r: Option<RenderEvent>) -> bool {
    match e {
        EventView::UserPrompt(p) => r matches Some(RenderEvent::Chat(ChatRenderEvent::UserPrompt { text })) && text@ == p,
        EventView::Error(m) => r matches Some(RenderEvent::Error { message }) && message@ == m,
        EventView::Chat(ChatView::TextDelta { provider_backend_id, text }) =>
            r matches Some(RenderEvent::Chat(ChatRenderEvent::TextDelta { provider_backend_id: b, text: t }))
                && b == provider_backend_id && t@ == text,
        EventView::Chat(ChatView::ReasoningSummaryDelta { text }) =>
            r matches Some(RenderEvent::Chat(ChatRenderEvent::ReasoningDelta { text: t })) && t@ == text,
        EventView::Chat(ChatView::Done) => r matches Some(RenderEvent::Done),
        EventView::Chat(ChatView::OutputItem { .. }) => r is None,
    }
}

/// The UI's rendering of an event that needs nothing but itself; `None`
/// for output items, whose rendering needs the tool registry.
pub fn render_plain(e: &SessionEvent) -> (r: Option<RenderEvent>)
    ensures
        plain_render(e@, r),
{
    match e {
        SessionEvent::UserPrompt(p) => Some(RenderEvent::Chat(ChatRenderEvent::UserPrompt { text: p.clone() })),
        SessionEvent::Error(m) => Some(RenderEvent::Error { message: m.clone() }),
        SessionEvent::Chat(ChatEvent::TextDelta { provider_backend_id, text }) => Some(
            RenderEvent::Chat(ChatRenderEvent::TextDelta { provider_backend_id: provider_backend_id.clone(), text: text.clone() }),
        ),
        SessionEvent::Chat(ChatEvent::ReasoningSummaryDelta { text }) => Some(
            RenderEvent::Chat(ChatRenderEvent::ReasoningDelta { text: text.clone() }),
        ),
        SessionEvent::Chat(ChatEvent::Done) => Some(RenderEvent::Done),
        SessionEvent::Chat(ChatEvent::OutputItem { .. }) => None,
    }
}

/// `t` joined with `sep` between consecutive parts.
pub open spec fn join_with(t: Seq<Seq<char>>, sep: char) -> Seq<char>
    decreases t.len(),
{
    if t.len() == 0 {
        Seq::empty()
    } else if t.len() == 1 {
        t[0]
    } else {
        join_with(t.drop_last(), sep) + seq![sep] + t.last()
    }
}

/// The text of an assistant message: its parts on separate lines; `None`
/// when it has none.
pub fn message_text(parts: &[String]) -> (r: Option<String>)
    ensures
        match r {
            Some(t) => parts@.len() > 0 && t@ == join_with(parts.deep_view(), '\n'),
            None => parts@.len() == 0,
        },
{
    let ghost t = parts.deep_view();
    let n = parts.len();
    if n == 0 {
        return None;
    }
    let mut r = String::new();
    let mut i: usize = 0;
    while i < n
        invariant
            t == parts.deep_view(),
            n == parts@.len(),
            i <= n,
            r@ == join_with(t.subrange(0, i as int), '\n'),
        decreases n - i,
    {
        assert(t[i as int] == parts@[i as int]@);
        let ghost prev = r@;
        if i > 0 {
            crate::text::push_char(&mut r, '\n');
        }
        r.append(parts[i].as_str());
        i = i + 1;
        let ghost u = t.subrange(0, i as int);
        assert(u.drop_last() =~= t.subrange(0, i - 1));
        if i == 1 {
            assert(r@ =~= u[0]);
        } else {
            assert(r@ =~= prev + seq!['\n'] + u.last());
        }
    }
    assert(t.subrange(0, n as int) =~= t);
    Some(r)
}

impl SessionManager {
    /// The sessions known at start-up: every stored session whose id is a
    /// UUID, each fresh.
    pub fn restore_sessions(stored: &[StoredSession]) -> (r: Self)
        ensures
            r.wf(),
            r@ == Map::new(
                |u: u128| exists|i: int| 0 <= i < stored@.len() && #[trigger] parsed_uuid(stored@[i].session_id@) == Some(u),
                |u: u128| fresh(),
            ),
    {
        let mut r = SessionManager::new();
        let n = stored.len();
        let mut i: usize = 0;
        while i < n
            invariant
                n == stored@.len(),
                i <= n,
                r.wf(),
                r@ == Map::new(
                    |u: u128| exists|j: int| 0 <= j < i && #[trigger] parsed_uuid(stored@[j].session_id@) == Some(u),
                    |u: u128| fresh(),
                ),
            decreases n - i,
        {
            let ghost before = r@;
            match parse_uuid(stored[i].session_id.as_str()) {
                Some(id) => {
                    r.upsert_fresh(id);
                },
                None => {},
            }
            i = i + 1;
            assert(r@ =~= Map::new(
                |u: u128| exists|j: int| 0 <= j < i && #[trigger] parsed_uuid(stored@[j].session_id@) == Some(u),
                |u: u128| fresh(),
            )) by {
                assert forall|u: u128| #![auto] r@.contains_key(u) <==> (exists|j: int| 0 <= j < i && #[trigger] parsed_uuid(stored@[j].session_id@) == Some(u)) by {
                    if parsed_uuid(stored@[i - 1].session_id@) == Some(u) {
                        assert(parsed_uuid(stored@[i - 1].session_id@) == Some(u));
                    }
                }
            }
        }
        r
    }

    /// Starts replaying a session to its subscriber: a held subscriber is
    /// released. `Ok(true)` when the subscriber is ready to hear the replay.
    pub fn begin_restore(&mut self, id: u128) -> (r: Result<bool, SessionManagerError>)
        requires
            old(self).wf(),
        ensures
            final(self).wf(),
            old(self)@.contains_key(id) ==> ({
                let s = old(self)@[id];
                let g = if s.gate == Gate::Held { Gate::Ready } else { s.gate };
                &&& final(self)@ == old(self)@.insert(id, SessionState { gate: g, ..s })
                &&& r == Ok::<bool, SessionManagerError>(g == Gate::Ready)
            }),
            !old(self)@.contains_key(id) ==> final(self)@ == old(self)@
                && (r matches Err(SessionManagerError::UnknownSession(x)) && x == id),
    {
        let i = match self.find(id) {
            None => return Err(SessionManagerError::UnknownSession(id)),
            Some(i) => i,
        };
        let ghost s0 = self.sessions@;
        let mut e = self.sessions.remove(i);
        if e.gate == Gate::Held {
            e.gate = Gate::Ready;
        }
        let ready = e.gate == Gate::Ready;
        self.sessions.insert(i, e);
        proof {
            assert(self.sessions@ =~= s0.update(i as int, e));
            lemma_table_update(s0, |s: Session| session_key(s), |s: Session| session_view(s), i as int, e);
            assert forall|a: int, j: int| 0 <= a < self.sessions@.len() && 0 <= j < self.sessions@[a].delta@.len()
                implies is_delta(#[trigger] self.sessions@[a].delta@[j]@) by {
                if a != i {
                    assert(self.sessions@[a] == s0[a]);
                } else {
                    assert(self.sessions@[a].delta@[j] == s0[a].delta@[j]);
                }
            }
        }
        Ok(ready)
    }

    /// Ends a replay: a running turn replays its deltas to a ready
    /// subscriber; a finished one tells its subscriber it is done and drops
    /// it.
    pub fn finish_restore(&mut self, id: u128) -> (r: RestoreTail)
        requires
            old(self).wf(),
            old(self)@.contains_key(id),
        ensures
            final(self).wf(),
            ({
                let s = old(self)@[id];
                if s.terminal == TerminalState::Running {
                    &&& final(self)@ == old(self)@
                    &&& r matches RestoreTail::Replay(v) && (if s.gate == Gate::Ready {
                        v@.len() == s.delta.len() && forall|k: int| 0 <= k < v@.len() ==> plain_render(s.delta[k], Some(#[trigger] v@[k]))
                    } else {
                        v@.len() == 0
                    })
                } else {
                    &&& final(self)@ == old(self)@.insert(id, SessionState { gate: Gate::Empty, ..s })
                    &&& r matches RestoreTail::Finished { notify } && notify == (s.gate != Gate::Empty)
                }
            }),
    {
        let i = self.find(id).unwrap();
        if self.sessions[i].terminal == TerminalState::Running {
            let mut v: Vec<RenderEvent> = Vec::new();
            if self.sessions[i].gate == Gate::Ready {
                let n = self.sessions[i].delta.len();
                let mut k: usize = 0;
                while k < n
                    invariant
                        self.wf(),
                        i < self.sessions@.len(),
                        n == self.sessions@[i as int].delta@.len(),
                        k <= n,
                        v@.len() == k,
                        forall|j: int| 0 <= j < k ==> plain_render(self.sessions@[i as int].delta@[j]@, Some(#[trigger] v@[j])),
                    decreases n - k,
                {
                    let ev = &self.sessions[i].delta[k];
                    assert(is_delta(ev@));
                    let ghost before = v@;
                    match render_plain(ev) {
                        Some(x) => v.push(x),
                        None => {},
                    }
                    assert forall|j: int| 0 <= j < k + 1 implies plain_render(self.sessions@[i as int].delta@[j]@, Some(#[trigger] v@[j])) by {
                        if j < k {
                            assert(v@[j] == before[j]);
                        }
                    }
                    k = k + 1;
                }
            }
            return RestoreTail::Replay(v);
        }
        let notify = self.sessions[i].gate != Gate::Empty;
        let ghost s0 = self.sessions@;
        let mut e = self.sessions.remove(i);
        e.gate = Gate::Empty;
        self.sessions.insert(i, e);
        proof {
            assert(self.sessions@ =~= s0.update(i as int, e));
            lemma_table_update(s0, |s: Session| session_key(s), |s: Session| session_view(s), i as int, e);
            assert forall|a: int, j: int| 0 <= a < self.sessions@.len() && 0 <= j < self.sessions@[a].delta@.len()
                implies is_delta(#[trigger] self.sessions@[a].delta@[j]@) by {
                if a != i {
                    assert(self.sessions@[a] == s0[a]);
                } else {
                    assert(self.sessions@[a].delta@[j] == s0[a].delta@[j]);
                }
            }
        }
        RestoreTail::Finished { notify }
    }
}

/// A turn's lifecycle: a prompt starts a turn and keeps its deltas; the end
/// or the failure of a turn clears the deltas; streaming deltas accumulate
/// in order; output items change nothing. The subscription is never
/// touched by an update.
pub proof fn session_update_laws(s: SessionState, e: EventView)
    ensures
        updated(s, e).gate == s.gate,
        e is UserPrompt ==> updated(s, e).terminal == TerminalState::Running && updated(s, e).delta == s.delta,
        e is Error ==> updated(s, e).terminal == TerminalState::Error && updated(s, e).delta.len() == 0,
        e == EventView::Chat(ChatView::Done) ==> updated(s, e).terminal == TerminalState::Done && updated(s, e).delta.len() == 0,
        is_delta(e) ==> updated(s, e).delta == s.delta.push(e) && updated(s, e).terminal == s.terminal,
        e matches EventView::Chat(ChatView::OutputItem { .. }) ==> updated(s, e) == s,
{
}

/// After a turn ends, the next prompt starts a new one: the session is
/// running with no deltas left from the former turn.
pub proof fn new_turn_starts_clean(s: SessionState, end: EventView, prompt: EventView)
    requires
        end is Error || end == EventView::Chat(ChatView::Done),
        prompt is UserPrompt,
    ensures
        updated(updated(s, end), prompt).terminal == TerminalState::Running,
        updated(updated(s, end), prompt).delta.len() == 0,
{
}

} // verus!
