//! Turns: a prompt's round trips between the model and the tools, one
//! stream of model events (a step) at a time, until the model stops calling
//! tools.
use vstd::prelude::*;
use crate::controller::session::{EventView, SessionEvent};
use crate::controller::tool::ToolCallPayload;
use crate::provider::{ChatEvent, ChatView, ConversationItem, ItemView};
use crate::table::{keys_unique, lemma_table_absent, lemma_table_at, lemma_table_push, lemma_table_remove, lemma_table_update, table};

verus! {

/// Where a session's turn stands.
#[derive(Clone, Copy, Debug, PartialEq, Eq, Structural)]
pub enum TurnPhase {
    Running,
    Cancelled,
    Done,
}

struct Turn {
    id: u128,
    phase: TurnPhase,
}

spec fn turn_key(t: Turn) -> u128 {
    t.id
}

spec fn turn_phase(t: Turn) -> TurnPhase {
    t.phase
}

/// The turns of the sessions, by session id.
pub struct TurnManager {
    turns: Vec<Turn>,
}

impl View for TurnManager {
    type V = Map<u128, TurnPhase>;

    closed spec fn view(&self) -> Map<u128, TurnPhase> {
        table(self.turns@, |t: Turn| turn_key(t), |t: Turn| turn_phase(t))
    }
}

impl TurnManager {
    pub closed spec fn wf(&self) -> bool {
        keys_unique(self.turns@, |t: Turn| turn_key(t))
    }

    pub fn new() -> (r: Self)
        ensures
            r.wf(),
            r@ == Map::<u128, TurnPhase>::empty(),
    {
        let r = TurnManager { turns: Vec::new() };
        assert(r@ =~= Map::<u128, TurnPhase>::empty());
        r
    }

    fn find(&self, id: u128) -> (r: Option<usize>)
        requires
            self.wf(),
        ensures
            match r {
                Some(i) => i < self.turns@.len() && self.turns@[i as int].id == id && self@.contains_key(id)
                    && self@[id] == self.turns@[i as int].phase,
                None => !self@.contains_key(id),
            },
    {
        let n = self.turns.len();
        let mut i: usize = 0;
        while i < n
            invariant
                self.wf(),
                n == self.turns@.len(),
                i <= n,
                forall|j: int| 0 <= j < i ==> #[trigger] turn_key(self.turns@[j]) != id,
            decreases n - i,
        {
            if self.turns[i].id == id {
                proof {
                    lemma_table_at(self.turns@, |t: Turn| turn_key(t), |t: Turn| turn_phase(t), i as int);
                }
                return Some(i);
            }
            i = i + 1;
        }
        proof {
            lemma_table_absent(self.turns@, |t: Turn| turn_key(t), |t: Turn| turn_phase(t), id);
        }
        None
    }

    fn set_phase(&mut self, id: u128, phase: TurnPhase)
        requires
            old(self).wf(),
        ensures
            final(self).wf(),
            final(self)@ == old(self)@.insert(id, phase),
    {
        let e = Turn { id, phase };
        match self.find(id) {
            Some(i) => {
                let ghost s0 = self.turns@;
                self.turns.set(i, e);
                proof {
                    lemma_table_update(s0, |t: Turn| turn_key(t), |t: Turn| turn_phase(t), i as int, e);
                }
            },
            None => {
                let ghost s0 = self.turns@;
                self.turns.push(e);
                proof {
                    lemma_table_push(s0, |t: Turn| turn_key(t), |t: Turn| turn_phase(t), e);
                }
            },
        }
    }

    /// A step of the session's turn was spawned: the turn runs.
    pub fn start(&mut self, id: u128)
        requires
            old(self).wf(),
        ensures
            final(self).wf(),
            final(self)@ == old(self)@.insert(id, TurnPhase::Running),
    {
        self.set_phase(id, TurnPhase::Running);
    }

    /// Whether the session's turn runs: only a running turn goes on to its
    /// next step; a cancelled, finished or dropped one does not.
    pub fn is_running(&self, id: u128) -> (r: bool)
        requires
            self.wf(),
        ensures
            r == (self@.contains_key(id) && self@[id] == TurnPhase::Running),
    {
        match self.find(id) {
            Some(i) => self.turns[i].phase == TurnPhase::Running,
            None => false,
        }
    }

    /// The calls that a step of the session's turn asked for, to be run
    /// each once: all of them, in order, when the turn runs; none when it
    /// was cancelled, finished or dropped.
    pub fn tool_calls_to_run(&self, id: u128, calls: Vec<ToolCallPayload>) -> (r: Option<Vec<ToolCallPayload>>)
        requires
            self.wf(),
        ensures
            match r {
                Some(v) => self@.contains_key(id) && self@[id] == TurnPhase::Running && v@ == calls@,
                None => !(self@.contains_key(id) && self@[id] == TurnPhase::Running),
            },
    {
        if self.is_running(id) {
            Some(calls)
        } else {
            None
        }
    }

    /// Cancels the session's turn if it runs; `true` when it did, after
    /// which its task is aborted and its tools cancelled.
    pub fn abort_turn(&mut self, id: u128) -> (r: bool)
        requires
            old(self).wf(),
        ensures
            final(self).wf(),
            r == (old(self)@.contains_key(id) && old(self)@[id] == TurnPhase::Running),
            final(self)@ == if r { old(self)@.insert(id, TurnPhase::Cancelled) } else { old(self)@ },
    {
        if self.is_running(id) {
            self.set_phase(id, TurnPhase::Cancelled);
            true
        } else {
            false
        }
    }

    /// Forgets the session's turn; `true` when it was running, after which
    /// its task is aborted and its tools cancelled.
    pub fn drop_turn(&mut self, id: u128) -> (r: bool)
        requires
            old(self).wf(),
        ensures
            final(self).wf(),
            r == (old(self)@.contains_key(id) && old(self)@[id] == TurnPhase::Running),
            final(self)@ == old(self)@.remove(id),
    {
        match self.find(id) {
            Some(i) => {
                let running = self.turns[i].phase == TurnPhase::Running;
                let ghost s0 = self.turns@;
                let _ = self.turns.remove(i);
                proof {
                    lemma_table_remove(s0, |t: Turn| turn_key(t), |t: Turn| turn_phase(t), i as int);
                }
                running
            },
            None => {
                assert(self@.remove(id) =~= self@);
                false
            },
        }
    }

    /// The turn's last step finished: a running turn is done; a cancelled
    /// one stays cancelled.
    pub fn mark_step_done(&mut self, id: u128)
        requires
            old(self).wf(),
        ensures
            final(self).wf(),
            final(self)@ == if old(self)@.contains_key(id) && old(self)@[id] == TurnPhase::Running {
                old(self)@.insert(id, TurnPhase::Done)
            } else {
                old(self)@
            },
    {
        if self.is_running(id) {
            self.set_phase(id, TurnPhase::Done);
        }
    }
}

/// A cancelled turn does not come back by itself: finishing a step leaves
/// it cancelled, and its tool calls do not run.
pub proof fn cancelled_turn_stays_cancelled(m: Map<u128, TurnPhase>, id: u128)
    requires
        m.contains_key(id),
        m[id] == TurnPhase::Cancelled,
    ensures
        !(m.contains_key(id) && m[id] == TurnPhase::Running),
        (if m.contains_key(id) && m[id] == TurnPhase::Running { m.insert(id, TurnPhase::Done) } else { m }) == m,
{
}

/// A call's id, name and arguments.
pub open spec fn call_view(c: ToolCallPayload) -> (Seq<char>, Seq<char>, Seq<char>) {
    (c.call_id@, c.name@, c.arguments@)
}

/// The function call that an event carries, if any.
pub open spec fn call_in(e: ChatView) -> Option<(Seq<char>, Seq<char>, Seq<char>)> {
    match e {
        ChatView::OutputItem { item: ItemView::ToolCall { call_id, name, arguments } } => Some((call_id, name, arguments)),
        _ => None,
    }
}

/// What to do with a stream item once it is seen.
#[derive(Clone, Copy, Debug, PartialEq, Eq, Structural)]
pub struct StepAction {
    /// Hand the event to the session.
    pub forward: bool,
    /// The stream is over.
    pub terminal: bool,
}

/// The action for a stream item, given how many calls the step has seen
/// including this item's: a failure ends the step and is told; the end of
/// the stream is told only when no tool call follows; the rest is told.
pub open spec fn action_for(item: Result<ChatView, Seq<char>>, calls: nat) -> StepAction {
    match item {
        Err(_) => StepAction { forward: true, terminal: true },
        Ok(ChatView::Done) => StepAction { forward: calls == 0, terminal: true },
        Ok(_) => StepAction { forward: true, terminal: false },
    }
}

/// The state of one step: the calls seen so far, and whether the stream
/// failed.
pub struct Step {
    tool_calls: Vec<ToolCallPayload>,
    errored: bool,
}

/// What a step has seen.
pub struct StepView {
    pub calls: Seq<(Seq<char>, Seq<char>, Seq<char>)>,
    pub errored: bool,
}

impl View for Step {
    type V = StepView;

    closed spec fn view(&self) -> StepView {
        StepView { calls: self.tool_calls@.map_values(|c: ToolCallPayload| call_view(c)), errored: self.errored }
    }
}

/// The view of a stream item.
pub open spec fn item_view(item: Result<ChatEvent, String>) -> Result<ChatView, Seq<char>> {
    match item {
        Ok(e) => Ok(e@),
        Err(m) => Err(m@),
    }
}

/// A step after it sees a stream item.
pub open spec fn step_next(s: StepView, item: Result<ChatView, Seq<char>>) -> StepView {
    match item {
        Err(_) => StepView { errored: true, ..s },
        Ok(e) => match call_in(e) {
            Some(c) => StepView { calls: s.calls.push(c), ..s },
            None => s,
        },
    }
}

impl Step {
    pub fn new() -> (r: Self)
        ensures
            r@.calls.len() == 0,
            !r@.errored,
    {
        let r = Step { tool_calls: Vec::new(), errored: false };
        assert(r@.calls =~= Seq::<(Seq<char>, Seq<char>, Seq<char>)>::empty());
        r
    }

    /// Takes in one stream item: records its function call or its failure,
    /// and returns the session event for it with what to do next.
    pub fn observe(&mut self, item: Result<ChatEvent, String>) -> (r: (SessionEvent, StepAction))
        ensures
            final(self)@ == step_next(old(self)@, item_view(item)),
            r.1 == action_for(item_view(item), final(self)@.calls.len()),
            match item {
                Ok(e) => r.0@ == crate::controller::session::EventView::Chat(e@),
                Err(m) => r.0@ == crate::controller::session::EventView::Error(m@),
            },
    {
        match item {
            Err(m) => {
                self.errored = true;
                (SessionEvent::Error(m), StepAction { forward: true, terminal: true })
            },
            Ok(e) => {
                match &e {
                    ChatEvent::OutputItem { item: ConversationItem::ToolCall { call_id, name, arguments } } => {
                        let ghost before = self.tool_calls@;
                        self.tool_calls.push(ToolCallPayload {
                            call_id: call_id.clone(),
                            name: name.clone(),
                            arguments: arguments.clone(),
                        });
                        assert(self.tool_calls@.map_values(|c: ToolCallPayload| call_view(c)) =~= before.map_values(
                            |c: ToolCallPayload| call_view(c),
                        ).push(call_in(e@)->0));
                    },
                    _ => {},
                }
                let action = match &e {
                    ChatEvent::Done => StepAction { forward: self.tool_calls.len() == 0, terminal: true },
                    _ => StepAction { forward: true, terminal: false },
                };
                (SessionEvent::Chat(e), action)
            },
        }
    }

    /// How the step ends: the calls to run next, when the stream neither
    /// failed nor came without calls; `None` when the turn is done.
    pub fn finish(self) -> (r: Option<Vec<ToolCallPayload>>)
        ensures
            match r {
                Some(v) => !self@.errored && self@.calls.len() > 0 && v@.map_values(|c: ToolCallPayload| call_view(c)) == self@.calls,
                None => self@.errored || self@.calls.len() == 0,
            },
    {
        if !self.errored && self.tool_calls.len() > 0 {
            Some(self.tool_calls)
        } else {
            None
        }
    }
}

/// A step that saw a function call and no failure leads to another step;
/// a failure always ends the turn.
pub proof fn step_continues_only_after_calls(s: StepView, item: Result<ChatView, Seq<char>>)
    ensures
        item is Err ==> step_next(s, item).errored && action_for(item, step_next(s, item).calls.len()).terminal,
        (item matches Ok(e) && call_in(e) is Some) ==> step_next(s, item).calls.len() > 0
            && !action_for(item, step_next(s, item).calls.len()).terminal,
        item == Ok::<ChatView, Seq<char>>(ChatView::Done) && s.calls.len() > 0
            ==> !action_for(item, step_next(s, item).calls.len()).forward,
{
}

/// The session event recording a tool's output for a call.
pub open spec fn result_event(c: ToolCallPayload, output: Seq<char>) -> EventView {
    EventView::Chat(ChatView::OutputItem { item: ItemView::ToolResult { call_id: c.call_id@, name: c.name@, output } })
}

/// The events that record the outputs of a step's calls, in the order of
/// the calls (not the order the tools finished in): event `i` is the result
/// of call `i` with output `i`. They are added to the session before the
/// next stream of the turn opens.
pub fn tool_result_events(calls: &Vec<ToolCallPayload>, outputs: Vec<String>) -> (r: Vec<SessionEvent>)
    requires
        calls@.len() == outputs@.len(),
    ensures
        r@.len() == calls@.len(),
        forall|i: int| 0 <= i < r@.len() ==> (#[trigger] r@[i])@ == result_event(calls@[i], outputs@[i]@),
{
    let ghost os = outputs@;
    let n = calls.len();
    let mut r: Vec<SessionEvent> = Vec::new();
    let mut i: usize = 0;
    for output in it: outputs.into_iter()
        invariant
            it.seq() == os,
            os.len() == calls@.len(),
            n == calls@.len(),
            i == it.index(),
            r@.len() == i,
            forall|j: int| 0 <= j < r@.len() ==> (#[trigger] r@[j])@ == result_event(calls@[j], os[j]@),
    {
        let c = &calls[i];
        r.push(SessionEvent::Chat(ChatEvent::OutputItem {
            item: ConversationItem::ToolResult { call_id: c.call_id.clone(), name: c.name.clone(), output },
        }));
        i = i + 1;
    }
    r
}

} // verus!
