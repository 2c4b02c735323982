//! Searching the extensions: which capabilities a query goes to, and what
//! the UI is sent for each answer.
use vstd::prelude::*;
use vstd::string::*;
use crate::capability::{trim, trimmed};
use crate::controller::entity::{QueryResponse, RenderEvent, SearchRenderEvent};
use crate::entity::{ExtensionCapabilityId, HealthStatus};

verus! {

/// A capability of an extension, and whether it answers queries.
#[derive(Debug)]
pub struct SearchCapability {
    pub capability_id: String,
    pub searchable: bool,
}

/// An extension as a search sees it: its id, its connection's health and
/// its capabilities.
#[derive(Debug)]
pub struct SearchHandler {
    pub extension_id: String,
    pub status: HealthStatus,
    pub capabilities: Vec<SearchCapability>,
}

/// Whether a query reaches an extension: the user has not disabled it and
/// its connection runs.
pub open spec fn reachable(h: SearchHandler, disabled: Seq<Seq<char>>) -> bool {
    !disabled.contains(h.extension_id@) && h.status == HealthStatus::Running
}

/// The (extension, capability) pairs of an extension's searchable
/// capabilities, in order.
pub open spec fn searchable_of(h: SearchHandler) -> Seq<(Seq<char>, Seq<char>)> {
    h.capabilities@.filter(|c: SearchCapability| c.searchable).map_values(
        |c: SearchCapability| (h.extension_id@, c.capability_id@),
    )
}

/// The capabilities a query goes to: the searchable capabilities of every
/// reachable extension, extension by extension.
pub open spec fn targets_of(hs: Seq<SearchHandler>, disabled: Seq<Seq<char>>) -> Seq<(Seq<char>, Seq<char>)>
    decreases hs.len(),
{
    if hs.len() == 0 {
        Seq::empty()
    } else {
        targets_of(hs.drop_last(), disabled) + if reachable(hs.last(), disabled) {
            searchable_of(hs.last())
        } else {
            Seq::empty()
        }
    }
}

pub open spec fn target_view(t: ExtensionCapabilityId) -> (Seq<char>, Seq<char>) {
    (t.extension_id@, t.capability_id@)
}

fn is_disabled(disabled: &[String], id: &str) -> (r: bool)
    ensures
        r == disabled.deep_view().contains(id@),
{
    let n = disabled.len();
    let mut i: usize = 0;
    while i < n
        invariant
            n == disabled@.len(),
            i <= n,
            forall|j: int| 0 <= j < i ==> disabled.deep_view()[j] != id@,
        decreases n - i,
    {
        if crate::text::str_eq(disabled[i].as_str(), id) {
            assert(disabled.deep_view()[i as int] == id@);
            return true;
        }
        i = i + 1;
    }
    false
}

/// The capabilities a query goes to: of every extension the user has not
/// disabled and whose connection runs, each capability that answers
/// queries. The result holds exactly these pairs, in the order of the
/// handlers and of their capabilities.
pub fn search_targets(handlers: &[SearchHandler], disabled: &[String]) -> (r: Vec<ExtensionCapabilityId>)
    ensures
        r@.map_values(|t: ExtensionCapabilityId| target_view(t)) == targets_of(handlers@, disabled.deep_view()),
{
    let ghost dv = disabled.deep_view();
    let mut r: Vec<ExtensionCapabilityId> = Vec::new();
    let n = handlers.len();
    let mut i: usize = 0;
    while i < n
        invariant
            n == handlers@.len(),
            i <= n,
            dv == disabled.deep_view(),
            r@.map_values(|t: ExtensionCapabilityId| target_view(t)) == targets_of(handlers@.take(i as int), dv),
        decreases n - i,
    {
        let h = &handlers[i];
        proof {
            assert(handlers@.take(i + 1).drop_last() =~= handlers@.take(i as int));
            assert(handlers@.take(i + 1).last() == *h);
        }
        let ghost before = r@.map_values(|t: ExtensionCapabilityId| target_view(t));
        if !is_disabled(disabled, h.extension_id.as_str()) && h.status == HealthStatus::Running {
            let caps = &h.capabilities;
            let m = caps.len();
            let ghost pred = |c: SearchCapability| c.searchable;
            let ghost f = |c: SearchCapability| (h.extension_id@, c.capability_id@);
            let mut k: usize = 0;
            while k < m
                invariant
                    m == caps@.len(),
                    k <= m,
                    caps == h.capabilities,
                    r@.map_values(|t: ExtensionCapabilityId| target_view(t)) == before + caps@.take(k as int).filter(pred).map_values(f),
                    pred == (|c: SearchCapability| c.searchable),
                    f == (|c: SearchCapability| (h.extension_id@, c.capability_id@)),
                decreases m - k,
            {
                proof {
                    assert(caps@.take(k + 1) =~= caps@.take(k as int).push(caps@[k as int]));
                    caps@.take(k as int).lemma_filter_push(caps@[k as int], pred);
                }
                let ghost prev = r@;
                if caps[k].searchable {
                    r.push(ExtensionCapabilityId {
                        extension_id: h.extension_id.clone(),
                        capability_id: caps[k].capability_id.clone(),
                    });
                    assert(r@.map_values(|t: ExtensionCapabilityId| target_view(t)) =~= prev.map_values(|t: ExtensionCapabilityId| target_view(t)).push(f(caps@[k as int])));
                    assert(caps@.take(k + 1).filter(pred).map_values(f) =~= caps@.take(k as int).filter(pred).map_values(f).push(f(caps@[k as int])));
                } else {
                    assert(caps@.take(k + 1).filter(pred).map_values(f) =~= caps@.take(k as int).filter(pred).map_values(f));
                }
                k = k + 1;
            }
            assert(caps@.take(m as int) =~= caps@);
            assert(r@.map_values(|t: ExtensionCapabilityId| target_view(t)) =~= targets_of(handlers@.take(i + 1), dv));
        } else {
            assert(r@.map_values(|t: ExtensionCapabilityId| target_view(t)) =~= targets_of(handlers@.take(i + 1), dv));
        }
        i = i + 1;
    }
    assert(handlers@.take(n as int) =~= handlers@);
    r
}

/// Whether a query is blank, white space alone: it then reaches no
/// extension, and the search is done at once.
pub fn search_is_blank(input: &str) -> (r: bool)
    ensures
        r == (trimmed(input@).len() == 0),
{
    trim(input).len() == 0
}

/// What the UI is sent for one extension's answer: its items to append, or
/// the failure described.
pub fn search_event(result: Result<QueryResponse, String>) -> (r: RenderEvent)
    ensures
        answer_event(result, r),
{
    match result {
        Ok(response) => RenderEvent::Search(SearchRenderEvent::Append { response }),
        Err(message) => RenderEvent::Error { message },
    }
}

/// Whether `r` is what the UI is sent for one answer.
pub open spec fn answer_event(result: Result<QueryResponse, String>, r: RenderEvent) -> bool {
    match result {
        Ok(response) => r == RenderEvent::Search(SearchRenderEvent::Append { response }),
        Err(message) => r matches RenderEvent::Error { message: m } && m@ == message@,
    }
}

/// What the UI is sent for a search, given the answers in the order they
/// arrived: an event per answer in that order, then `Done`, on which the UI
/// resolves the query.
pub fn search_events(answers: Vec<Result<QueryResponse, String>>) -> (r: Vec<RenderEvent>)
    ensures
        r@.len() == answers@.len() + 1,
        forall|i: int| 0 <= i < answers@.len() ==> answer_event(answers@[i], #[trigger] r@[i]),
        r@.last() == RenderEvent::Done,
{
    let ghost a = answers@;
    let mut r: Vec<RenderEvent> = Vec::new();
    for x in it: answers.into_iter()
        invariant
            it.seq() == a,
            r@.len() == it.index(),
            forall|i: int| 0 <= i < r@.len() ==> answer_event(a[i], #[trigger] r@[i]),
    {
        r.push(search_event(x));
    }
    r.push(RenderEvent::Done);
    r
}

/// What the UI is sent when the disabled extensions cannot be read; the
/// search is then done.
pub fn search_setup_error(cause: &str) -> (r: RenderEvent)
    ensures
        r matches RenderEvent::Error { message } && message@ == "fail to get disabled plugins: "@ + cause@,
{
    let mut m = "fail to get disabled plugins: ".to_owned();
    m.append(cause);
    RenderEvent::Error { message: m }
}

} // verus!
