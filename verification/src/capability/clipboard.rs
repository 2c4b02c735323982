//! Clipboard history: newest first, without repeats, capped in length;
//! and the items a query shows of it.
use vstd::prelude::*;
use vstd::string::*;
use crate::capability::{trim_chars, trimmed, Action, ActionOutcome, Capability, CapabilityMeta, IconRef, Item};
use crate::text::{chars_contain, chars_of, has_infix, string_of};

verus! {

/// The history keeps at most this many entries.
pub const HISTORY_LIMIT: usize = 100;

pub const ICON_NAME: &'static str = "edit-paste";

pub const COPY_ACTION_LABEL: &'static str = "Copy";

pub const REMOVE_ACTION_LABEL: &'static str = "Remove";

/// Lower-cased text, as `str::to_lowercase` computes it (full Unicode case
/// mapping).
pub uninterp spec fn lowercase(s: Seq<char>) -> Seq<char>;

/// Calls `str::to_lowercase`: the result is the Unicode lower-case mapping
/// of `s`, a function of `s` alone.
#[verifier::external_body]
fn to_lowercase(s: &str) -> (r: String)
    ensures
        r@ == lowercase(s@),
{
    s.to_lowercase()
}

/// Entries other than `t`.
pub open spec fn other_than(t: Seq<char>) -> spec_fn(Seq<char>) -> bool {
    |e: Seq<char>| e != t
}

/// The history after `t` is copied: `t` first, the other entries after it
/// in their order, and no more than the limit.
pub open spec fn pushed(h: Seq<Seq<char>>, t: Seq<char>) -> Seq<Seq<char>> {
    let all = seq![t] + h.filter(other_than(t));
    if all.len() > HISTORY_LIMIT {
        all.take(HISTORY_LIMIT as int)
    } else {
        all
    }
}

/// Whether an entry matches a lower-cased, trimmed query.
pub open spec fn matches_query(q: Seq<char>) -> spec_fn(Seq<char>) -> bool {
    |e: Seq<char>| q.len() == 0 || has_infix(lowercase(e), q)
}

/// The query as it is matched: trimmed, then lower-cased.
pub open spec fn query_key(input: Seq<char>) -> Seq<char> {
    lowercase(trimmed(input))
}

/// The item shown for an entry: the text as title, and the actions to copy
/// it (primary) or to remove it from the history, each carrying the text.
pub open spec fn is_entry_item(r: Item, text: Seq<char>) -> bool {
    &&& r.title@ == text
    &&& r.subtitle is None
    &&& r.icon matches Some(IconRef::Name(n)) && n@ == ICON_NAME@
    &&& r.actions@.len() == 2
    &&& r.actions@[0].label@ == COPY_ACTION_LABEL@
    &&& r.actions@[0].params@.len() == 1 && r.actions@[0].params@[0]@ == text
    &&& r.actions@[0].primary
    &&& r.actions@[1].label@ == REMOVE_ACTION_LABEL@
    &&& r.actions@[1].params@.len() == 1 && r.actions@[1].params@[0]@ == text
    &&& !r.actions@[1].primary
}

/// The item for one history entry.
pub fn build_item(text: &str) -> (r: Item)
    ensures
        is_entry_item(r, text@),
{
    let mut actions: Vec<Action> = Vec::new();
    let mut p1: Vec<String> = Vec::new();
    p1.push(text.to_owned());
    actions.push(Action { label: COPY_ACTION_LABEL.to_owned(), params: p1, primary: true });
    let mut p2: Vec<String> = Vec::new();
    p2.push(text.to_owned());
    actions.push(Action { label: REMOVE_ACTION_LABEL.to_owned(), params: p2, primary: false });
    Item { title: text.to_owned(), subtitle: None, icon: Some(IconRef::Name(ICON_NAME.to_owned())), actions }
}

/// What an action on a clipboard item asks for.
#[derive(Debug, PartialEq, Eq)]
pub enum ClipboardRequest {
    /// Put the text on the system clipboard.
    Copy(String),
    /// Drop the text from the history.
    Remove(String),
    /// Nothing to do: no payload, or an unknown label.
    Ignore,
}

/// Browses and reuses clipboard history.
pub struct Clipboard {
    history: Vec<String>,
}

impl View for Clipboard {
    type V = Seq<Seq<char>>;

    closed spec fn view(&self) -> Seq<Seq<char>> {
        self.history.deep_view()
    }
}

impl Capability for Clipboard {
    fn id(&self) -> (r: &'static str)
        ensures
            r@ == "clipboard"@,
    {
        "clipboard"
    }

    fn metadata(&self) -> (r: CapabilityMeta)
        ensures
            r.name@ == "Clipboard"@,
            r.version@ == crate::PACKAGE_VERSION@,
            r.description@ == "Browse and reuse clipboard history."@,
            r.icon is None,
            r.homepage is None,
            r.author is None,
    {
        CapabilityMeta {
            name: "Clipboard".to_owned(),
            description: "Browse and reuse clipboard history.".to_owned(),
            version: crate::PACKAGE_VERSION.to_owned(),
            icon: None,
            homepage: None,
            author: None,
        }
    }
}

impl Clipboard {
    /// An empty history.
    pub fn new() -> (r: Self)
        ensures
            r@ == Seq::<Seq<char>>::empty(),
    {
        let r = Clipboard { history: Vec::new() };
        assert(r@ =~= Seq::<Seq<char>>::empty());
        r
    }

    /// The entries, newest first.
    pub fn entries(&self) -> (r: &[String])
        ensures
            r.deep_view() == self@,
    {
        let r = self.history.as_slice();
        assert(r.deep_view() =~= self.history.deep_view());
        r
    }

    /// The entries other than `text`, in their order.
    fn without(&mut self, text: &str)
        ensures
            final(self)@ == old(self)@.filter(other_than(text@)),
    {
        let ghost h = old(self)@;
        let mut kept: Vec<String> = Vec::new();
        let n = self.history.len();
        let mut i: usize = 0;
        while i < n
            invariant
                n == self.history@.len(),
                h == self.history.deep_view(),
                i <= n,
                kept.deep_view() == h.take(i as int).filter(other_than(text@)),
            decreases n - i,
        {
            proof {
                assert(h.take(i + 1) =~= h.take(i as int).push(h[i as int]));
                h.take(i as int).lemma_filter_push(h[i as int], other_than(text@));
            }
            if !crate::text::str_eq(self.history[i].as_str(), text) {
                let ghost before = kept.deep_view();
                kept.push(self.history[i].clone());
                assert(kept.deep_view() =~= before.push(h[i as int]));
            }
            i = i + 1;
        }
        assert(h.take(n as int) =~= h);
        self.history = kept;
    }

    /// Records a copied text: it moves to the front, and the history keeps
    /// no more than [`HISTORY_LIMIT`] entries.
    pub fn push_entry(&mut self, text: String)
        ensures
            final(self)@ == pushed(old(self)@, text@),
    {
        let ghost h = old(self)@;
        self.without(text.as_str());
        let ghost rest = self@;
        let ghost full = seq![text@] + rest;
        self.history.insert(0, text);
        assert(self@ =~= full);
        while self.history.len() > HISTORY_LIMIT
            invariant
                self@.len() == self.history@.len(),
                self@.len() == full.len() || self@.len() >= HISTORY_LIMIT,
                self@.len() <= full.len(),
                self@ == full.take(self@.len() as int),
            decreases self@.len(),
        {
            let ghost before = self.history@;
            let _ = self.history.pop();
            assert(self.history@ =~= before.drop_last());
            assert(self@ =~= full.take(self@.len() as int));
        }
        assert(full.take(full.len() as int) =~= full);
    }

    /// Removes every entry equal to `text`.
    pub fn remove_entry(&mut self, text: &str)
        ensures
            final(self)@ == old(self)@.filter(other_than(text@)),
    {
        self.without(text);
    }

    /// The items for the entries that contain the query, compared in lower
    /// case after trimming; an empty query shows every entry.
    pub fn query(&self, input: &str) -> (r: Vec<Item>)
        ensures
            r@.len() == self@.filter(matches_query(query_key(input@))).len(),
            forall|i: int| 0 <= i < r@.len() ==> is_entry_item(#[trigger] r@[i], self@.filter(matches_query(query_key(input@)))[i]),
    {
        let ghost h = self@;
        let t = string_of(trim_chars(chars_of(input).as_slice()).as_slice());
        let q = to_lowercase(t.as_str());
        let ghost key = q@;
        assert(key == query_key(input@));
        let ghost m = matches_query(key);
        let empty = q.as_str().unicode_len() == 0;
        let mut r: Vec<Item> = Vec::new();
        let n = self.history.len();
        let mut i: usize = 0;
        while i < n
            invariant
                n == self.history@.len(),
                h == self.history.deep_view(),
                i <= n,
                key == q@,
                m == matches_query(key),
                empty == (key.len() == 0),
                r@.len() == h.take(i as int).filter(m).len(),
                forall|j: int| 0 <= j < r@.len() ==> is_entry_item(#[trigger] r@[j], h.take(i as int).filter(m)[j]),
            decreases n - i,
        {
            proof {
                assert(h.take(i + 1) =~= h.take(i as int).push(h[i as int]));
                h.take(i as int).lemma_filter_push(h[i as int], m);
            }
            let e = self.history[i].as_str();
            assert(e@ == h[i as int]);
            let hit = if empty {
                true
            } else {
                let low = to_lowercase(e);
                chars_contain(chars_of(low.as_str()).as_slice(), q.as_str())
            };
            if hit {
                r.push(build_item(e));
            }
            i = i + 1;
        }
        assert(h.take(n as int) =~= h);
        r
    }

    /// What an action asks of the clipboard: its first parameter is the text.
    pub fn request(action: Action) -> (r: ClipboardRequest)
        ensures
            action.params@.len() == 0 ==> r == ClipboardRequest::Ignore,
            action.params@.len() > 0 ==> (if action.label@ == COPY_ACTION_LABEL@ {
                r matches ClipboardRequest::Copy(t) && t@ == action.params@[0]@
            } else if action.label@ == REMOVE_ACTION_LABEL@ {
                r matches ClipboardRequest::Remove(t) && t@ == action.params@[0]@
            } else {
                r == ClipboardRequest::Ignore
            }),
    {
        if action.params.len() == 0 {
            return ClipboardRequest::Ignore;
        }
        let text = action.params[0].clone();
        if crate::text::str_eq(action.label.as_str(), COPY_ACTION_LABEL) {
            ClipboardRequest::Copy(text)
        } else if crate::text::str_eq(action.label.as_str(), REMOVE_ACTION_LABEL) {
            ClipboardRequest::Remove(text)
        } else {
            ClipboardRequest::Ignore
        }
    }

    /// Carries out a remove request; copying is left to the caller, which
    /// owns the system clipboard. The launcher hides either way.
    pub fn run(&mut self, request: &ClipboardRequest) -> (r: ActionOutcome)
        ensures
            r == ActionOutcome::Hide,
            match request {
                ClipboardRequest::Remove(t) => final(self)@ == old(self)@.filter(other_than(t@)),
                _ => final(self)@ == old(self)@,
            },
    {
        match request {
            ClipboardRequest::Remove(t) => self.remove_entry(t.as_str()),
            _ => {},
        }
        ActionOutcome::Hide
    }
}

/// No entry occurs twice.
pub open spec fn distinct(h: Seq<Seq<char>>) -> bool {
    forall|i: int, j: int| 0 <= i < j < h.len() ==> h[i] != h[j]
}

proof fn lemma_filter_all<A>(s: Seq<A>, p: spec_fn(A) -> bool)
    requires
        forall|i: int| 0 <= i < s.len() ==> p(#[trigger] s[i]),
    ensures
        s.filter(p) == s,
    decreases s.len(),
{
    if s.len() > 0 {
        let d = s.drop_last();
        lemma_filter_all(d, p);
        d.lemma_filter_push(s.last(), p);
        assert(d.push(s.last()) =~= s);
    }
}

proof fn lemma_filter_distinct(h: Seq<Seq<char>>, p: spec_fn(Seq<char>) -> bool)
    requires
        distinct(h),
    ensures
        distinct(h.filter(p)),
        forall|i: int| 0 <= i < h.filter(p).len() ==> h.contains(#[trigger] h.filter(p)[i]) && p(h.filter(p)[i]),
    decreases h.len(),
{
    broadcast use vstd::seq_lib::group_filter_ensures;
    if h.len() > 0 {
        let d = h.drop_last();
        let x = h.last();
        assert(distinct(d));
        lemma_filter_distinct(d, p);
        d.lemma_filter_push(x, p);
        assert(d.push(x) =~= h);
        let f = d.filter(p);
        assert forall|i: int| 0 <= i < f.len() implies #[trigger] f[i] != x by {
            assert(d.contains(f[i]));
            let k = choose|k: int| 0 <= k < d.len() && d[k] == f[i];
            assert(h[k] == d[k]);
            assert(h[h.len() - 1] == x);
        }
        assert forall|i: int| 0 <= i < h.filter(p).len() implies h.contains(#[trigger] h.filter(p)[i]) by {
            if i < f.len() {
                let k = choose|k: int| 0 <= k < d.len() && d[k] == f[i];
                assert(h[k] == d[k]);
            } else {
                assert(h[h.len() - 1] == x);
            }
        }
    }
}

/// After a copy, the copied text leads the history, occurs in it once, and
/// every other entry was there before; the history stays within its limit
/// and, if it had no repeats, still has none.
pub proof fn push_entry_laws(h: Seq<Seq<char>>, t: Seq<char>)
    ensures
        pushed(h, t).len() >= 1,
        pushed(h, t)[0] == t,
        pushed(h, t).len() <= HISTORY_LIMIT,
        forall|i: int| 1 <= i < pushed(h, t).len() ==> #[trigger] pushed(h, t)[i] != t && h.contains(pushed(h, t)[i]),
        distinct(h) ==> distinct(pushed(h, t)),
{
    broadcast use vstd::seq_lib::group_filter_ensures;
    let f = h.filter(other_than(t));
    let all = seq![t] + f;
    assert forall|i: int| 0 <= i < f.len() implies #[trigger] f[i] != t && h.contains(f[i]) by {
        assert(other_than(t)(f[i]));
        assert(f.contains(f[i]));
        h.lemma_filter_contains_rev(other_than(t), f[i]);
    }
    assert forall|i: int| 1 <= i < pushed(h, t).len() implies #[trigger] pushed(h, t)[i] != t && h.contains(pushed(h, t)[i]) by {
        assert(pushed(h, t)[i] == all[i]);
        assert(all[i] == f[i - 1]);
    }
    if distinct(h) {
        lemma_filter_distinct(h, other_than(t));
        assert forall|i: int, j: int| 0 <= i < j < pushed(h, t).len() implies pushed(h, t)[i] != pushed(h, t)[j] by {
            assert(pushed(h, t)[i] == all[i]);
            assert(pushed(h, t)[j] == all[j]);
            assert(all[j] == f[j - 1]);
            if i > 0 {
                assert(all[i] == f[i - 1]);
            }
        }
    }
}

/// Copying the same text twice leaves the history as copying it once.
pub proof fn push_entry_idempotent(h: Seq<Seq<char>>, t: Seq<char>)
    ensures
        pushed(pushed(h, t), t) == pushed(h, t),
{
    broadcast use vstd::seq_lib::group_filter_ensures;
    let p = pushed(h, t);
    push_entry_laws(h, t);
    let rest = p.drop_first();
    assert(p =~= seq![t] + rest);
    Seq::filter_distributes_over_add(seq![t], rest, other_than(t));
    assert(seq![t].filter(other_than(t)) =~= Seq::<Seq<char>>::empty()) by {
        Seq::<Seq<char>>::empty().lemma_filter_push(t, other_than(t));
        assert(Seq::<Seq<char>>::empty().push(t) =~= seq![t]);
        assert(Seq::<Seq<char>>::empty().filter(other_than(t)) =~= Seq::<Seq<char>>::empty()) by {
            reveal(Seq::filter);
        }
    }
    assert forall|i: int| 0 <= i < rest.len() implies other_than(t)(#[trigger] rest[i]) by {
        assert(rest[i] == p[i + 1]);
    }
    lemma_filter_all(rest, other_than(t));
    assert(p.filter(other_than(t)) =~= rest);
    assert(seq![t] + rest =~= p);
}

/// After removing a text, the history no longer holds it, and keeps every
/// other entry in order.
pub proof fn remove_entry_forgets(h: Seq<Seq<char>>, t: Seq<char>)
    ensures
        !h.filter(other_than(t)).contains(t),
        forall|i: int| 0 <= i < h.len() && h[i] != t ==> h.filter(other_than(t)).contains(#[trigger] h[i]),
{
    broadcast use vstd::seq_lib::group_filter_ensures;
    if h.filter(other_than(t)).contains(t) {
        let k = choose|k: int| 0 <= k < h.filter(other_than(t)).len() && h.filter(other_than(t))[k] == t;
        assert(other_than(t)(h.filter(other_than(t))[k]));
    }
    assert forall|i: int| 0 <= i < h.len() && h[i] != t implies h.filter(other_than(t)).contains(#[trigger] h[i]) by {
        assert(other_than(t)(h[i]));
    }
}

/// Searching the history is a substring search in lower case: for a
/// non-empty query (trimmed, lower-cased), an entry is listed exactly when
/// the query occurs somewhere in the lower-cased entry, at its start, its
/// end or anywhere between; an empty query lists every entry.
pub proof fn query_is_substring_search(h: Seq<Seq<char>>, input: Seq<char>)
    ensures
        forall|i: int| 0 <= i < h.len() ==> (h.filter(matches_query(query_key(input))).contains(#[trigger] h[i]) <==> (
            lowercase(trimmed(input)).len() == 0 || exists|k: int| 0 <= k && k + lowercase(trimmed(input)).len() <= lowercase(h[i]).len()
                && #[trigger] lowercase(h[i]).subrange(k, k + lowercase(trimmed(input)).len()) == lowercase(trimmed(input))
        )),
        forall|e: Seq<char>| #[trigger] h.filter(matches_query(query_key(input))).contains(e) ==> h.contains(e),
{
    broadcast use vstd::seq_lib::group_filter_ensures;
    let m = matches_query(query_key(input));
    assert forall|i: int| 0 <= i < h.len() implies (h.filter(m).contains(#[trigger] h[i]) <==> m(h[i])) by {
        if h.filter(m).contains(h[i]) {
            h.lemma_filter_contains_rev(m, h[i]);
            let k = choose|k: int| 0 <= k < h.filter(m).len() && h.filter(m)[k] == h[i];
            assert(m(h.filter(m)[k]));
        }
        if m(h[i]) {
            h.lemma_filter_contains(m, i);
        }
    }
    assert forall|e: Seq<char>| #[trigger] h.filter(m).contains(e) implies h.contains(e) by {
        h.lemma_filter_contains_rev(m, e);
    }
}

} // verus!
