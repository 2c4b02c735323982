//! Capabilities: what the launcher and the assistant can use, and the items
//! they show.
use vstd::prelude::*;
use crate::entity::Icon;

pub mod calculator;
pub mod clipboard;
pub mod app_search;
pub mod fuzzy;
pub mod file_search;
pub mod file_index;
pub mod process;
pub mod shell_output;

verus! {

/// Something the app offers under a unique id, with a description for the UI.
pub trait Capability {
    /// The handler's unique name.
    fn id(&self) -> &'static str;

    /// The handler's description for display.
    fn metadata(&self) -> CapabilityMeta;
}

/// How a capability presents itself.
#[derive(Clone, Debug, PartialEq, Eq)]
pub struct CapabilityMeta {
    pub name: String,
    pub version: String,
    pub description: String,
    pub icon: Option<Icon>,
    pub homepage: Option<String>,
    pub author: Option<String>,
}

/// What a tool hands back.
#[derive(Debug)]
pub enum ToolResult {
    Text(String),
    Binary { mime_type: String, data: Vec<u8> },
}

/// An icon by theme name.
#[derive(Clone, Debug, PartialEq, Eq)]
pub enum IconRef {
    Name(String),
}

/// Something the user can do with an item; `params` travel back to the
/// handler when it runs.
#[derive(Clone, Debug, PartialEq, Eq)]
pub struct Action {
    pub label: String,
    pub params: Vec<String>,
    pub primary: bool,
}

/// One result row of a query.
#[derive(Clone, Debug, PartialEq, Eq)]
pub struct Item {
    pub title: String,
    pub subtitle: Option<String>,
    pub icon: Option<IconRef>,
    pub actions: Vec<Action>,
}

/// What the launcher does once an action ran.
#[derive(Clone, Copy, Debug, PartialEq, Eq, Structural)]
pub enum ActionOutcome {
    Hide,
}

/// Unicode white space, as `char::is_whitespace` knows it.
pub open spec fn white_space(c: char) -> bool {
    ||| '\u{9}' <= c <= '\u{d}'
    ||| c == ' '
    ||| c == '\u{85}'
    ||| c == '\u{a0}'
    ||| c == '\u{1680}'
    ||| '\u{2000}' <= c <= '\u{200a}'
    ||| c == '\u{2028}'
    ||| c == '\u{2029}'
    ||| c == '\u{202f}'
    ||| c == '\u{205f}'
    ||| c == '\u{3000}'
}

pub fn is_white_space(c: char) -> (r: bool)
    ensures
        r == white_space(c),
{
    ('\u{9}' <= c && c <= '\u{d}') || c == ' ' || c == '\u{85}' || c == '\u{a0}' || c == '\u{1680}'
        || ('\u{2000}' <= c && c <= '\u{200a}') || c == '\u{2028}' || c == '\u{2029}' || c == '\u{202f}'
        || c == '\u{205f}' || c == '\u{3000}'
}

/// The number of white-space characters that `s` starts with.
pub open spec fn lead(s: Seq<char>) -> nat
    decreases s.len(),
{
    if s.len() > 0 && white_space(s[0]) {
        1 + lead(s.drop_first())
    } else {
        0
    }
}

/// The number of white-space characters that `s` ends with.
pub open spec fn trail(s: Seq<char>) -> nat
    decreases s.len(),
{
    if s.len() > 0 && white_space(s.last()) {
        1 + trail(s.drop_last())
    } else {
        0
    }
}

/// `s` without white space at either end.
pub open spec fn trimmed(s: Seq<char>) -> Seq<char> {
    let a = lead(s) as int;
    if a == s.len() {
        Seq::empty()
    } else {
        s.subrange(a, s.len() - trail(s) as int)
    }
}

proof fn lemma_lead(s: Seq<char>, i: int)
    requires
        0 <= i <= s.len(),
        forall|j: int| 0 <= j < i ==> white_space(#[trigger] s[j]),
        i == s.len() || !white_space(s[i]),
    ensures
        lead(s) == i,
    decreases i,
{
    if i > 0 {
        lemma_lead(s.drop_first(), i - 1);
    }
}

proof fn lemma_trail(s: Seq<char>, k: int)
    requires
        0 <= k <= s.len(),
        forall|j: int| k <= j < s.len() ==> white_space(#[trigger] s[j]),
        k == 0 || !white_space(s[k - 1]),
    ensures
        trail(s) == s.len() - k,
    decreases s.len() - k,
{
    if k < s.len() {
        lemma_trail(s.drop_last(), k);
    }
}

/// `s` without leading and trailing white space (`str::trim`).
pub fn trim(s: &str) -> (r: Vec<char>)
    ensures
        r@ == trimmed(s@),
{
    let v = crate::text::chars_of(s);
    trim_chars(v.as_slice())
}

/// `s` without leading and trailing white space.
pub fn trim_chars(v: &[char]) -> (r: Vec<char>)
    ensures
        r@ == trimmed(v@),
{
    let ghost s = v@;
    let n = v.len();
    let mut a: usize = 0;
    while a < n && is_white_space(v[a])
        invariant
            v@ == s,
            n == v@.len(),
            a <= n,
            forall|j: int| 0 <= j < a ==> white_space(#[trigger] v@[j]),
        decreases n - a,
    {
        a = a + 1;
    }
    proof {
        lemma_lead(s, a as int);
    }
    let mut r: Vec<char> = Vec::new();
    if a == n {
        return r;
    }
    let mut b: usize = n;
    while b > a && is_white_space(v[b - 1])
        invariant
            v@ == s,
            n == v@.len(),
            a < n,
            !white_space(v@[a as int]),
            a <= b <= n,
            forall|j: int| b <= j < n ==> white_space(#[trigger] v@[j]),
        decreases b,
    {
        b = b - 1;
    }
    proof {
        lemma_trail(s, b as int);
    }
    let mut i: usize = a;
    while i < b
        invariant
            v@ == s,
            a <= i <= b <= n,
            n == v@.len(),
            r@ == v@.subrange(a as int, i as int),
        decreases b - i,
    {
        r.push(v[i]);
        i = i + 1;
        assert(r@ =~= v@.subrange(a as int, i as int));
    }
    r
}

} // verus!
