//! Application search: which desktop entries are kept, what an entry is
//! searched by, how a query scores it, and the order of the results.
use vstd::prelude::*;
use vstd::string::*;
use crate::capability::fuzzy::{atom_count, atom_score, new_matcher, parse_pattern, score_atom, DefaultMatcher, QueryPattern};
use crate::capability::{trim, trimmed, Action, ActionOutcome, Capability, CapabilityMeta, IconRef, Item};
use crate::permission::names::{unix_file_name, unix_name};
use crate::text::{chars_eq, lower, string_of};
use crate::capability::calculator::utf8_len;

verus! {

pub const NAME_WEIGHT: u32 = 10000;

pub const GENERIC_NAME_WEIGHT: u32 = 7000;

pub const KEYWORD_WEIGHT: u32 = 5000;

pub const EXEC_WEIGHT: u32 = 3000;

/// An installed application, as its desktop entry describes it.
#[derive(Debug)]
pub struct AppEntry {
    pub name: String,
    pub generic_name: Option<String>,
    pub keywords: Vec<String>,
    /// The command line, split into words.
    pub command: Vec<String>,
    pub icon: Option<String>,
}

/// Interpreters and wrappers, which say nothing of the application.
pub open spec fn interpreter_name(s: Seq<char>) -> bool {
    ||| s == "bash"@
    ||| s == "dbus-send"@
    ||| s == "env"@
    ||| s == "flatpak"@
    ||| s == "java"@
    ||| s == "perl"@
    ||| s == "python"@
    ||| s == "python2"@
    ||| s == "python3"@
    ||| s == "ruby"@
    ||| s == "sh"@
}

/// Whether a command word runs an interpreter or wrapper, judged by its
/// file name.
pub open spec fn interpreter(tok: Seq<char>) -> bool {
    interpreter_name(match unix_file_name(tok) {
        Some(n) => n,
        None => tok,
    })
}

/// Whether `tok` names an interpreter or wrapper binary (its file name is
/// one of bash, dbus-send, env, flatpak, java, perl, python, python2,
/// python3, ruby, sh).
pub fn is_interpreter(tok: &str) -> (r: bool)
    ensures
        r == interpreter(tok@),
{
    let last: Vec<char> = match unix_name(tok) {
        Some(n) => n,
        None => crate::text::chars_of(tok),
    };
    let l = last.as_slice();
    chars_eq(l, "bash") || chars_eq(l, "dbus-send") || chars_eq(l, "env") || chars_eq(l, "flatpak")
        || chars_eq(l, "java") || chars_eq(l, "perl") || chars_eq(l, "python") || chars_eq(l, "python2")
        || chars_eq(l, "python3") || chars_eq(l, "ruby") || chars_eq(l, "sh")
}

/// The command word an application is searched by: the first that is no
/// interpreter, else the first.
pub open spec fn exec_interest(exec: Seq<Seq<char>>) -> Option<Seq<char>> {
    if exists|i: int| 0 <= i < exec.len() && !interpreter(#[trigger] exec[i]) {
        let i = choose|i: int| 0 <= i < exec.len() && !interpreter(#[trigger] exec[i])
            && forall|j: int| 0 <= j < i ==> interpreter(#[trigger] exec[j]);
        Some(exec[i])
    } else if exec.len() > 0 {
        Some(exec[0])
    } else {
        None
    }
}

pub open spec fn nonempty() -> spec_fn(Seq<char>) -> bool {
    |s: Seq<char>| s.len() > 0
}

/// The texts an application is searched by, each with its weight: its
/// name, its generic name, its non-empty keywords and its command word.
pub open spec fn fields(app: AppEntry) -> Seq<(Seq<char>, int)> {
    seq![(app.name@, NAME_WEIGHT as int)]
        + (match app.generic_name {
            Some(g) => seq![(g@, GENERIC_NAME_WEIGHT as int)],
            None => Seq::empty(),
        })
        + app.keywords.deep_view().filter(nonempty()).map_values(|k: Seq<char>| (k, KEYWORD_WEIGHT as int))
        + (match exec_interest(app.command.deep_view()) {
            Some(e) => seq![(e, EXEC_WEIGHT as int)],
            None => Seq::empty(),
        })
}

/// The best weighted score that atom `a` gives any of the fields.
pub open spec fn best(q: Seq<char>, a: int, f: Seq<(Seq<char>, int)>) -> Option<int>
    decreases f.len(),
{
    if f.len() == 0 {
        None
    } else {
        let rest = best(q, a, f.drop_last());
        match atom_score(q, false, a, f.last().0) {
            None => rest,
            Some(s) => {
                let v = s + f.last().1;
                match rest {
                    None => Some(v),
                    Some(r) => Some(if r >= v { r } else { v }),
                }
            },
        }
    }
}

/// The sum, over the first `k` atoms, of each atom's best score; `None`
/// when some atom matches no field.
pub open spec fn total(q: Seq<char>, f: Seq<(Seq<char>, int)>, k: nat) -> Option<int>
    decreases k,
{
    if k == 0 {
        Some(0)
    } else {
        match (total(q, f, (k - 1) as nat), best(q, k - 1, f)) {
            (Some(t), Some(b)) => Some(t + b),
            _ => None,
        }
    }
}

/// An application's score for a query: every atom must match some field.
/// The scores are summed in a `u32`, as nucleo sums them; a sum past
/// `u32::MAX` leaves the application out.
pub open spec fn app_score(q: Seq<char>, app: AppEntry) -> Option<int> {
    match total(q, fields(app), atom_count(q, false)) {
        Some(t) => if t <= u32::MAX { Some(t) } else { None },
        None => None,
    }
}

/// Every text of the entry fits nucleo's haystack limit, in bytes.
pub open spec fn searchable(app: AppEntry) -> bool {
    &&& utf8_len(app.name@) <= u32::MAX
    &&& (app.generic_name matches Some(g) ==> utf8_len(g@) <= u32::MAX)
    &&& forall|i: int| 0 <= i < app.keywords@.len() ==> utf8_len((#[trigger] app.keywords@[i])@) <= u32::MAX
    &&& forall|i: int| 0 <= i < app.command@.len() ==> utf8_len((#[trigger] app.command@[i])@) <= u32::MAX
}

proof fn lemma_total_mono(q: Seq<char>, f: Seq<(Seq<char>, int)>, k: nat, m: nat)
    requires
        k <= m,
        forall|i: int| 0 <= i < f.len() ==> 0 <= #[trigger] f[i].1 <= NAME_WEIGHT,
        total(q, f, k) is Some,
    ensures
        total(q, f, m) matches Some(t) ==> t >= total(q, f, k)->0,
    decreases m - k,
{
    if k < m {
        lemma_total_mono(q, f, k, (m - 1) as nat);
        lemma_best_bound(q, m - 1, f);
    }
}

proof fn lemma_best_bound(q: Seq<char>, a: int, f: Seq<(Seq<char>, int)>)
    requires
        forall|i: int| 0 <= i < f.len() ==> 0 <= #[trigger] f[i].1 <= NAME_WEIGHT,
    ensures
        best(q, a, f) matches Some(b) ==> 0 <= b <= 65535 + NAME_WEIGHT,
    decreases f.len(),
{
    if f.len() > 0 {
        lemma_best_bound(q, a, f.drop_last());
    }
}

proof fn lemma_total_none(q: Seq<char>, f: Seq<(Seq<char>, int)>, k: nat, m: nat)
    requires
        k <= m,
        total(q, f, k) is None,
    ensures
        total(q, f, m) is None,
    decreases m - k,
{
    if k < m {
        lemma_total_none(q, f, k, (m - 1) as nat);
    }
}

proof fn lemma_total_bound(q: Seq<char>, f: Seq<(Seq<char>, int)>, k: nat)
    requires
        forall|i: int| 0 <= i < f.len() ==> 0 <= #[trigger] f[i].1 <= NAME_WEIGHT,
    ensures
        total(q, f, k) matches Some(t) ==> 0 <= t <= k * (65535 + NAME_WEIGHT),
    decreases k,
{
    if k > 0 {
        lemma_total_bound(q, f, (k - 1) as nat);
        lemma_best_bound(q, k - 1, f);
    }
}

/// The index of the command word an application is searched by.
fn exec_interest_index(exec: &Vec<String>) -> (r: Option<usize>)
    ensures
        match exec_interest(exec.deep_view()) {
            Some(e) => r matches Some(i) && i < exec@.len() && exec@[i as int]@ == e,
            None => r is None,
        },
{
    let ghost t = exec.deep_view();
    let n = exec.len();
    let mut i: usize = 0;
    while i < n
        invariant
            t == exec.deep_view(),
            n == exec@.len(),
            i <= n,
            forall|j: int| 0 <= j < i ==> interpreter(#[trigger] t[j]),
        decreases n - i,
    {
        assert(t[i as int] == exec@[i as int]@);
        if !is_interpreter(exec[i].as_str()) {
            proof {
                let k = choose|k: int| 0 <= k < t.len() && !interpreter(#[trigger] t[k])
                    && forall|j: int| 0 <= j < k ==> interpreter(#[trigger] t[j]);
                assert(k == i as int) by {
                    if k < i {
                        assert(interpreter(t[k]));
                    } else if k > i {
                        assert(interpreter(t[i as int]));
                    }
                }
            }
            return Some(i);
        }
        i = i + 1;
    }
    if n > 0 {
        assert(t[0] == exec@[0]@);
        Some(0)
    } else {
        None
    }
}

/// The fields of an application, in the order of [`fields`].
fn field_list(app: &AppEntry) -> (r: Vec<(String, u32)>)
    ensures
        r@.map_values(|x: (String, u32)| (x.0@, x.1 as int)) == fields(*app),
        forall|i: int| 0 <= i < r@.len() ==> #[trigger] r@[i].1 <= NAME_WEIGHT,
        searchable(*app) ==> forall|i: int| 0 <= i < r@.len() ==> utf8_len((#[trigger] r@[i]).0@) <= u32::MAX,
{
    let ghost view_of = |x: (String, u32)| (x.0@, x.1 as int);
    let mut r: Vec<(String, u32)> = Vec::new();
    r.push((app.name.clone(), NAME_WEIGHT));
    match &app.generic_name {
        Some(g) => r.push((g.clone(), GENERIC_NAME_WEIGHT)),
        None => {},
    }
    let ghost head = r@.map_values(view_of);
    let ghost kw = app.keywords.deep_view();
    let n = app.keywords.len();
    let mut i: usize = 0;
    while i < n
        invariant
            n == app.keywords@.len(),
            kw == app.keywords.deep_view(),
            view_of == (|x: (String, u32)| (x.0@, x.1 as int)),
            i <= n,
            head.len() <= r@.len(),
            r@.map_values(view_of) == head + kw.take(i as int).filter(nonempty()).map_values(|k: Seq<char>| (k, KEYWORD_WEIGHT as int)),
            forall|j: int| 0 <= j < r@.len() ==> #[trigger] r@[j].1 <= NAME_WEIGHT,
            searchable(*app) ==> forall|j: int| 0 <= j < r@.len() ==> utf8_len((#[trigger] r@[j]).0@) <= u32::MAX,
            head == seq![(app.name@, NAME_WEIGHT as int)] + (match app.generic_name {
                Some(g) => seq![(g@, GENERIC_NAME_WEIGHT as int)],
                None => Seq::<(Seq<char>, int)>::empty(),
            }),
        decreases n - i,
    {
        proof {
            assert(kw.take(i + 1) =~= kw.take(i as int).push(kw[i as int]));
            kw.take(i as int).lemma_filter_push(kw[i as int], nonempty());
        }
        assert(kw[i as int] == app.keywords@[i as int]@);
        let ghost before = r@;
        if app.keywords[i].as_str().unicode_len() > 0 {
            let c = app.keywords[i].clone();
            assert(c@ == kw[i as int]);
            r.push((c, KEYWORD_WEIGHT));
            assert(r@.map_values(view_of) =~= before.map_values(view_of).push((kw[i as int], KEYWORD_WEIGHT as int)));
        }
        i = i + 1;
    }
    assert(kw.take(n as int) =~= kw);
    let ghost mid = r@;
    match exec_interest_index(&app.command) {
        Some(k) => {
            r.push((app.command[k].clone(), EXEC_WEIGHT));
            assert(r@.map_values(view_of) =~= mid.map_values(view_of).push((app.command@[k as int]@, EXEC_WEIGHT as int)));
        },
        None => {},
    }
    assert(r@.map_values(view_of) =~= fields(*app));
    r
}

/// An application's score for a query: per atom of the query, the best
/// weighted score among its fields, summed; `None` when some atom matches
/// no field, or when the sum leaves `u32`.
pub fn score_app(p: &QueryPattern, app: &AppEntry, matcher: &mut DefaultMatcher, buf: &mut Vec<char>) -> (r: Option<u32>)
    requires
        !p.smart(),
        searchable(*app),
    ensures
        match app_score(p.query(), *app) {
            Some(t) => r == Some(t as u32) && 0 <= t <= u32::MAX,
            None => r is None,
        },
{
    let atoms = p.atoms();
    let f = field_list(app);
    let ghost fv = f@.map_values(|x: (String, u32)| (x.0@, x.1 as int));
    let ghost q = p.query();
    proof {
        assert forall|i: int| 0 <= i < fv.len() implies 0 <= #[trigger] fv[i].1 <= NAME_WEIGHT by {
            assert(fv[i].1 == f@[i].1 as int);
        }
    }
    let mut total_score: u64 = 0;
    let mut a: usize = 0;
    while a < atoms
        invariant
            fv == fields(*app),
            fv == f@.map_values(|x: (String, u32)| (x.0@, x.1 as int)),
            q == p.query(),
            !p.smart(),
            atoms == atom_count(q, false),
            a <= atoms,
            forall|i: int| 0 <= i < fv.len() ==> 0 <= #[trigger] fv[i].1 <= NAME_WEIGHT,
            forall|i: int| 0 <= i < f@.len() ==> utf8_len((#[trigger] f@[i]).0@) <= u32::MAX,
            total(q, fv, a as nat) == Some(total_score as int),
            total_score <= u32::MAX,
        decreases atoms - a,
    {
        let mut best_score: Option<u64> = None;
        let mut k: usize = 0;
        while k < f.len()
            invariant
                fv == f@.map_values(|x: (String, u32)| (x.0@, x.1 as int)),
                q == p.query(),
                a < atoms,
                atoms == atom_count(q, false),
                !p.smart(),
                k <= f@.len(),
                forall|i: int| 0 <= i < f@.len() ==> utf8_len((#[trigger] f@[i]).0@) <= u32::MAX,
                forall|i: int| 0 <= i < fv.len() ==> 0 <= #[trigger] fv[i].1 <= NAME_WEIGHT,
                match best(q, a as int, fv.take(k as int)) {
                    Some(b) => best_score == Some(b as u64) && 0 <= b <= 65535 + NAME_WEIGHT,
                    None => best_score is None,
                },
            decreases f@.len() - k,
        {
            proof {
                assert forall|i: int| 0 <= i < fv.take(k + 1).len() implies 0 <= #[trigger] fv.take(k + 1)[i].1 <= NAME_WEIGHT by {
                    assert(fv.take(k + 1)[i] == fv[i]);
                }
                lemma_best_bound(q, a as int, fv.take(k + 1));
            }
            assert(fv.take(k + 1).drop_last() =~= fv.take(k as int));
            assert(fv.take(k + 1).last() == fv[k as int]);
            assert(fv[k as int] == (f@[k as int].0@, f@[k as int].1 as int));
            match score_atom(p, a, f[k].0.as_str(), matcher, buf) {
                Some(s) => {
                    let v: u64 = s as u64 + f[k].1 as u64;
                    best_score = match best_score {
                        None => Some(v),
                        Some(b) => Some(if b >= v { b } else { v }),
                    };
                },
                None => {},
            }
            k = k + 1;
        }
        assert(fv.take(f@.len() as int) =~= fv);
        match best_score {
            None => {
                proof {
                    lemma_total_none(q, fv, (a + 1) as nat, atom_count(q, false));
                }
                return None;
            },
            Some(b) => {
                proof {
                    lemma_best_bound(q, a as int, fv);
                }
                total_score = total_score + b;
                if total_score > 0xffff_ffff {
                    proof {
                        lemma_total_mono(q, fv, (a + 1) as nat, atom_count(q, false));
                    }
                    return None;
                }
            },
        }
        a = a + 1;
    }
    proof {
        lemma_total_bound(q, fv, a as nat);
    }
    Some(total_score as u32)
}

/// An application's score for a query as typed (see [`app_score`]).
pub fn score(query: &str, app: &AppEntry) -> (r: Option<u32>)
    requires
        searchable(*app),
    ensures
        match app_score(query@, *app) {
            Some(t) => r == Some(t as u32) && 0 <= t <= u32::MAX,
            None => r is None,
        },
{
    let p = parse_pattern(query, false);
    let mut matcher = new_matcher();
    let mut buf: Vec<char> = Vec::new();
    score_app(&p, app, &mut matcher, &mut buf)
}

/// Whether `r` is the item of application `app`: its name as title, its
/// generic name as subtitle, its icon, and one primary action that opens it
/// with its command line.
pub open spec fn is_app_item(r: Item, app: AppEntry) -> bool {
    &&& r.title@ == app.name@
    &&& (match app.generic_name {
        Some(g) => r.subtitle matches Some(s) && s@ == g@,
        None => r.subtitle is None,
    })
    &&& (match app.icon {
        Some(i) => r.icon matches Some(IconRef::Name(n)) && n@ == i@,
        None => r.icon is None,
    })
    &&& r.actions@.len() == 1
    &&& r.actions@[0].label@ == "Open"@
    &&& r.actions@[0].params.deep_view() == app.command.deep_view()
    &&& r.actions@[0].primary
}

fn clone_words(v: &Vec<String>) -> (r: Vec<String>)
    ensures
        r.deep_view() == v.deep_view(),
{
    let mut r: Vec<String> = Vec::new();
    let n = v.len();
    let mut i: usize = 0;
    while i < n
        invariant
            n == v@.len(),
            i <= n,
            r@ == v@.subrange(0, i as int),
        decreases n - i,
    {
        r.push(v[i].clone());
        i = i + 1;
        assert(r@ =~= v@.subrange(0, i as int));
    }
    assert(r@ =~= v@);
    assert(r.deep_view() =~= v.deep_view());
    r
}

impl AppEntry {
    /// The launcher item of this application.
    pub fn to_item(&self) -> (r: Item)
        ensures
            is_app_item(r, *self),
    {
        let mut actions: Vec<Action> = Vec::new();
        actions.push(Action { label: "Open".to_owned(), params: clone_words(&self.command), primary: true });
        Item {
            title: self.name.clone(),
            subtitle: match &self.generic_name {
                Some(g) => Some(g.clone()),
                None => None,
            },
            icon: match &self.icon {
                Some(i) => Some(IconRef::Name(i.clone())),
                None => None,
            },
            actions,
        }
    }
}

/// Lexicographic order of character sequences, which for strings is the
/// order of their UTF-8 bytes.
pub open spec fn lex_less(a: Seq<char>, b: Seq<char>) -> bool
    decreases a.len(),
{
    if a.len() == 0 {
        b.len() > 0
    } else if b.len() == 0 {
        false
    } else if a[0] != b[0] {
        a[0] < b[0]
    } else {
        lex_less(a.drop_first(), b.drop_first())
    }
}

pub proof fn lemma_lex_total(a: Seq<char>, b: Seq<char>)
    ensures
        a == b || lex_less(a, b) || lex_less(b, a),
        !(lex_less(a, b) && lex_less(b, a)),
        !lex_less(a, a),
    decreases a.len(),
{
    if a.len() > 0 && b.len() > 0 {
        lemma_lex_total(a.drop_first(), b.drop_first());
        if a[0] == b[0] && a.drop_first() == b.drop_first() {
            assert forall|i: int| 0 <= i < a.len() implies a[i] == b[i] by {
                if i > 0 {
                    assert(a[i] == a.drop_first()[i - 1]);
                    assert(b[i] == b.drop_first()[i - 1]);
                }
            }
            assert(a =~= b);
        }
    }
    if a.len() > 0 {
        lemma_lex_total(a.drop_first(), a.drop_first());
    }
    if a.len() == 0 && b.len() == 0 {
        assert(a =~= b);
    }
}

pub proof fn lemma_lex_trans(a: Seq<char>, b: Seq<char>, c: Seq<char>)
    requires
        lex_less(a, b),
        lex_less(b, c),
    ensures
        lex_less(a, c),
    decreases a.len(),
{
    if a.len() > 0 && b.len() > 0 && c.len() > 0 && a[0] == b[0] && b[0] == c[0] {
        lemma_lex_trans(a.drop_first(), b.drop_first(), c.drop_first());
    }
}

fn lex_less_exec(a: &[char], b: &[char]) -> (r: bool)
    ensures
        r == lex_less(a@, b@),
{
    let n = a.len();
    let m = b.len();
    let mut i: usize = 0;
    assert(a@.subrange(0, n as int) =~= a@);
    assert(b@.subrange(0, m as int) =~= b@);
    while i < n && i < m && a[i] == b[i]
        invariant
            n == a@.len(),
            m == b@.len(),
            i <= n,
            i <= m,
            lex_less(a@, b@) == lex_less(a@.subrange(i as int, n as int), b@.subrange(i as int, m as int)),
        decreases n - i,
    {
        assert(a@.subrange(i as int, n as int).drop_first() =~= a@.subrange(i + 1, n as int));
        assert(b@.subrange(i as int, m as int).drop_first() =~= b@.subrange(i + 1, m as int));
        i = i + 1;
    }
    if i == n {
        i < m
    } else if i == m {
        false
    } else {
        a[i] < b[i]
    }
}

/// Whether `a` comes before `b` in lexicographic order.
pub fn lex_less_str(a: &str, b: &str) -> (r: bool)
    ensures
        r == lex_less(a@, b@),
{
    let va = crate::text::chars_of(a);
    let vb = crate::text::chars_of(b);
    lex_less_exec(va.as_slice(), vb.as_slice())
}

/// Rank order of results: the higher score first, then the name, ASCII
/// case folded, in lexicographic order, then the earlier entry.
pub open spec fn ranks_before(s1: int, n1: Seq<char>, i1: int, s2: int, n2: Seq<char>, i2: int) -> bool {
    s1 > s2 || (s1 == s2 && (lex_less(n1, n2) || (n1 == n2 && i1 < i2)))
}

/// The score of entry `i` for query `q`, where it matches.
pub open spec fn entry_score(entries: Seq<AppEntry>, q: Seq<char>, i: int) -> int {
    app_score(q, entries[i])->0
}

pub open spec fn entry_matches(entries: Seq<AppEntry>, q: Seq<char>, i: int) -> bool {
    0 <= i < entries.len() && app_score(q, entries[i]) is Some
}

/// `order` lists the matching entries, each once, best first.
pub open spec fn valid_ranking(entries: Seq<AppEntry>, q: Seq<char>, order: Seq<int>) -> bool {
    &&& forall|k: int| 0 <= k < order.len() ==> entry_matches(entries, q, #[trigger] order[k])
    &&& forall|i: int| entry_matches(entries, q, i) ==> exists|k: int| 0 <= k < order.len() && #[trigger] order[k] == i
    &&& forall|k1: int, k2: int| 0 <= k1 < k2 < order.len() ==> ranks_before(
        entry_score(entries, q, #[trigger] order[k1]),
        lower(entries[order[k1]].name@),
        order[k1],
        entry_score(entries, q, #[trigger] order[k2]),
        lower(entries[order[k2]].name@),
        order[k2],
    )
}

proof fn lemma_ranks_trans(s1: int, n1: Seq<char>, i1: int, s2: int, n2: Seq<char>, i2: int, s3: int, n3: Seq<char>, i3: int)
    requires
        ranks_before(s1, n1, i1, s2, n2, i2),
        ranks_before(s2, n2, i2, s3, n3, i3),
    ensures
        ranks_before(s1, n1, i1, s3, n3, i3),
{
    if s1 == s2 && s2 == s3 {
        if lex_less(n1, n2) && lex_less(n2, n3) {
            lemma_lex_trans(n1, n2, n3);
        }
    }
}

/// The items for a query, best first: the query is trimmed and parsed into
/// atoms; every atom must match one of an application's fields. A query
/// with no atoms finds nothing.
pub fn query(entries: &[AppEntry], input: &str) -> (r: Vec<Item>)
    requires
        forall|i: int| 0 <= i < entries@.len() ==> searchable(#[trigger] entries@[i]),
    ensures
        ({
            let q = trimmed(input@);
            if atom_count(q, false) == 0 {
                r@.len() == 0
            } else {
                exists|order: Seq<int>| #![auto] valid_ranking(entries@, q, order) && r@.len() == order.len()
                    && forall|k: int| 0 <= k < order.len() ==> is_app_item(#[trigger] r@[k], entries@[order[k]])
            }
        }),
{
    let t = string_of(trim(input).as_slice());
    let p = parse_pattern(t.as_str(), false);
    let ghost q = trimmed(input@);
    let atoms = p.atoms();
    if atoms == 0 {
        return Vec::new();
    }
    let mut matcher = new_matcher();
    let mut buf: Vec<char> = Vec::new();
    let n = entries.len();
    let mut names: Vec<Vec<char>> = Vec::new();
    let mut ranked: Vec<(u32, usize)> = Vec::new();
    let mut i: usize = 0;
    while i < n
        invariant
            n == entries@.len(),
            i <= n,
            q == p.query(),
            !p.smart(),
            forall|j: int| 0 <= j < entries@.len() ==> searchable(#[trigger] entries@[j]),
            names@.len() == i,
            forall|j: int| 0 <= j < i ==> (#[trigger] names@[j])@ == lower(entries@[j].name@),
            forall|k: int| 0 <= k < ranked@.len() ==> {
                &&& 0 <= (#[trigger] ranked@[k]).1 < i
                &&& entry_matches(entries@, q, ranked@[k].1 as int)
                &&& ranked@[k].0 == entry_score(entries@, q, ranked@[k].1 as int)
            },
            forall|j: int| 0 <= j < i && entry_matches(entries@, q, j) ==> exists|k: int| 0 <= k < ranked@.len() && #[trigger] ranked@[k].1 == j,
            forall|k1: int, k2: int| 0 <= k1 < k2 < ranked@.len() ==> ranks_before(
                (#[trigger] ranked@[k1]).0 as int,
                lower(entries@[ranked@[k1].1 as int].name@),
                ranked@[k1].1 as int,
                (#[trigger] ranked@[k2]).0 as int,
                lower(entries@[ranked@[k2].1 as int].name@),
                ranked@[k2].1 as int,
            ),
        decreases n - i,
    {
        names.push(crate::text::lower_chars(entries[i].name.as_str()));
        match score_app(&p, &entries[i], &mut matcher, &mut buf) {
            None => {},
            Some(score) => {
                let ghost key_name = lower(entries@[i as int].name@);
                let m = ranked.len();
                let mut pos: usize = 0;
                let mut found = false;
                while pos < m && !found
                    invariant
                        m == ranked@.len(),
                        pos <= m,
                        found ==> pos < m && ranks_before(
                            score as int,
                            key_name,
                            i as int,
                            ranked@[pos as int].0 as int,
                            lower(entries@[ranked@[pos as int].1 as int].name@),
                            ranked@[pos as int].1 as int,
                        ),
                        names@.len() == i + 1,
                        forall|j: int| 0 <= j <= i ==> (#[trigger] names@[j])@ == lower(entries@[j].name@),
                        forall|k: int| 0 <= k < ranked@.len() ==> 0 <= (#[trigger] ranked@[k]).1 < i,
                        forall|k: int| 0 <= k < pos ==> ranks_before(
                            (#[trigger] ranked@[k]).0 as int,
                            lower(entries@[ranked@[k].1 as int].name@),
                            ranked@[k].1 as int,
                            score as int,
                            key_name,
                            i as int,
                        ),
                        key_name == lower(entries@[i as int].name@),
                    decreases m - pos + (if found { 0int } else { 1int }),
                {
                    let (s2, j2) = ranked[pos];
                    proof {
                        lemma_lex_total(key_name, lower(entries@[j2 as int].name@));
                    }
                    let later = s2 > score || (s2 == score && !lex_less_exec(names[i].as_slice(), names[j2].as_slice()));
                    if later {
                        pos = pos + 1;
                    } else {
                        found = true;
                    }
                }
                let ghost old_ranked = ranked@;
                ranked.insert(pos, (score, i));
                proof {
                    assert forall|k1: int, k2: int| 0 <= k1 < k2 < ranked@.len() implies ranks_before(
                        (#[trigger] ranked@[k1]).0 as int,
                        lower(entries@[ranked@[k1].1 as int].name@),
                        ranked@[k1].1 as int,
                        (#[trigger] ranked@[k2]).0 as int,
                        lower(entries@[ranked@[k2].1 as int].name@),
                        ranked@[k2].1 as int,
                    ) by {
                        let e = |x: (u32, usize)| (x.0 as int, lower(entries@[x.1 as int].name@), x.1 as int);
                        if k2 < pos {
                            assert(ranked@[k1] == old_ranked[k1] && ranked@[k2] == old_ranked[k2]);
                        } else if k2 == pos {
                            assert(ranked@[k1] == old_ranked[k1]);
                        } else if k1 == pos {
                            assert(ranked@[k2] == old_ranked[k2 - 1]);
                            if k2 - 1 > pos {
                                let x = old_ranked[pos as int];
                                let y = old_ranked[k2 - 1];
                                lemma_ranks_trans(
                                    score as int, key_name, i as int,
                                    x.0 as int, lower(entries@[x.1 as int].name@), x.1 as int,
                                    y.0 as int, lower(entries@[y.1 as int].name@), y.1 as int,
                                );
                            }
                        } else if k1 < pos {
                            assert(ranked@[k1] == old_ranked[k1]);
                            assert(ranked@[k2] == old_ranked[k2 - 1]);
                        } else {
                            assert(ranked@[k1] == old_ranked[k1 - 1]);
                            assert(ranked@[k2] == old_ranked[k2 - 1]);
                        }
                    }
                    assert forall|j: int| 0 <= j < i + 1 && entry_matches(entries@, q, j) implies exists|k: int| 0 <= k < ranked@.len() && #[trigger] ranked@[k].1 == j by {
                        if j == i {
                            assert(ranked@[pos as int].1 == j);
                        } else {
                            let k = choose|k: int| 0 <= k < old_ranked.len() && #[trigger] old_ranked[k].1 == j;
                            if k < pos {
                                assert(ranked@[k].1 == j);
                            } else {
                                assert(ranked@[k + 1].1 == j);
                            }
                        }
                    }
                    assert forall|k: int| 0 <= k < ranked@.len() implies {
                        &&& 0 <= (#[trigger] ranked@[k]).1 < i + 1
                        &&& entry_matches(entries@, q, ranked@[k].1 as int)
                        &&& ranked@[k].0 == entry_score(entries@, q, ranked@[k].1 as int)
                    } by {
                        if k < pos {
                            assert(ranked@[k] == old_ranked[k]);
                        } else if k > pos {
                            assert(ranked@[k] == old_ranked[k - 1]);
                        } else {
                            assert(ranked@[k] == (score, i));
                        }
                    }
                }
            },
        }
        i = i + 1;
    }
    let mut r: Vec<Item> = Vec::new();
    let m = ranked.len();
    let mut k: usize = 0;
    while k < m
        invariant
            m == ranked@.len(),
            k <= m,
            r@.len() == k,
            forall|a: int| 0 <= a < ranked@.len() ==> 0 <= (#[trigger] ranked@[a]).1 < entries@.len(),
            forall|a: int| 0 <= a < k ==> is_app_item(#[trigger] r@[a], entries@[ranked@[a].1 as int]),
        decreases m - k,
    {
        let (_, j) = ranked[k];
        r.push(entries[j].to_item());
        k = k + 1;
    }
    let ghost order = ranked@.map_values(|x: (u32, usize)| x.1 as int);
    proof {
        assert forall|a: int| 0 <= a < order.len() implies entry_matches(entries@, q, #[trigger] order[a]) by {
            assert(order[a] == ranked@[a].1 as int);
        }
        assert forall|j: int| entry_matches(entries@, q, j) implies exists|a: int| 0 <= a < order.len() && #[trigger] order[a] == j by {
            let a = choose|a: int| 0 <= a < ranked@.len() && #[trigger] ranked@[a].1 == j;
            assert(order[a] == j);
        }
        assert(valid_ranking(entries@, q, order));
    }
    r
}

/// What the app reads of a desktop entry.
#[derive(Debug)]
pub struct DesktopInfo {
    pub appid: String,
    /// The Flatpak base the entry comes from, if any.
    pub flatpak: Option<String>,
    /// The raw `Exec` line.
    pub exec_line: Option<String>,
    pub not_show_in: Option<Vec<String>>,
    pub only_show_in: Option<Vec<String>>,
    pub no_display: bool,
}

pub open spec fn ascii_space(c: char) -> bool {
    c == ' ' || c == '\t' || c == '\n' || c == '\u{c}' || c == '\r'
}

/// The first word of `s`, words being split by ASCII white space.
pub open spec fn first_word(s: Seq<char>) -> Option<Seq<char>> {
    if exists|i: int| 0 <= i < s.len() && !ascii_space(#[trigger] s[i]) {
        let a = choose|a: int| 0 <= a < s.len() && !ascii_space(#[trigger] s[a])
            && forall|j: int| 0 <= j < a ==> ascii_space(#[trigger] s[j]);
        let e = if exists|k: int| a < k < s.len() && ascii_space(#[trigger] s[k]) {
            choose|k: int| a < k < s.len() && ascii_space(#[trigger] s[k])
                && forall|j: int| a <= j < k ==> !ascii_space(#[trigger] s[j])
        } else {
            s.len() as int
        };
        Some(s.subrange(a, e))
    } else {
        None
    }
}

/// The id an entry is told apart by: Flatpak entries carry their base.
pub open spec fn entry_id(de: DesktopInfo) -> Seq<char> {
    match de.flatpak {
        Some(b) => b@ + "."@ + de.appid@,
        None => de.appid@,
    }
}

/// Whether any desktop of `names` is one of `current`, ASCII case folded.
pub open spec fn shown_in(names: Seq<Seq<char>>, current: Seq<Seq<char>>) -> bool {
    exists|i: int, j: int| 0 <= i < names.len() && 0 <= j < current.len() && lower(#[trigger] current[j]) == lower(#[trigger] names[i])
}

/// Whether a desktop entry is listed: not seen before, with a command that
/// is not `false`, not hidden from the current desktop, and, unless it
/// names the desktops it shows in, not marked for no display.
pub open spec fn kept(de: DesktopInfo, current: Option<Seq<Seq<char>>>, seen: Set<Seq<char>>) -> bool {
    &&& !seen.contains(entry_id(de))
    &&& (match de.exec_line {
        Some(e) => first_word(e@) matches Some(w) && w != "false"@,
        None => false,
    })
    &&& !(de.not_show_in matches Some(ns) && current matches Some(c) && shown_in(ns.deep_view(), c))
    &&& (match de.only_show_in {
        Some(os) => !(current matches Some(c) && !shown_in(os.deep_view(), c)),
        None => !de.no_display,
    })
}

/// A ranking lists every matching application exactly once, and a higher
/// score always comes first.
pub proof fn ranking_puts_better_scores_first(entries: Seq<AppEntry>, q: Seq<char>, order: Seq<int>)
    requires
        valid_ranking(entries, q, order),
    ensures
        forall|k1: int, k2: int| 0 <= k1 < k2 < order.len() ==> entry_score(entries, q, #[trigger] order[k1]) >= entry_score(entries, q, #[trigger] order[k2]),
        forall|k1: int, k2: int| 0 <= k1 < k2 < order.len() ==> #[trigger] order[k1] != #[trigger] order[k2],
        forall|i: int| 0 <= i < entries.len() && app_score(q, entries[i]) is Some ==> #[trigger] order.contains(i),
        forall|k: int| 0 <= k < order.len() ==> 0 <= #[trigger] order[k] < entries.len() && app_score(q, entries[order[k]]) is Some,
{
    assert forall|k1: int, k2: int| 0 <= k1 < k2 < order.len() implies #[trigger] order[k1] != #[trigger] order[k2] by {
        if order[k1] == order[k2] {
            let n = lower(entries[order[k1]].name@);
            lemma_lex_total(n, n);
        }
    }
    assert forall|i: int| 0 <= i < entries.len() && app_score(q, entries[i]) is Some implies #[trigger] order.contains(i) by {
        assert(entry_matches(entries, q, i));
        let k = choose|k: int| 0 <= k < order.len() && #[trigger] order[k] == i;
        assert(order[k] == i);
    }
    assert forall|k: int| 0 <= k < order.len() implies 0 <= #[trigger] order[k] < entries.len() && app_score(q, entries[order[k]]) is Some by {
        assert(entry_matches(entries, q, order[k]));
    }
}

/// Whether two desktop names are the same up to ASCII letter case.
pub open spec fn same_desktop(a: Seq<char>, b: Seq<char>) -> bool {
    a.len() == b.len() && forall|k: int| #![trigger a[k], b[k]] 0 <= k < a.len() ==> (a[k] == b[k]
        || ('A' <= a[k] <= 'Z' && b[k] as u32 == a[k] as u32 + 32)
        || ('A' <= b[k] <= 'Z' && a[k] as u32 == b[k] as u32 + 32))
}

/// An entry that asks to be hidden from one of the current desktops
/// (`NotShowIn`, letter case aside) is never listed, whatever its other
/// fields and whatever was seen before.
pub proof fn hidden_desktop_entries_are_not_kept(
    de: DesktopInfo,
    current: Seq<Seq<char>>,
    seen: Set<Seq<char>>,
    i: int,
    j: int,
)
    requires
        de.not_show_in matches Some(ns) && 0 <= i < ns@.len() && 0 <= j < current.len()
            && same_desktop(ns@[i]@, current[j]),
    ensures
        !kept(de, Some(current), seen),
{
    let ns = de.not_show_in->0;
    let a = ns.deep_view()[i];
    let b = current[j];
    assert(a == ns@[i]@);
    assert(lower(b) =~= lower(a)) by {
        assert forall|k: int| 0 <= k < a.len() implies lower(b)[k] == lower(a)[k] by {
            assert(a[k] == b[k] || ('A' <= a[k] <= 'Z' && b[k] as u32 == a[k] as u32 + 32)
                || ('A' <= b[k] <= 'Z' && a[k] as u32 == b[k] as u32 + 32));
        }
    }
    assert(shown_in(ns.deep_view(), current));
}

fn first_word_exec(s: &str) -> (r: Option<Vec<char>>)
    ensures
        match first_word(s@) {
            Some(w) => r matches Some(v) && v@ == w,
            None => r is None,
        },
{
    let v = crate::text::chars_of(s);
    let n = v.len();
    let mut a: usize = 0;
    while a < n && (v[a] == ' ' || v[a] == '\t' || v[a] == '\n' || v[a] == '\u{c}' || v[a] == '\r')
        invariant
            v@ == s@,
            n == v@.len(),
            a <= n,
            forall|j: int| 0 <= j < a ==> ascii_space(#[trigger] v@[j]),
        decreases n - a,
    {
        a = a + 1;
    }
    if a == n {
        return None;
    }
    let mut e: usize = a;
    while e < n && !(v[e] == ' ' || v[e] == '\t' || v[e] == '\n' || v[e] == '\u{c}' || v[e] == '\r')
        invariant
            v@ == s@,
            n == v@.len(),
            a < n,
            !ascii_space(v@[a as int]),
            forall|j: int| 0 <= j < a ==> ascii_space(#[trigger] v@[j]),
            a <= e <= n,
            forall|j: int| a <= j < e ==> !ascii_space(#[trigger] v@[j]),
        decreases n - e,
    {
        e = e + 1;
    }
    proof {
        let a2 = choose|a2: int| 0 <= a2 < s@.len() && !ascii_space(#[trigger] s@[a2])
            && forall|j: int| 0 <= j < a2 ==> ascii_space(#[trigger] s@[j]);
        assert(a2 == a as int) by {
            if a2 < a {
                assert(ascii_space(s@[a2]));
            } else if a2 > a {
                assert(ascii_space(s@[a as int]));
            }
        }
        if exists|k: int| a < k < s@.len() && ascii_space(#[trigger] s@[k]) {
            let e2 = choose|k: int| a < k < s@.len() && ascii_space(#[trigger] s@[k])
                && forall|j: int| a <= j < k ==> !ascii_space(#[trigger] s@[j]);
            assert(e2 == e as int) by {
                if e2 < e {
                    assert(!ascii_space(s@[e2]));
                } else if e2 > e {
                    assert(ascii_space(s@[e as int]));
                }
            }
        } else {
            assert(e == n) by {
                if e < n {
                    assert(ascii_space(s@[e as int]));
                }
            }
        }
    }
    Some(vstd::slice::slice_to_vec(vstd::slice::slice_subrange(v.as_slice(), a, e)))
}

fn lower_eq(a: &str, b: &str) -> (r: bool)
    ensures
        r == (lower(a@) == lower(b@)),
{
    let la = crate::text::lower_chars(a);
    let lb = crate::text::lower_chars(b);
    let n = la.len();
    if n != lb.len() {
        assert(lower(a@).len() != lower(b@).len());
        return false;
    }
    let mut i: usize = 0;
    while i < n
        invariant
            n == la@.len(),
            n == lb@.len(),
            la@ == lower(a@),
            lb@ == lower(b@),
            i <= n,
            forall|j: int| 0 <= j < i ==> la@[j] == lb@[j],
        decreases n - i,
    {
        if la[i] != lb[i] {
            return false;
        }
        i = i + 1;
    }
    assert(la@ =~= lb@);
    true
}

fn shown_in_exec(names: &Vec<String>, current: &[String]) -> (r: bool)
    ensures
        r == shown_in(names.deep_view(), current.deep_view()),
{
    let ghost ns = names.deep_view();
    let ghost cs = current.deep_view();
    let n = names.len();
    let m = current.len();
    let mut i: usize = 0;
    while i < n
        invariant
            ns == names.deep_view(),
            cs == current.deep_view(),
            n == names@.len(),
            m == current@.len(),
            i <= n,
            forall|x: int, y: int| 0 <= x < i && 0 <= y < m ==> lower(#[trigger] cs[y]) != lower(#[trigger] ns[x]),
        decreases n - i,
    {
        let mut j: usize = 0;
        while j < m
            invariant
                ns == names.deep_view(),
                cs == current.deep_view(),
                n == names@.len(),
                m == current@.len(),
                i < n,
                j <= m,
                forall|x: int, y: int| 0 <= x < i && 0 <= y < m ==> lower(#[trigger] cs[y]) != lower(#[trigger] ns[x]),
                forall|y: int| 0 <= y < j ==> lower(#[trigger] cs[y]) != lower(ns[i as int]),
            decreases m - j,
        {
            assert(cs[j as int] == current@[j as int]@);
            assert(ns[i as int] == names@[i as int]@);
            if lower_eq(current[j].as_str(), names[i].as_str()) {
                return true;
            }
            j = j + 1;
        }
        i = i + 1;
    }
    false
}

/// Whether a desktop entry is listed (see [`kept`]); a listed entry's id is
/// added to `seen`.
pub fn keep(de: &DesktopInfo, current_desktop: Option<&[String]>, seen: &mut Vec<String>) -> (r: bool)
    ensures
        ({
            let cur = match current_desktop {
                Some(c) => Some(c.deep_view()),
                None => None,
            };
            let ids = old(seen).deep_view().to_set();
            &&& r == kept(*de, cur, ids)
            &&& final(seen).deep_view() == if r { old(seen).deep_view().push(entry_id(*de)) } else { old(seen).deep_view() }
        }),
{
    let ghost cur = match current_desktop {
        Some(c) => Some(c.deep_view()),
        None => None,
    };
    let appid = match &de.flatpak {
        Some(b) => {
            let mut s = b.clone();
            s.append(".");
            s.append(de.appid.as_str());
            s
        },
        None => de.appid.clone(),
    };
    let ghost ids = seen.deep_view();
    let n = seen.len();
    let mut i: usize = 0;
    while i < n
        invariant
            n == seen@.len(),
            ids == seen.deep_view(),
            i <= n,
            appid@ == entry_id(*de),
            forall|j: int| 0 <= j < i ==> ids[j] != appid@,
        decreases n - i,
    {
        assert(ids[i as int] == seen@[i as int]@);
        if crate::text::str_eq(seen[i].as_str(), appid.as_str()) {
            assert(ids.to_set().contains(appid@)) by {
                assert(ids.contains(appid@));
            }
            return false;
        }
        i = i + 1;
    }
    assert(!ids.to_set().contains(appid@)) by {
        if ids.contains(appid@) {
            let k = choose|k: int| 0 <= k < ids.len() && ids[k] == appid@;
        }
    }
    let runnable = match &de.exec_line {
        Some(e) => match first_word_exec(e.as_str()) {
            Some(w) => !chars_eq(w.as_slice(), "false"),
            None => false,
        },
        None => false,
    };
    if !runnable {
        return false;
    }
    match (&de.not_show_in, current_desktop) {
        (Some(ns), Some(c)) => {
            if shown_in_exec(ns, c) {
                return false;
            }
        },
        _ => {},
    }
    match &de.only_show_in {
        Some(os) => {
            match current_desktop {
                Some(c) => {
                    if !shown_in_exec(os, c) {
                        return false;
                    }
                },
                None => {},
            }
        },
        None => {
            if de.no_display {
                return false;
            }
        },
    }
    let ghost before = seen.deep_view();
    seen.push(appid);
    assert(seen.deep_view() =~= before.push(entry_id(*de)));
    true
}

/// What the app reads of a desktop entry for its listing, in the user's
/// languages.
#[derive(Debug)]
pub struct DesktopFields {
    pub name: Option<String>,
    /// The command line split into words, if it parses.
    pub command: Option<Vec<String>>,
    pub generic_name: Option<String>,
    pub keywords: Option<Vec<String>>,
    pub icon: Option<String>,
}

/// Keywords with something besides white space.
pub open spec fn meaningful() -> spec_fn(Seq<char>) -> bool {
    |k: Seq<char>| trimmed(k).len() > 0
}

/// The application of a desktop entry: it needs a name and a non-empty
/// command line; keywords of white space alone are dropped.
pub fn decode(de: DesktopFields) -> (r: Option<AppEntry>)
    ensures
        match r {
            Some(app) => {
                &&& de.name matches Some(n) && app.name@ == n@
                &&& de.command matches Some(x) && x@.len() > 0 && app.command.deep_view() == x.deep_view()
                &&& app.generic_name == de.generic_name
                &&& app.icon == de.icon
                &&& app.keywords.deep_view() == match de.keywords {
                    Some(k) => k.deep_view().filter(meaningful()),
                    None => Seq::empty(),
                }
            },
            None => de.name is None || !(de.command matches Some(x) && x@.len() > 0),
        },
{
    let name = match de.name {
        Some(n) => n,
        None => return None,
    };
    let command = match de.command {
        Some(x) => {
            if x.len() == 0 {
                return None;
            }
            x
        },
        None => return None,
    };
    let mut keywords: Vec<String> = Vec::new();
    match &de.keywords {
        Some(k) => {
            let ghost kv = k.deep_view();
            let n = k.len();
            let mut i: usize = 0;
            while i < n
                invariant
                    kv == k.deep_view(),
                    n == k@.len(),
                    i <= n,
                    keywords.deep_view() == kv.take(i as int).filter(meaningful()),
                decreases n - i,
            {
                proof {
                    assert(kv.take(i + 1) =~= kv.take(i as int).push(kv[i as int]));
                    kv.take(i as int).lemma_filter_push(kv[i as int], meaningful());
                }
                assert(kv[i as int] == k@[i as int]@);
                if trim(k[i].as_str()).len() > 0 {
                    let ghost before = keywords.deep_view();
                    let c = k[i].clone();
                    keywords.push(c);
                    assert(keywords.deep_view() =~= before.push(kv[i as int]));
                }
                i = i + 1;
            }
            assert(kv.take(n as int) =~= kv);
        },
        None => {
            assert(keywords.deep_view() =~= Seq::<Seq<char>>::empty());
        },
    }
    Some(AppEntry { name, generic_name: de.generic_name, keywords, command, icon: de.icon })
}

/// The program and arguments that an action launches: its parameters,
/// split at the first; nothing for an empty command line.
pub fn launch_target(action: Action) -> (r: Option<(String, Vec<String>)>)
    ensures
        match r {
            Some((program, args)) => action.params@.len() > 0
                && program@ == action.params@[0]@
                && args.deep_view() == action.params.deep_view().drop_first(),
            None => action.params@.len() == 0,
        },
{
    let mut params = action.params;
    if params.len() == 0 {
        return None;
    }
    let ghost all = params.deep_view();
    let program = params.remove(0);
    assert(params.deep_view() =~= all.drop_first());
    Some((program, params))
}

} // verus!
