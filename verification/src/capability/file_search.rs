//! File search: the best matches of a query among the indexed files, and
//! the item shown for a file.
use vstd::prelude::*;
use vstd::string::*;
use crate::capability::app_search::lex_less;
use crate::capability::fuzzy::{atom_count, atom_score, new_matcher, parse_pattern, score_atom, DefaultMatcher, QueryPattern};
use crate::capability::{trim, trimmed, Action, Capability, CapabilityMeta, IconRef, Item};
use crate::text::string_of;
use crate::capability::calculator::utf8_len;

verus! {

/// Shorter queries find nothing.
pub const MIN_QUERY_CHARS: usize = 2;

/// A query shows at most this many files.
pub const MAX_RESULTS: usize = 30;

pub const OPEN_ACTION_LABEL: &'static str = "Open";

pub const OPEN_FOLDER_ACTION_LABEL: &'static str = "Open Folder";

pub const COPY_PATH_ACTION_LABEL: &'static str = "Copy Path";

pub const FOLDER_ICON: &'static str = "folder";

pub const FALLBACK_ICON: &'static str = "text-x-generic";

/// The index holds at most this many entries.
pub const MAX_ENTRIES: usize = 1000000;

/// Directory names whose subtrees are not indexed.
pub open spec fn excluded_dir(name: Seq<char>) -> bool {
    ||| name == "__MACOSX"@
    ||| name == "__pycache__"@
    ||| name == "bower_components"@
    ||| name == "lost+found"@
    ||| name == "node_modules"@
    ||| name == "venv"@
}

/// Whether a directory of this name is left out of the index, with all
/// below it.
pub fn is_excluded_dir(name: &str) -> (r: bool)
    ensures
        r == excluded_dir(name@),
{
    crate::text::str_eq(name, "__MACOSX") || crate::text::str_eq(name, "__pycache__")
        || crate::text::str_eq(name, "bower_components") || crate::text::str_eq(name, "lost+found")
        || crate::text::str_eq(name, "node_modules") || crate::text::str_eq(name, "venv")
}

/// The number of components of a path, as `Path::components` counts them.
pub uninterp spec fn component_count(path: Seq<char>) -> nat;

/// The parent of a path, as `Path::parent` gives it.
pub uninterp spec fn parent_path(path: Seq<char>) -> Option<Seq<char>>;

/// A path made relative to `base`, as `Path::strip_prefix` gives it.
pub uninterp spec fn path_after(path: Seq<char>, base: Seq<char>) -> Option<Seq<char>>;

/// The essence (`type/subtype`) of the first MIME type that mime_guess
/// guesses from a path's extension.
pub uninterp spec fn mime_essence(path: Seq<char>) -> Option<Seq<char>>;

/// Calls `Path::components().count()`: a function of the path alone.
#[verifier::external_body]
fn count_components(path: &str) -> (r: usize)
    ensures
        r == component_count(path@),
{
    std::path::Path::new(path).components().count()
}

/// Calls `Path::parent` and takes the parent as text: a function of the path
/// alone.
#[verifier::external_body]
pub(crate) fn parent_of(path: &str) -> (r: Option<String>)
    ensures
        match parent_path(path@) {
            Some(p) => r matches Some(s) && s@ == p,
            None => r is None,
        },
{
    match std::path::Path::new(path).parent() {
        Some(p) => Some(p.to_string_lossy().into_owned()),
        None => None,
    }
}

/// Calls `Path::strip_prefix` and takes the rest as text: a function of the
/// two paths alone.
#[verifier::external_body]
pub(crate) fn strip_path_prefix(path: &str, base: &str) -> (r: Option<String>)
    ensures
        match path_after(path@, base@) {
            Some(p) => r matches Some(s) && s@ == p,
            None => r is None,
        },
{
    match std::path::Path::new(path).strip_prefix(base) {
        Ok(rel) => Some(rel.to_string_lossy().into_owned()),
        Err(_) => None,
    }
}

/// Calls `mime_guess::from_path(path).first()` and takes the MIME type's
/// essence: a function of the path's extension alone (no disk access).
#[verifier::external_body]
fn guess_mime(path: &str) -> (r: Option<String>)
    ensures
        match mime_essence(path@) {
            Some(m) => r matches Some(s) && s@ == m,
            None => r is None,
        },
{
    match mime_guess::from_path(path).first() {
        Some(m) => Some(m.essence_str().to_owned()),
        None => None,
    }
}

/// An indexed file or directory.
#[derive(Debug)]
pub struct FileEntry {
    pub name: String,
    pub path: String,
    /// The number of components of the path; ties rank the shallower first.
    pub depth: usize,
    pub is_dir: bool,
}

impl FileEntry {
    pub fn new(name: String, path: String, is_dir: bool) -> (r: Self)
        ensures
            r.name@ == name@,
            r.path@ == path@,
            r.depth == component_count(path@),
            r.is_dir == is_dir,
    {
        let depth = count_components(path.as_str());
        FileEntry { name, path, depth, is_dir }
    }
}

/// The parent directory of a path for display, with the home directory
/// shown as `~`.
pub open spec fn shown_parent(home: Seq<char>, path: Seq<char>) -> Seq<char> {
    let parent = match parent_path(path) {
        Some(p) => p,
        None => path,
    };
    match path_after(parent, home) {
        Some(rel) => if rel.len() == 0 { "~"@ } else { "~/"@ + rel },
        None => parent,
    }
}

pub fn display_parent(home: &str, path: &str) -> (r: String)
    ensures
        r@ == shown_parent(home@, path@),
{
    let parent = match parent_of(path) {
        Some(p) => p,
        None => path.to_owned(),
    };
    match strip_path_prefix(parent.as_str(), home) {
        Some(rel) => {
            if rel.as_str().unicode_len() == 0 {
                "~".to_owned()
            } else {
                let mut r = "~/".to_owned();
                r.append(rel.as_str());
                r
            }
        },
        None => parent,
    }
}

/// A MIME essence as an icon name: slashes become dashes.
pub open spec fn dashed(m: Seq<char>) -> Seq<char> {
    Seq::new(m.len(), |i: int| if m[i] == '/' { '-' } else { m[i] })
}

/// The icon of an entry: a folder, the icon of its guessed MIME type, or a
/// generic one.
pub open spec fn entry_icon(is_dir: bool, path: Seq<char>) -> Seq<char> {
    if is_dir {
        FOLDER_ICON@
    } else {
        match mime_essence(path) {
            Some(m) => dashed(m),
            None => FALLBACK_ICON@,
        }
    }
}

pub fn icon_name(entry: &FileEntry) -> (r: String)
    ensures
        r@ == entry_icon(entry.is_dir, entry.path@),
{
    if entry.is_dir {
        return FOLDER_ICON.to_owned();
    }
    match guess_mime(entry.path.as_str()) {
        Some(m) => {
            let v = crate::text::chars_of(m.as_str());
            let n = v.len();
            let mut out: Vec<char> = Vec::new();
            let mut i: usize = 0;
            while i < n
                invariant
                    n == v@.len(),
                    i <= n,
                    out@ == dashed(v@).subrange(0, i as int),
                decreases n - i,
            {
                out.push(if v[i] == '/' { '-' } else { v[i] });
                i = i + 1;
                assert(out@ =~= dashed(v@).subrange(0, i as int));
            }
            assert(dashed(v@).subrange(0, n as int) =~= dashed(v@));
            string_of(out.as_slice())
        },
        None => FALLBACK_ICON.to_owned(),
    }
}

/// Whether `r` is the item of a file entry: its name, its parent for
/// display, its icon, and the actions to open it, to open its folder (files
/// only), and to copy its path.
pub open spec fn is_file_item(r: Item, home: Seq<char>, e: FileEntry) -> bool {
    let folder = match parent_path(e.path@) {
        Some(p) => p,
        None => Seq::empty(),
    };
    let copy = if e.is_dir { 1int } else { 2int };
    &&& r.title@ == e.name@
    &&& r.subtitle matches Some(s) && s@ == shown_parent(home, e.path@)
    &&& r.icon matches Some(IconRef::Name(n)) && n@ == entry_icon(e.is_dir, e.path@)
    &&& r.actions@.len() == copy + 1
    &&& r.actions@[0].label@ == OPEN_ACTION_LABEL@ && r.actions@[0].primary
    &&& r.actions@[0].params@.len() == 1 && r.actions@[0].params@[0]@ == e.path@
    &&& (!e.is_dir ==> r.actions@[1].label@ == OPEN_FOLDER_ACTION_LABEL@ && !r.actions@[1].primary
        && r.actions@[1].params@.len() == 1 && r.actions@[1].params@[0]@ == folder)
    &&& r.actions@[copy].label@ == COPY_PATH_ACTION_LABEL@ && !r.actions@[copy].primary
    &&& r.actions@[copy].params@.len() == 1 && r.actions@[copy].params@[0]@ == e.path@
}

fn one(s: String) -> (r: Vec<String>)
    ensures
        r@.len() == 1,
        r@[0] == s,
{
    let mut r: Vec<String> = Vec::new();
    r.push(s);
    r
}

/// The item of a file entry.
pub fn build_item(home: &str, entry: &FileEntry) -> (r: Item)
    ensures
        is_file_item(r, home@, *entry),
{
    let path = entry.path.clone();
    let mut actions: Vec<Action> = Vec::new();
    actions.push(Action { label: OPEN_ACTION_LABEL.to_owned(), params: one(path.clone()), primary: true });
    if !entry.is_dir {
        let parent = match parent_of(entry.path.as_str()) {
            Some(p) => p,
            None => String::new(),
        };
        actions.push(Action { label: OPEN_FOLDER_ACTION_LABEL.to_owned(), params: one(parent), primary: false });
    }
    actions.push(Action { label: COPY_PATH_ACTION_LABEL.to_owned(), params: one(path), primary: false });
    Item {
        title: entry.name.clone(),
        subtitle: Some(display_parent(home, entry.path.as_str())),
        icon: Some(IconRef::Name(icon_name(entry))),
        actions,
    }
}

/// The score of a file name for a query: the sum of its atoms' scores, if
/// every atom matches (a query without atoms scores every name 0).
pub open spec fn name_score(q: Seq<char>, name: Seq<char>, k: nat) -> Option<int>
    decreases k,
{
    if k == 0 {
        Some(0)
    } else {
        match (name_score(q, name, (k - 1) as nat), atom_score(q, true, k - 1, name)) {
            (Some(t), Some(s)) => Some(t + s),
            _ => None,
        }
    }
}

/// The atom scores are summed in a `u32`, as nucleo sums them; a sum past
/// `u32::MAX` leaves the file out.
pub open spec fn file_score(q: Seq<char>, name: Seq<char>) -> Option<int> {
    match name_score(q, name, atom_count(q, true)) {
        Some(t) => if t <= u32::MAX { Some(t) } else { None },
        None => None,
    }
}

proof fn lemma_name_score_mono(q: Seq<char>, name: Seq<char>, k: nat, m: nat)
    requires
        k <= m,
        name_score(q, name, k) is Some,
    ensures
        name_score(q, name, m) matches Some(t) ==> t >= name_score(q, name, k)->0,
    decreases m - k,
{
    if k < m {
        lemma_name_score_mono(q, name, k, (m - 1) as nat);
    }
}

proof fn lemma_name_score_none(q: Seq<char>, name: Seq<char>, k: nat, m: nat)
    requires
        k <= m,
        name_score(q, name, k) is None,
    ensures
        name_score(q, name, m) is None,
    decreases m - k,
{
    if k < m {
        lemma_name_score_none(q, name, k, (m - 1) as nat);
    }
}

proof fn lemma_name_score_bound(q: Seq<char>, name: Seq<char>, k: nat)
    ensures
        name_score(q, name, k) matches Some(t) ==> 0 <= t <= k * 65535,
    decreases k,
{
    if k > 0 {
        lemma_name_score_bound(q, name, (k - 1) as nat);
    }
}

/// Whether a result ranks strictly ahead of another: a higher score, then a
/// shallower path, then the smaller name.
pub open spec fn better(s1: int, d1: int, n1: Seq<char>, s2: int, d2: int, n2: Seq<char>) -> bool {
    s1 > s2 || (s1 == s2 && (d1 < d2 || (d1 == d2 && lex_less(n1, n2))))
}

proof fn lemma_better_trans(s1: int, d1: int, n1: Seq<char>, s2: int, d2: int, n2: Seq<char>, s3: int, d3: int, n3: Seq<char>)
    requires
        better(s1, d1, n1, s2, d2, n2),
        better(s2, d2, n2, s3, d3, n3),
    ensures
        better(s1, d1, n1, s3, d3, n3),
{
    if s1 == s2 && s2 == s3 && d1 == d2 && d2 == d3 {
        crate::capability::app_search::lemma_lex_trans(n1, n2, n3);
    }
}

proof fn lemma_better_irreflexive(s: int, d: int, n: Seq<char>)
    ensures
        !better(s, d, n, s, d, n),
{
    crate::capability::app_search::lemma_lex_total(n, n);
}

/// Whether entry `i` is ranked strictly ahead of entry `j`.
pub open spec fn entry_better(es: Seq<FileEntry>, q: Seq<char>, i: int, j: int) -> bool {
    better(file_score(q, es[i].name@)->0, es[i].depth as int, es[i].name@, file_score(q, es[j].name@)->0, es[j].depth as int, es[j].name@)
}

pub open spec fn file_matches(es: Seq<FileEntry>, q: Seq<char>, i: int) -> bool {
    0 <= i < es.len() && file_score(q, es[i].name@) is Some
}

/// `ix` picks the best matching entries, best first: at most
/// [`MAX_RESULTS`], each once, every match if there is room, and no match
/// left out ranks ahead of one kept. Among entries that rank alike, which
/// are kept and in what order is left open.
pub open spec fn top_selection(es: Seq<FileEntry>, q: Seq<char>, ix: Seq<int>) -> bool {
    &&& ix.len() <= MAX_RESULTS
    &&& forall|k: int| 0 <= k < ix.len() ==> file_matches(es, q, #[trigger] ix[k])
    &&& forall|k1: int, k2: int| 0 <= k1 < k2 < ix.len() ==> #[trigger] ix[k1] != #[trigger] ix[k2]
    &&& forall|k1: int, k2: int| 0 <= k1 < k2 < ix.len() ==> !entry_better(es, q, #[trigger] ix[k2], #[trigger] ix[k1])
    &&& forall|i: int| #![trigger file_matches(es, q, i)] file_matches(es, q, i) && !ix.contains(i) ==> ix.len() == MAX_RESULTS
        && forall|k: int| 0 <= k < ix.len() ==> !entry_better(es, q, i, #[trigger] ix[k])
}

/// The files shown for a query are at most thirty, each listed once, and
/// a higher score comes first; on equal scores the shallower path does.
pub proof fn ranking_puts_better_files_first(es: Seq<FileEntry>, q: Seq<char>, ix: Seq<int>)
    requires
        top_selection(es, q, ix),
    ensures
        ix.len() <= 30,
        forall|k1: int, k2: int| 0 <= k1 < k2 < ix.len() ==> #[trigger] ix[k1] != #[trigger] ix[k2],
        forall|k1: int, k2: int| 0 <= k1 < k2 < ix.len() ==> file_score(q, es[#[trigger] ix[k1]].name@)->0 >= file_score(q, es[#[trigger] ix[k2]].name@)->0,
        forall|k1: int, k2: int| 0 <= k1 < k2 < ix.len() && file_score(q, es[ix[k1]].name@)->0 == file_score(q, es[ix[k2]].name@)->0
            ==> es[#[trigger] ix[k1]].depth <= es[#[trigger] ix[k2]].depth,
        forall|k: int| 0 <= k < ix.len() ==> 0 <= #[trigger] ix[k] < es.len() && file_score(q, es[ix[k]].name@) is Some,
{
    assert forall|k: int| 0 <= k < ix.len() implies 0 <= #[trigger] ix[k] < es.len() && file_score(q, es[ix[k]].name@) is Some by {
        assert(file_matches(es, q, ix[k]));
    }
    assert forall|k1: int, k2: int| 0 <= k1 < k2 < ix.len() implies file_score(q, es[#[trigger] ix[k1]].name@)->0 >= file_score(q, es[#[trigger] ix[k2]].name@)->0 by {
        assert(!entry_better(es, q, ix[k2], ix[k1]));
    }
    assert forall|k1: int, k2: int| 0 <= k1 < k2 < ix.len() && file_score(q, es[ix[k1]].name@)->0 == file_score(q, es[ix[k2]].name@)->0
        implies es[#[trigger] ix[k1]].depth <= es[#[trigger] ix[k2]].depth by {
        assert(!entry_better(es, q, ix[k2], ix[k1]));
    }
}

/// The score of a name for a parsed query, if it matches.
fn score_name(p: &QueryPattern, name: &str, matcher: &mut DefaultMatcher, buf: &mut Vec<char>) -> (r: Option<u64>)
    requires
        p.smart(),
        utf8_len(name@) <= u32::MAX,
    ensures
        match file_score(p.query(), name@) {
            Some(t) => r == Some(t as u64) && 0 <= t <= u32::MAX,
            None => r is None,
        },
{
    let atoms = p.atoms();
    let ghost q = p.query();
    let mut total: u64 = 0;
    let mut a: usize = 0;
    while a < atoms
        invariant
            p.smart(),
            q == p.query(),
            atoms == atom_count(q, true),
            a <= atoms,
            utf8_len(name@) <= u32::MAX,
            name_score(q, name@, a as nat) == Some(total as int),
            total <= u32::MAX,
        decreases atoms - a,
    {
        match score_atom(p, a, name, matcher, buf) {
            None => {
                proof {
                    lemma_name_score_none(q, name@, (a + 1) as nat, atom_count(q, true));
                }
                return None;
            },
            Some(s) => {
                total = total + s as u64;
                if total > 0xffff_ffff {
                    proof {
                        lemma_name_score_mono(q, name@, (a + 1) as nat, atom_count(q, true));
                    }
                    return None;
                }
            },
        }
        a = a + 1;
    }
    proof {
        lemma_name_score_bound(q, name@, a as nat);
    }
    Some(total)
}

/// The best files for a query, best first: the query is trimmed, and one of
/// fewer than [`MIN_QUERY_CHARS`] characters finds nothing.
pub fn rank<'a>(input: &str, entries: &'a [FileEntry]) -> (r: Vec<&'a FileEntry>)
    requires
        forall|i: int| 0 <= i < entries@.len() ==> utf8_len((#[trigger] entries@[i]).name@) <= u32::MAX,
    ensures
        ({
            let q = trimmed(input@);
            if q.len() < MIN_QUERY_CHARS {
                r@.len() == 0
            } else {
                exists|ix: Seq<int>| #![auto] top_selection(entries@, q, ix) && r@.len() == ix.len()
                    && forall|k: int| 0 <= k < ix.len() ==> *r@[k] == entries@[ix[k]]
            }
        }),
{
    let tq = trim(input);
    let ghost q = trimmed(input@);
    if tq.len() < MIN_QUERY_CHARS {
        return Vec::new();
    }
    let t = string_of(tq.as_slice());
    let p = parse_pattern(t.as_str(), true);
    let mut matcher = new_matcher();
    let mut buf: Vec<char> = Vec::new();
    let n = entries.len();
    let mut best: Vec<(u64, usize)> = Vec::new();
    let mut i: usize = 0;
    while i < n
        invariant
            n == entries@.len(),
            i <= n,
            q == p.query(),
            p.smart(),
            forall|j: int| 0 <= j < entries@.len() ==> utf8_len((#[trigger] entries@[j]).name@) <= u32::MAX,
            best@.len() <= MAX_RESULTS,
            forall|k: int| 0 <= k < best@.len() ==> {
                &&& (#[trigger] best@[k]).1 < i
                &&& file_matches(entries@, q, best@[k].1 as int)
                &&& best@[k].0 as int == file_score(q, entries@[best@[k].1 as int].name@)->0
            },
            forall|k1: int, k2: int| 0 <= k1 < k2 < best@.len() ==> (#[trigger] best@[k1]).1 != (#[trigger] best@[k2]).1,
            forall|k1: int, k2: int| 0 <= k1 < k2 < best@.len() ==> !entry_better(entries@, q, (#[trigger] best@[k2]).1 as int, (#[trigger] best@[k1]).1 as int),
            forall|j: int| #![trigger file_matches(entries@, q, j)] 0 <= j < i && file_matches(entries@, q, j) ==> (exists|k: int| 0 <= k < best@.len() && #[trigger] best@[k].1 == j)
                || (best@.len() == MAX_RESULTS && forall|k: int| 0 <= k < best@.len() ==> !entry_better(entries@, q, j, #[trigger] best@[k].1 as int)),
        decreases n - i,
    {
        match score_name(&p, entries[i].name.as_str(), &mut matcher, &mut buf) {
            None => {},
            Some(s) => {
                let m = best.len();
                let mut pos: usize = 0;
                let mut found = false;
                while pos < m && !found
                    invariant
                        m == best@.len(),
                        pos <= m,
                        forall|k: int| 0 <= k < best@.len() ==> (#[trigger] best@[k]).1 < i
                            && best@[k].0 as int == file_score(q, entries@[best@[k].1 as int].name@)->0,
                        n == entries@.len(),
                        i < n,
                        s as int == file_score(q, entries@[i as int].name@)->0,
                        found ==> pos < m && entry_better(entries@, q, i as int, best@[pos as int].1 as int),
                        forall|k: int| 0 <= k < pos ==> !entry_better(entries@, q, i as int, (#[trigger] best@[k]).1 as int),
                    decreases m - pos + (if found { 0int } else { 1int }),
                {
                    let (s2, j2) = best[pos];
                    let ahead = s > s2 || (s == s2 && (entries[i].depth < entries[j2].depth || (entries[i].depth == entries[j2].depth
                        && crate::capability::app_search::lex_less_str(entries[i].name.as_str(), entries[j2].name.as_str()))));
                    if ahead {
                        found = true;
                    } else {
                        pos = pos + 1;
                    }
                }
                if pos < MAX_RESULTS {
                    let ghost old_best = best@;
                    best.insert(pos, (s, i));
                    proof {
                        if pos < m {
                            assert(entry_better(entries@, q, i as int, old_best[pos as int].1 as int));
                        }
                        assert forall|k1: int, k2: int| 0 <= k1 < k2 < best@.len() implies !entry_better(entries@, q, (#[trigger] best@[k2]).1 as int, (#[trigger] best@[k1]).1 as int) by {
                            if k1 < pos && k2 < pos {
                                assert(best@[k1] == old_best[k1] && best@[k2] == old_best[k2]);
                            } else if k1 < pos && k2 == pos {
                                assert(best@[k1] == old_best[k1]);
                            } else if k1 < pos {
                                assert(best@[k1] == old_best[k1] && best@[k2] == old_best[k2 - 1]);
                            } else if k1 == pos {
                                let y = old_best[k2 - 1].1 as int;
                                let x = old_best[pos as int].1 as int;
                                assert(best@[k2] == old_best[k2 - 1]);
                                if entry_better(entries@, q, y, i as int) {
                                    let e = entries@;
                                    lemma_better_trans(
                                        file_score(q, e[y].name@)->0, e[y].depth as int, e[y].name@,
                                        file_score(q, e[i as int].name@)->0, e[i as int].depth as int, e[i as int].name@,
                                        file_score(q, e[x].name@)->0, e[x].depth as int, e[x].name@,
                                    );
                                    if k2 - 1 == pos {
                                        lemma_better_irreflexive(file_score(q, e[x].name@)->0, e[x].depth as int, e[x].name@);
                                    }
                                }
                            } else {
                                assert(best@[k1] == old_best[k1 - 1] && best@[k2] == old_best[k2 - 1]);
                            }
                        }
                    }
                    proof {
                        assert forall|k1: int, k2: int| 0 <= k1 < k2 < best@.len() implies (#[trigger] best@[k1]).1 != (#[trigger] best@[k2]).1 by {
                            if k1 != pos && k2 != pos {
                                let a = if k1 < pos { k1 } else { k1 - 1 };
                                let b = if k2 < pos { k2 } else { k2 - 1 };
                                assert(best@[k1] == old_best[a] && best@[k2] == old_best[b]);
                            } else if k1 == pos {
                                assert(best@[k2] == old_best[k2 - 1]);
                            } else {
                                assert(best@[k1] == old_best[k1]);
                            }
                        }
                        assert forall|k: int| 0 <= k < best@.len() implies {
                            &&& (#[trigger] best@[k]).1 < i + 1
                            &&& file_matches(entries@, q, best@[k].1 as int)
                            &&& best@[k].0 as int == file_score(q, entries@[best@[k].1 as int].name@)->0
                        } by {
                            if k < pos {
                                assert(best@[k] == old_best[k]);
                            } else if k > pos {
                                assert(best@[k] == old_best[k - 1]);
                            }
                        }
                    }
                    let ghost full = best@;
                    if best.len() > MAX_RESULTS {
                        let _ = best.pop();
                        assert(best@ =~= full.subrange(0, MAX_RESULTS as int));
                    }
                    proof {
                        assert forall|j: int| #![trigger file_matches(entries@, q, j)] 0 <= j < i + 1 && file_matches(entries@, q, j) implies (exists|k: int| 0 <= k < best@.len() && #[trigger] best@[k].1 == j)
                            || (best@.len() == MAX_RESULTS && forall|k: int| 0 <= k < best@.len() ==> !entry_better(entries@, q, j, #[trigger] best@[k].1 as int)) by {
                            if j == i {
                                assert(best@[pos as int].1 == j);
                            } else if exists|k: int| 0 <= k < old_best.len() && #[trigger] old_best[k].1 == j {
                                let k = choose|k: int| 0 <= k < old_best.len() && #[trigger] old_best[k].1 == j;
                                let k2 = if k < pos { k } else { k + 1 };
                                assert(full[k2].1 == j);
                                if k2 < best@.len() {
                                    assert(best@[k2].1 == j);
                                } else {
                                    assert forall|kk: int| 0 <= kk < best@.len() implies !entry_better(entries@, q, j, #[trigger] best@[kk].1 as int) by {
                                        assert(best@[kk] == full[kk]);
                                    }
                                }
                            } else {
                                assert forall|kk: int| 0 <= kk < best@.len() implies !entry_better(entries@, q, j, #[trigger] best@[kk].1 as int) by {
                                    if kk == pos {
                                        let x = old_best[pos as int].1 as int;
                                        let e = entries@;
                                        if entry_better(entries@, q, j, i as int) {
                                            lemma_better_trans(
                                                file_score(q, e[j].name@)->0, e[j].depth as int, e[j].name@,
                                                file_score(q, e[i as int].name@)->0, e[i as int].depth as int, e[i as int].name@,
                                                file_score(q, e[x].name@)->0, e[x].depth as int, e[x].name@,
                                            );
                                        }
                                    } else if kk < pos {
                                        assert(best@[kk] == full[kk] && full[kk] == old_best[kk]);
                                    } else {
                                        assert(best@[kk] == full[kk] && full[kk] == old_best[kk - 1]);
                                    }
                                }
                            }
                        }
                    }
                }
            },
        }
        i = i + 1;
    }
    let mut r: Vec<&FileEntry> = Vec::new();
    let m = best.len();
    let mut k: usize = 0;
    while k < m
        invariant
            m == best@.len(),
            k <= m,
            r@.len() == k,
            n == entries@.len(),
            forall|a: int| 0 <= a < best@.len() ==> (#[trigger] best@[a]).1 < n,
            forall|a: int| 0 <= a < k ==> *r@[a] == entries@[best@[a].1 as int],
        decreases m - k,
    {
        let (_, j) = best[k];
        r.push(&entries[j]);
        k = k + 1;
    }
    let ghost ix = best@.map_values(|x: (u64, usize)| x.1 as int);
    proof {
        assert forall|a: int| 0 <= a < ix.len() implies file_matches(entries@, q, #[trigger] ix[a]) by {
            assert(ix[a] == best@[a].1 as int);
        }
        assert forall|k1: int, k2: int| 0 <= k1 < k2 < ix.len() implies #[trigger] ix[k1] != #[trigger] ix[k2] by {
            assert(ix[k1] == best@[k1].1 as int && ix[k2] == best@[k2].1 as int);
        }
        assert forall|k1: int, k2: int| 0 <= k1 < k2 < ix.len() implies !entry_better(entries@, q, #[trigger] ix[k2], #[trigger] ix[k1]) by {
            assert(ix[k1] == best@[k1].1 as int && ix[k2] == best@[k2].1 as int);
        }
        assert forall|j: int| #![trigger file_matches(entries@, q, j)] file_matches(entries@, q, j) && !ix.contains(j) implies ix.len() == MAX_RESULTS
            && forall|kk: int| 0 <= kk < ix.len() ==> !entry_better(entries@, q, j, #[trigger] ix[kk]) by {
            if exists|kk: int| 0 <= kk < best@.len() && #[trigger] best@[kk].1 == j {
                let kk = choose|kk: int| 0 <= kk < best@.len() && #[trigger] best@[kk].1 == j;
                assert(ix[kk] == j);
            }
            assert forall|kk: int| 0 <= kk < ix.len() implies !entry_better(entries@, q, j, #[trigger] ix[kk]) by {
                assert(ix[kk] == best@[kk].1 as int);
            }
        }
        assert(top_selection(entries@, q, ix));
    }
    r
}

/// What an action on a file item asks for.
#[derive(Debug, PartialEq, Eq)]
pub enum FileRequest {
    /// Open the path (a file, or a file's folder) with its default
    /// application.
    Open(String),
    /// Put the path on the system clipboard.
    Copy(String),
    /// Nothing to do: no payload, or an unknown label.
    Ignore,
}

/// The request of an action: its first parameter is the path.
pub fn file_request(action: Action) -> (r: FileRequest)
    ensures
        action.params@.len() == 0 ==> r == FileRequest::Ignore,
        action.params@.len() > 0 ==> (if action.label@ == OPEN_ACTION_LABEL@ || action.label@ == OPEN_FOLDER_ACTION_LABEL@ {
            r matches FileRequest::Open(t) && t@ == action.params@[0]@
        } else if action.label@ == COPY_PATH_ACTION_LABEL@ {
            r matches FileRequest::Copy(t) && t@ == action.params@[0]@
        } else {
            r == FileRequest::Ignore
        }),
{
    if action.params.len() == 0 {
        return FileRequest::Ignore;
    }
    let target = action.params[0].clone();
    let label = action.label.as_str();
    if crate::text::str_eq(label, OPEN_ACTION_LABEL) || crate::text::str_eq(label, OPEN_FOLDER_ACTION_LABEL) {
        FileRequest::Open(target)
    } else if crate::text::str_eq(label, COPY_PATH_ACTION_LABEL) {
        FileRequest::Copy(target)
    } else {
        FileRequest::Ignore
    }
}

} // verus!
