//! Keeping the file index current: which directory a change concerns, what
//! a fresh listing of it changes, and the removal of a subtree.
use vstd::prelude::*;
use crate::capability::file_search::{parent_path, path_after, parent_of, strip_path_prefix, FileEntry};

verus! {

/// Whether `path` lies under `prefix`, whole components only, as
/// `Path::starts_with` decides (which is when `Path::strip_prefix`
/// succeeds).
pub open spec fn under(path: Seq<char>, prefix: Seq<char>) -> bool {
    path_after(path, prefix) is Some
}

/// Entries that a removal of the subtree at `prefix` keeps.
pub open spec fn outside(prefix: Seq<char>) -> spec_fn(FileEntry) -> bool {
    |e: FileEntry| !under(e.path@, prefix)
}

/// The directories among the entries under `prefix`, in index order.
pub open spec fn dirs_under(es: Seq<FileEntry>, prefix: Seq<char>) -> Seq<Seq<char>>
    decreases es.len(),
{
    if es.len() == 0 {
        Seq::empty()
    } else {
        let rest = dirs_under(es.drop_last(), prefix);
        let e = es.last();
        if e.is_dir && under(e.path@, prefix) {
            rest.push(e.path@)
        } else {
            rest
        }
    }
}

/// Drops every entry under `prefix` from the index; gives the paths of the
/// directories dropped, which are no longer to be watched.
pub fn remove_subtree(prefix: &str, entries: &mut Vec<FileEntry>) -> (r: Vec<String>)
    ensures
        final(entries)@ == old(entries)@.filter(outside(prefix@)),
        r.deep_view() == dirs_under(old(entries)@, prefix@),
{
    let ghost h = old(entries)@;
    let mut all: Vec<FileEntry> = Vec::new();
    std::mem::swap(entries, &mut all);
    let mut removed: Vec<String> = Vec::new();
    for e in it: all.into_iter()
        invariant
            it.seq() == h,
            entries@ == h.take(it.index()).filter(outside(prefix@)),
            removed.deep_view() == dirs_under(h.take(it.index()), prefix@),
    {
        proof {
            assert(h.take(it.index() + 1) =~= h.take(it.index()).push(e));
            assert(h.take(it.index() + 1).drop_last() =~= h.take(it.index()));
            h.take(it.index()).lemma_filter_push(e, outside(prefix@));
        }
        if strip_path_prefix(e.path.as_str(), prefix).is_some() {
            if e.is_dir {
                let ghost before = removed.deep_view();
                removed.push(e.path);
                assert(removed.deep_view() =~= before.push(e.path@));
            }
        } else {
            entries.push(e);
        }
    }
    assert(h.take(h.len() as int) =~= h);
    removed
}

/// Entries that a removal of the single path `path` keeps.
pub open spec fn other_path(path: Seq<char>) -> spec_fn(FileEntry) -> bool {
    |e: FileEntry| e.path@ != path
}

/// Drops the entries with exactly this path from the index.
pub fn remove_path(path: &str, entries: &mut Vec<FileEntry>)
    ensures
        final(entries)@ == old(entries)@.filter(other_path(path@)),
{
    let ghost h = old(entries)@;
    let mut all: Vec<FileEntry> = Vec::new();
    std::mem::swap(entries, &mut all);
    for e in it: all.into_iter()
        invariant
            it.seq() == h,
            entries@ == h.take(it.index()).filter(other_path(path@)),
    {
        proof {
            assert(h.take(it.index() + 1) =~= h.take(it.index()).push(e));
            h.take(it.index()).lemma_filter_push(e, other_path(path@));
        }
        if !crate::text::str_eq(e.path.as_str(), path) {
            entries.push(e);
        }
    }
    assert(h.take(h.len() as int) =~= h);
}

/// A path with its kind (`true` for a directory), as text.
pub open spec fn kinds(s: Seq<(String, bool)>) -> Seq<(Seq<char>, bool)> {
    s.map_values(|p: (String, bool)| (p.0@, p.1))
}

/// The paths and kinds of a directory listing, in its order.
pub open spec fn listing(es: Seq<FileEntry>) -> Seq<(Seq<char>, bool)> {
    es.map_values(|e: FileEntry| (e.path@, e.is_dir))
}

/// Whether the index holds `dir` as a directory.
pub open spec fn is_indexed_dir(es: Seq<FileEntry>, dir: Seq<char>) -> bool {
    exists|i: int| 0 <= i < es.len() && #[trigger] es[i].is_dir && es[i].path@ == dir
}

/// The entries whose parent is `dir`, with their kinds, in index order.
pub open spec fn children_of(es: Seq<FileEntry>, dir: Seq<char>) -> Seq<(Seq<char>, bool)>
    decreases es.len(),
{
    if es.len() == 0 {
        Seq::empty()
    } else {
        let rest = children_of(es.drop_last(), dir);
        let e = es.last();
        if parent_path(e.path@) == Some(dir) {
            rest.push((e.path@, e.is_dir))
        } else {
            rest
        }
    }
}

/// What the index knows of the children of `dir`, when a change there is
/// worth a rescan: `dir` is the home directory or an indexed directory.
/// A change anywhere else (an ancestor of home, say) is ignored.
pub fn known_children(dir: &str, home: &str, entries: &Vec<FileEntry>) -> (r: Option<Vec<(String, bool)>>)
    ensures
        r is None <==> (dir@ != home@ && !is_indexed_dir(entries@, dir@)),
        r matches Some(k) ==> kinds(k@) == children_of(entries@, dir@),
{
    let n = entries.len();
    if !crate::text::str_eq(dir, home) {
        let mut found = false;
        let mut i: usize = 0;
        while i < n && !found
            invariant
                n == entries@.len(),
                i <= n,
                found ==> is_indexed_dir(entries@, dir@),
                !found ==> forall|j: int| 0 <= j < i ==> !(#[trigger] entries@[j].is_dir && entries@[j].path@ == dir@),
            decreases n - i,
        {
            if entries[i].is_dir && crate::text::str_eq(entries[i].path.as_str(), dir) {
                found = true;
            }
            i = i + 1;
        }
        if !found {
            return None;
        }
    }
    let ghost h = entries@;
    let mut out: Vec<(String, bool)> = Vec::new();
    let mut i: usize = 0;
    while i < n
        invariant
            n == h.len(),
            h == entries@,
            i <= n,
            kinds(out@) == children_of(h.take(i as int), dir@),
        decreases n - i,
    {
        proof {
            assert(h.take(i + 1).drop_last() =~= h.take(i as int));
        }
        let e = &entries[i];
        let parent = parent_of(e.path.as_str());
        let child = match &parent {
            Some(p) => crate::text::str_eq(p.as_str(), dir),
            None => false,
        };
        if child {
            let ghost before = out@;
            out.push((e.path.clone(), e.is_dir));
            assert(kinds(out@) =~= kinds(before).push((e.path@, e.is_dir)));
        }
        i = i + 1;
    }
    assert(h.take(n as int) =~= h);
    Some(out)
}

/// The kind that a list of paths gives `path`: that of its last occurrence,
/// as a map built from the list keeps it.
pub open spec fn last_kind(s: Seq<(Seq<char>, bool)>, path: Seq<char>) -> Option<bool>
    decreases s.len(),
{
    if s.len() == 0 {
        None
    } else if s.last().0 == path {
        Some(s.last().1)
    } else {
        last_kind(s.drop_last(), path)
    }
}

/// Known children that the listing no longer shows with the same kind: gone,
/// or replaced by the other kind.
pub open spec fn is_stale(current: Seq<(Seq<char>, bool)>) -> spec_fn((Seq<char>, bool)) -> bool {
    |k: (Seq<char>, bool)| last_kind(current, k.0) != Some(k.1)
}

/// Listed entries that the index does not know with the same kind.
pub open spec fn is_fresh(known: Seq<(Seq<char>, bool)>) -> spec_fn(FileEntry) -> bool {
    |e: FileEntry| last_kind(known, e.path@) != Some(e.is_dir)
}

/// The kind that the listing gives `path`, if it lists it.
fn listed_kind(current: &Vec<FileEntry>, path: &str) -> (r: Option<bool>)
    ensures
        r == last_kind(listing(current@), path@),
{
    let ghost l = listing(current@);
    let mut i: usize = current.len();
    assert(l.take(i as int) =~= l);
    while i > 0
        invariant
            i <= current@.len(),
            l == listing(current@),
            last_kind(l, path@) == last_kind(l.take(i as int), path@),
        decreases i,
    {
        proof {
            assert(l.take(i as int).drop_last() =~= l.take(i - 1));
        }
        if crate::text::str_eq(current[i - 1].path.as_str(), path) {
            return Some(current[i - 1].is_dir);
        }
        i = i - 1;
    }
    None
}

/// The kind that the known children give `path`, if they hold it.
fn known_kind(known: &Vec<(String, bool)>, path: &str) -> (r: Option<bool>)
    ensures
        r == last_kind(kinds(known@), path@),
{
    let ghost l = kinds(known@);
    let mut i: usize = known.len();
    assert(l.take(i as int) =~= l);
    while i > 0
        invariant
            i <= known@.len(),
            l == kinds(known@),
            last_kind(l, path@) == last_kind(l.take(i as int), path@),
        decreases i,
    {
        proof {
            assert(l.take(i as int).drop_last() =~= l.take(i - 1));
        }
        if crate::text::str_eq(known[i - 1].0.as_str(), path) {
            return Some(known[i - 1].1);
        }
        i = i - 1;
    }
    None
}

/// The known children that a fresh listing of their directory drops: each
/// is to leave the index, a directory with its whole subtree.
pub fn stale_children(known: &Vec<(String, bool)>, current: &Vec<FileEntry>) -> (r: Vec<(String, bool)>)
    ensures
        kinds(r@) == kinds(known@).filter(is_stale(listing(current@))),
{
    let ghost h = kinds(known@);
    let ghost p = is_stale(listing(current@));
    let mut out: Vec<(String, bool)> = Vec::new();
    let n = known.len();
    let mut i: usize = 0;
    while i < n
        invariant
            n == known@.len(),
            h == kinds(known@),
            p == is_stale(listing(current@)),
            i <= n,
            kinds(out@) == h.take(i as int).filter(p),
        decreases n - i,
    {
        proof {
            assert(h.take(i + 1) =~= h.take(i as int).push(h[i as int]));
            h.take(i as int).lemma_filter_push(h[i as int], p);
        }
        let kind = listed_kind(current, known[i].0.as_str());
        let keep = match kind {
            Some(d) => d != known[i].1,
            None => true,
        };
        if keep {
            let ghost before = out@;
            out.push((known[i].0.clone(), known[i].1));
            assert(kinds(out@) =~= kinds(before).push(h[i as int]));
        }
        i = i + 1;
    }
    assert(h.take(n as int) =~= h);
    out
}

/// The listed entries that the index lacks, in listing order: each is to
/// be added, a directory after its own subtree.
pub fn fresh_entries(known: &Vec<(String, bool)>, current: Vec<FileEntry>) -> (r: Vec<FileEntry>)
    ensures
        r@ == current@.filter(is_fresh(kinds(known@))),
{
    let ghost h = current@;
    let ghost p = is_fresh(kinds(known@));
    let mut out: Vec<FileEntry> = Vec::new();
    for e in it: current.into_iter()
        invariant
            it.seq() == h,
            p == is_fresh(kinds(known@)),
            out@ == h.take(it.index()).filter(p),
    {
        proof {
            assert(h.take(it.index() + 1) =~= h.take(it.index()).push(e));
            h.take(it.index()).lemma_filter_push(e, p);
        }
        let kind = known_kind(known, e.path.as_str());
        let fresh = match kind {
            Some(d) => d != e.is_dir,
            None => true,
        };
        if fresh {
            out.push(e);
        }
    }
    assert(h.take(h.len() as int) =~= h);
    out
}

/// Whether no path occurs twice.
pub open spec fn paths_unique(s: Seq<(Seq<char>, bool)>) -> bool {
    forall|i: int, j: int| 0 <= i < j < s.len() ==> #[trigger] s[i].0 != #[trigger] s[j].0
}

proof fn lemma_last_kind_at(s: Seq<(Seq<char>, bool)>, i: int)
    requires
        paths_unique(s),
        0 <= i < s.len(),
    ensures
        last_kind(s, s[i].0) == Some(s[i].1),
    decreases s.len(),
{
    if i < s.len() - 1 {
        assert(s[i].0 != s[s.len() - 1].0);
        assert(paths_unique(s.drop_last()));
        assert(s.drop_last()[i] == s[i]);
        lemma_last_kind_at(s.drop_last(), i);
    }
}

/// A listing that shows exactly the children the index knows, with their
/// kinds and nothing twice, leaves the index as it is: no child is stale
/// and no entry is fresh.
pub proof fn unchanged_listing_changes_nothing(known: Seq<(Seq<char>, bool)>, current: Seq<FileEntry>)
    requires
        listing(current) == known,
        paths_unique(known),
    ensures
        known.filter(is_stale(listing(current))) =~= Seq::<(Seq<char>, bool)>::empty(),
        current.filter(is_fresh(known)) =~= Seq::<FileEntry>::empty(),
{
    broadcast use vstd::seq_lib::group_filter_ensures;
    let st = known.filter(is_stale(listing(current)));
    if st.len() > 0 {
        let k = st[0];
        assert(st.contains(k));
        known.lemma_filter_contains_rev(is_stale(listing(current)), k);
        assert(is_stale(listing(current))(k));
        let i = choose|i: int| 0 <= i < known.len() && known[i] == k;
        lemma_last_kind_at(known, i);
    }
    let fr = current.filter(is_fresh(known));
    if fr.len() > 0 {
        let e = fr[0];
        assert(fr.contains(e));
        current.lemma_filter_contains_rev(is_fresh(known), e);
        assert(is_fresh(known)(e));
        let i = choose|i: int| 0 <= i < current.len() && current[i] == e;
        assert(known[i] == (e.path@, e.is_dir));
        lemma_last_kind_at(known, i);
    }
}

/// After the subtree at `prefix` is removed, nothing under `prefix` is
/// left, and every entry outside it is still there.
pub proof fn removed_subtree_is_gone(es: Seq<FileEntry>, prefix: Seq<char>)
    ensures
        forall|i: int| 0 <= i < es.filter(outside(prefix)).len() ==> !under(#[trigger] es.filter(outside(prefix))[i].path@, prefix),
        forall|i: int| 0 <= i < es.len() && !under(es[i].path@, prefix) ==> es.filter(outside(prefix)).contains(#[trigger] es[i]),
{
    broadcast use vstd::seq_lib::group_filter_ensures;
    assert forall|i: int| 0 <= i < es.filter(outside(prefix)).len() implies !under(#[trigger] es.filter(outside(prefix))[i].path@, prefix) by {
        assert(outside(prefix)(es.filter(outside(prefix))[i]));
    }
    assert forall|i: int| 0 <= i < es.len() && !under(es[i].path@, prefix) implies es.filter(outside(prefix)).contains(#[trigger] es[i]) by {
        assert(outside(prefix)(es[i]));
    }
}

} // verus!
