//! The executable name a command word resolves to, as the last component of
//! its path (`Path::file_name`), for Unix and for Windows path syntax.
use vstd::prelude::*;
use vstd::string::*;
use crate::text::{lower, lower_char, ascii_lower};

verus! {

/// A path separator: `/` on Unix; `/` or `\` on Windows.
pub open spec fn is_sep(c: char, windows: bool) -> bool {
    c == '/' || (windows && c == '\\')
}

/// Index of the last separator in `s`, or -1.
pub open spec fn last_sep(s: Seq<char>, windows: bool) -> int
    decreases s.len(),
{
    if s.len() == 0 {
        -1
    } else if is_sep(s.last(), windows) {
        s.len() - 1
    } else {
        last_sep(s.drop_last(), windows)
    }
}

/// The last normal component of a path without prefix: separators repeat
/// freely, `.` components vanish, and a final `..` has no file name.
pub open spec fn components_file_name(s: Seq<char>, windows: bool) -> Option<Seq<char>>
    decreases s.len(),
{
    if s.len() == 0 {
        None
    } else if is_sep(s.last(), windows) {
        components_file_name(s.drop_last(), windows)
    } else {
        let k = last_sep(s, windows) + 1;
        let comp = s.subrange(k, s.len() as int);
        if k < 0 || k >= s.len() {
            None
        } else if comp == seq!['.'] {
            components_file_name(s.subrange(0, k), windows)
        } else if comp == seq!['.', '.'] {
            None
        } else {
            Some(comp)
        }
    }
}

/// A Windows drive prefix such as `C:` is not part of any component.
pub open spec fn has_drive(s: Seq<char>) -> bool {
    s.len() >= 2 && s[1] == ':' && (('a' <= s[0] && s[0] <= 'z') || ('A' <= s[0] && s[0] <= 'Z'))
}

/// `Path::new(s).file_name()` on Unix.
pub open spec fn unix_file_name(s: Seq<char>) -> Option<Seq<char>> {
    components_file_name(s, false)
}

/// `Path::new(s).file_name()` on Windows, for drive-letter and relative
/// paths (a `\\server\share` prefix is read as two plain components).
pub open spec fn windows_file_name(s: Seq<char>) -> Option<Seq<char>> {
    if has_drive(s) {
        components_file_name(s.subrange(2, s.len() as int), true)
    } else {
        components_file_name(s, true)
    }
}

proof fn lemma_last_sep(s: Seq<char>, windows: bool)
    ensures
        -1 <= last_sep(s, windows) < s.len(),
        last_sep(s, windows) >= 0 ==> is_sep(s[last_sep(s, windows)], windows),
        forall|j: int| last_sep(s, windows) < j < s.len() ==> !is_sep(#[trigger] s[j], windows),
    decreases s.len(),
{
    if s.len() > 0 && !is_sep(s.last(), windows) {
        lemma_last_sep(s.drop_last(), windows);
        assert forall|j: int| last_sep(s, windows) < j < s.len() implies !is_sep(#[trigger] s[j], windows) by {
            if j < s.len() - 1 {
                assert(s[j] == s.drop_last()[j]);
            }
        }
    }
}

proof fn lemma_last_sep_is(s: Seq<char>, windows: bool, r: int)
    requires
        -1 <= r < s.len(),
        r >= 0 ==> is_sep(s[r], windows),
        forall|j: int| r < j < s.len() ==> !is_sep(#[trigger] s[j], windows),
    ensures
        last_sep(s, windows) == r,
    decreases s.len(),
{
    if s.len() > 0 && r < s.len() - 1 {
        assert(!is_sep(s[s.len() - 1], windows));
        assert forall|j: int| r < j < s.len() - 1 implies !is_sep(#[trigger] s.drop_last()[j], windows) by {
            assert(s.drop_last()[j] == s[j]);
        }
        if r >= 0 {
            assert(s.drop_last()[r] == s[r]);
        }
        lemma_last_sep_is(s.drop_last(), windows, r);
    }
}

fn is_sep_exec(c: char, windows: bool) -> (r: bool)
    ensures
        r == is_sep(c, windows),
{
    c == '/' || (windows && c == '\\')
}

/// The file name of `v[from..]`, as a range of `v`.
fn file_name_range(v: &[char], from: usize, windows: bool) -> (r: Option<(usize, usize)>)
    requires
        from <= v@.len(),
    ensures
        match components_file_name(v@.subrange(from as int, v@.len() as int), windows) {
            Some(name) => r matches Some((a, b)) && from <= a <= b <= v@.len() && v@.subrange(
                a as int,
                b as int,
            ) == name,
            None => r is None,
        },
{
    let ghost w = v@.subrange(from as int, v@.len() as int);
    let mut end: usize = v.len();
    loop
        invariant
            from <= end <= v@.len(),
            w == v@.subrange(from as int, v@.len() as int),
            components_file_name(w, windows) == components_file_name(
                v@.subrange(from as int, end as int),
                windows,
            ),
        decreases end,
    {
        let ghost p = v@.subrange(from as int, end as int);
        if end == from {
            return None;
        }
        if is_sep_exec(v[end - 1], windows) {
            assert(p.drop_last() =~= v@.subrange(from as int, end - 1));
            end = end - 1;
            continue;
        }
        let mut k: usize = end - 1;
        while k > from && !is_sep_exec(v[k - 1], windows)
            invariant
                from <= k < end,
                end <= v@.len(),
                forall|j: int| k <= j < end ==> !is_sep(#[trigger] v@[j], windows),
            decreases k,
        {
            k = k - 1;
        }
        proof {
            let r = if k > from { k - 1 - from } else { -1 };
            assert forall|j: int| r < j < p.len() implies !is_sep(#[trigger] p[j], windows) by {
                assert(p[j] == v@[from + j]);
            }
            if k > from {
                assert(p[k - 1 - from] == v@[k - 1]);
            }
            lemma_last_sep_is(p, windows, r);
            assert(p.subrange(k - from, p.len() as int) =~= v@.subrange(k as int, end as int));
            assert(p.subrange(0, k - from) =~= v@.subrange(from as int, k as int));
        }
        let len = end - k;
        if len == 1 && v[k] == '.' {
            assert(v@.subrange(k as int, end as int) =~= seq!['.']);
            end = k;
            continue;
        }
        if len == 2 && v[k] == '.' && v[k + 1] == '.' {
            assert(v@.subrange(k as int, end as int) =~= seq!['.', '.']);
            return None;
        }
        proof {
            if len == 1 {
                assert(v@.subrange(k as int, end as int)[0] == v@[k as int]);
            }
            if len == 2 {
                assert(v@.subrange(k as int, end as int)[0] == v@[k as int]);
                assert(v@.subrange(k as int, end as int)[1] == v@[k + 1]);
            }
        }
        return Some((k, end));
    }
}

/// The Unix file name of a command word.
pub fn unix_name(raw: &str) -> (r: Option<Vec<char>>)
    ensures
        match unix_file_name(raw@) {
            Some(name) => r matches Some(v) && v@ == name,
            None => r is None,
        },
{
    let v = crate::text::chars_of(raw);
    assert(v@.subrange(0, v@.len() as int) == v@);
    match file_name_range(v.as_slice(), 0, false) {
        Some((a, b)) => Some(vstd::slice::slice_to_vec(vstd::slice::slice_subrange(v.as_slice(), a, b))),
        None => None,
    }
}

/// The Windows file name of a command word.
pub fn windows_name(raw: &str) -> (r: Option<Vec<char>>)
    ensures
        match windows_file_name(raw@) {
            Some(name) => r matches Some(v) && v@ == name,
            None => r is None,
        },
{
    let v = crate::text::chars_of(raw);
    let n = v.len();
    let from: usize = if n >= 2 && v[1] == ':' && (('a' <= v[0] && v[0] <= 'z') || ('A' <= v[0] && v[0] <= 'Z')) {
        2
    } else {
        0
    };
    assert(v@.subrange(0, n as int) == v@);
    match file_name_range(v.as_slice(), from, true) {
        Some((a, b)) => Some(vstd::slice::slice_to_vec(vstd::slice::slice_subrange(v.as_slice(), a, b))),
        None => None,
    }
}

} // verus!
