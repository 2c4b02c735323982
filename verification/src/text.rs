//! Character-level helpers shared by the argv classifiers.
use vstd::prelude::*;
use vstd::string::*;

verus! {

/// ASCII lower-casing of one character; every other character is kept.
pub open spec fn lower_char(c: char) -> char {
    if 'A' <= c && c <= 'Z' {
        ((c as u32) + 32) as char
    } else {
        c
    }
}

/// ASCII lower-casing of a whole sequence of characters.
pub open spec fn lower(s: Seq<char>) -> Seq<char> {
    Seq::new(s.len(), |i: int| lower_char(s[i]))
}

pub open spec fn is_digit(c: char) -> bool {
    '0' <= c && c <= '9'
}

/// Lower-cases one ASCII letter.
pub fn ascii_lower(c: char) -> (r: char)
    ensures
        r == lower_char(c),
{
    if 'A' <= c && c <= 'Z' {
        let b: u8 = c as u8;
        assert(b == c as u32);
        ((b + 32) as char)
    } else {
        c
    }
}

/// The characters of `s`, in order.
pub fn chars_of(s: &str) -> (v: Vec<char>)
    ensures
        v@ == s@,
{
    let n = s.unicode_len();
    let mut v: Vec<char> = Vec::new();
    let mut i: usize = 0;
    while i < n
        invariant
            n == s@.len(),
            i <= n,
            v@ == s@.subrange(0, i as int),
        decreases n - i,
    {
        v.push(s.get_char(i));
        i = i + 1;
    }
    assert(v@ == s@);
    v
}

/// Appends `c` to `s` (`String::push`): the string afterwards holds its
/// former characters followed by `c`.
#[verifier::external_body]
pub(crate) fn push_char(s: &mut String, c: char)
    ensures
        final(s)@ == old(s)@.push(c),
{
    s.push(c);
}

/// The string made of the characters of `v`, in order.
pub fn string_of(v: &[char]) -> (r: String)
    ensures
        r@ == v@,
{
    let n = v.len();
    let mut r = String::new();
    let mut i: usize = 0;
    while i < n
        invariant
            n == v@.len(),
            i <= n,
            r@ == v@.subrange(0, i as int),
        decreases n - i,
    {
        push_char(&mut r, v[i]);
        i = i + 1;
        assert(r@ =~= v@.subrange(0, i as int));
    }
    assert(v@.subrange(0, n as int) =~= v@);
    r
}

/// Whether two strings hold the same characters.
pub fn str_eq(a: &str, b: &str) -> (r: bool)
    ensures
        r == (a@ == b@),
{
    let n = a.unicode_len();
    let m = b.unicode_len();
    if n != m {
        return false;
    }
    let mut i: usize = 0;
    while i < n
        invariant
            n == a@.len(),
            m == b@.len(),
            n == m,
            i <= n,
            a@.subrange(0, i as int) == b@.subrange(0, i as int),
        decreases n - i,
    {
        if a.get_char(i) != b.get_char(i) {
            assert(a@[i as int] != b@[i as int]);
            return false;
        }
        assert(a@.subrange(0, i + 1) == a@.subrange(0, i as int).push(a@[i as int]));
        assert(b@.subrange(0, i + 1) == b@.subrange(0, i as int).push(b@[i as int]));
        i = i + 1;
    }
    assert(a@ == a@.subrange(0, n as int));
    assert(b@ == b@.subrange(0, n as int));
    true
}


/// `s` begins with a dash (an option-looking token).
pub open spec fn dash(s: Seq<char>) -> bool {
    s.len() > 0 && s[0] == '-'
}

/// Position of the first `c` in `s`.
pub open spec fn find_first(s: Seq<char>, c: char) -> Option<int>
    decreases s.len(),
{
    if s.len() == 0 {
        None
    } else if s[0] == c {
        Some(0)
    } else {
        match find_first(s.drop_first(), c) {
            Some(k) => Some(k + 1),
            None => None,
        }
    }
}

/// Every character of `s` is an ASCII digit (and there is at least one).
pub open spec fn all_digits(s: Seq<char>) -> bool {
    s.len() > 0 && forall|i: int| 0 <= i < s.len() ==> is_digit(#[trigger] s[i])
}

/// `sub` occurs somewhere inside `s`.
pub open spec fn has_infix(s: Seq<char>, sub: Seq<char>) -> bool {
    exists|i: int| 0 <= i && i + sub.len() <= s.len() && #[trigger] s.subrange(i, i + sub.len()) == sub
}

pub proof fn lemma_find_first(s: Seq<char>, c: char)
    ensures
        match find_first(s, c) {
            Some(k) => 0 <= k < s.len() && s[k] == c && forall|j: int| 0 <= j < k ==> s[j] != c,
            None => forall|j: int| 0 <= j < s.len() ==> s[j] != c,
        },
    decreases s.len(),
{
    if s.len() > 0 {
        lemma_find_first(s.drop_first(), c);
        if s[0] != c {
            match find_first(s.drop_first(), c) {
                Some(k) => {
                    assert forall|j: int| 0 <= j < k + 1 implies s[j] != c by {
                        if j > 0 {
                            assert(s[j] == s.drop_first()[j - 1]);
                        }
                    }
                },
                None => {
                    assert forall|j: int| 0 <= j < s.len() implies s[j] != c by {
                        if j > 0 {
                            assert(s[j] == s.drop_first()[j - 1]);
                        }
                    }
                },
            }
        }
    }
}

/// Characterisation of `find_first` by the first position that holds `c`.
pub proof fn lemma_find_first_is(s: Seq<char>, c: char, k: int)
    requires
        0 <= k <= s.len(),
        forall|j: int| 0 <= j < k ==> s[j] != c,
        k < s.len() ==> s[k] == c,
    ensures
        find_first(s, c) == if k < s.len() { Some(k) } else { None::<int> },
{
    lemma_find_first(s, c);
}

/// Whether `s` starts with the characters of `p`.
pub fn starts_with(s: &str, p: &str) -> (r: bool)
    ensures
        r == p@.is_prefix_of(s@),
{
    let n = s.unicode_len();
    let m = p.unicode_len();
    if m > n {
        return false;
    }
    let mut i: usize = 0;
    while i < m
        invariant
            n == s@.len(),
            m == p@.len(),
            m <= n,
            i <= m,
            forall|j: int| 0 <= j < i ==> s@[j] == p@[j],
        decreases m - i,
    {
        if s.get_char(i) != p.get_char(i) {
            return false;
        }
        i = i + 1;
    }
    assert(p@ =~= s@.subrange(0, m as int));
    true
}

/// Whether `s` begins with a dash.
pub fn is_dash(s: &str) -> (r: bool)
    ensures
        r == dash(s@),
{
    s.unicode_len() > 0 && s.get_char(0) == '-'
}

/// Position of the first `c` in `s`.
pub fn find_char(s: &str, c: char) -> (r: Option<usize>)
    ensures
        r matches Some(k) ==> find_first(s@, c) == Some(k as int),
        r is None ==> find_first(s@, c) is None,
{
    let n = s.unicode_len();
    let mut i: usize = 0;
    while i < n
        invariant
            n == s@.len(),
            i <= n,
            forall|j: int| 0 <= j < i ==> s@[j] != c,
        decreases n - i,
    {
        if s.get_char(i) == c {
            proof {
                lemma_find_first_is(s@, c, i as int);
            }
            return Some(i);
        }
        i = i + 1;
    }
    proof {
        lemma_find_first_is(s@, c, n as int);
    }
    None
}

/// Whether `s` holds the character `c`.
pub fn contains_char(s: &str, c: char) -> (r: bool)
    ensures
        r == s@.contains(c),
{
    match find_char(s, c) {
        Some(k) => {
            proof {
                lemma_find_first(s@, c);
            }
            true
        },
        None => {
            proof {
                lemma_find_first(s@, c);
            }
            false
        },
    }
}

/// Whether every character of `s` is an ASCII digit, with at least one.
pub fn is_all_digits(s: &str) -> (r: bool)
    ensures
        r == all_digits(s@),
{
    let n = s.unicode_len();
    if n == 0 {
        return false;
    }
    let mut i: usize = 0;
    while i < n
        invariant
            n == s@.len(),
            i <= n,
            forall|j: int| 0 <= j < i ==> is_digit(#[trigger] s@[j]),
        decreases n - i,
    {
        let c = s.get_char(i);
        if !('0' <= c && c <= '9') {
            return false;
        }
        i = i + 1;
    }
    true
}

/// The characters of `s`, ASCII-lower-cased.
pub fn lower_chars(s: &str) -> (v: Vec<char>)
    ensures
        v@ == lower(s@),
{
    let n = s.unicode_len();
    let mut v: Vec<char> = Vec::new();
    let mut i: usize = 0;
    while i < n
        invariant
            n == s@.len(),
            i <= n,
            v@ == lower(s@.subrange(0, i as int)),
        decreases n - i,
    {
        v.push(ascii_lower(s.get_char(i)));
        i = i + 1;
        assert(lower(s@.subrange(0, i as int)) =~= lower(s@.subrange(0, i - 1)).push(
            lower_char(s@[i - 1]),
        ));
    }
    assert(s@.subrange(0, n as int) == s@);
    v
}

/// Whether the characters in `v` equal those of `s`.
pub fn chars_eq(v: &[char], s: &str) -> (r: bool)
    ensures
        r == (v@ == s@),
{
    let n = v.len();
    if n != s.unicode_len() {
        return false;
    }
    let mut i: usize = 0;
    while i < n
        invariant
            n == v@.len(),
            n == s@.len(),
            i <= n,
            forall|j: int| 0 <= j < i ==> v@[j] == s@[j],
        decreases n - i,
    {
        if v[i] != s.get_char(i) {
            return false;
        }
        i = i + 1;
    }
    assert(v@ =~= s@);
    true
}

/// Whether the characters in `v` begin with those of `p`.
pub fn chars_start_with(v: &[char], p: &str) -> (r: bool)
    ensures
        r == p@.is_prefix_of(v@),
{
    let n = v.len();
    let m = p.unicode_len();
    if m > n {
        return false;
    }
    let mut i: usize = 0;
    while i < m
        invariant
            n == v@.len(),
            m == p@.len(),
            m <= n,
            i <= m,
            forall|j: int| 0 <= j < i ==> v@[j] == p@[j],
        decreases m - i,
    {
        if v[i] != p.get_char(i) {
            return false;
        }
        i = i + 1;
    }
    assert(p@ =~= v@.subrange(0, m as int));
    true
}

/// Whether `sub` occurs inside `v`.
pub fn chars_contain(v: &[char], sub: &str) -> (r: bool)
    ensures
        r == has_infix(v@, sub@),
{
    let n = v.len();
    let m = sub.unicode_len();
    if m > n {
        return false;
    }
    let mut i: usize = 0;
    while i <= n - m
        invariant
            n == v@.len(),
            m == sub@.len(),
            m <= n,
            i <= n - m + 1,
            forall|k: int| 0 <= k < i ==> #[trigger] v@.subrange(k, k + m) != sub@,
        decreases n - m + 1 - i,
    {
        let mut j: usize = 0;
        let mut same = true;
        while j < m
            invariant
                n == v@.len(),
                m == sub@.len(),
                i + m <= n,
                j <= m,
                same == (forall|l: int| 0 <= l < j ==> v@[i + l] == sub@[l]),
            decreases m - j,
        {
            if v[i + j] != sub.get_char(j) {
                same = false;
            }
            j = j + 1;
        }
        if same {
            assert(v@.subrange(i as int, i + m) =~= sub@);
            return true;
        }
        assert(v@.subrange(i as int, i + m) != sub@) by {
            let l = choose|l: int| 0 <= l < m && v@[i + l] != sub@[l];
            assert(v@.subrange(i as int, i + m)[l] == v@[i + l]);
        }
        i = i + 1;
    }
    assert forall|k: int| 0 <= k && k + m <= n implies #[trigger] v@.subrange(k, k + m) != sub@ by {}
    false
}

} // verus!
