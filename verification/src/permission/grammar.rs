//! The small token grammars that wrapper options accept: durations, `nice`
//! adjustments and signal names.
use vstd::prelude::*;
use vstd::string::*;
use crate::text::{all_digits, chars_eq, chars_start_with, find_char, find_first, is_all_digits, is_digit, lemma_find_first};

verus! {

/// End of the run of ASCII digits that starts at `i`.
pub open spec fn digit_run(s: Seq<char>, i: int) -> int
    decreases s.len() - i,
{
    if 0 <= i < s.len() && is_digit(s[i]) {
        digit_run(s, i + 1)
    } else {
        i
    }
}

/// Start of the mantissa: after an optional leading `+`.
pub open spec fn after_plus(s: Seq<char>) -> int {
    if s.len() > 0 && s[0] == '+' { 1 } else { 0 }
}

/// End of the optional `.digits` fraction that may start at `i`, or `None`
/// when a `.` is not followed by a digit.
pub open spec fn fraction_end(s: Seq<char>, i: int) -> Option<int> {
    if 0 <= i < s.len() && s[i] == '.' {
        let j = digit_run(s, i + 1);
        if j > i + 1 { Some(j) } else { None }
    } else {
        Some(i)
    }
}

/// End of the optional exponent `[eE][+-]?digits` that may start at `i`, or
/// `None` when an `e` is not followed by digits.
pub open spec fn exponent_end(s: Seq<char>, i: int) -> Option<int> {
    if 0 <= i < s.len() && (s[i] == 'e' || s[i] == 'E') {
        let k = if i + 1 < s.len() && (s[i + 1] == '+' || s[i + 1] == '-') { i + 2 } else { i + 1 };
        let j = digit_run(s, k);
        if j > k { Some(j) } else { None }
    } else {
        Some(i)
    }
}

/// End after the optional unit suffix (`s`, `m`, `h` or `d`) at `i`.
pub open spec fn unit_end(s: Seq<char>, i: int) -> int {
    if 0 <= i < s.len() && (s[i] == 's' || s[i] == 'm' || s[i] == 'h' || s[i] == 'd') {
        i + 1
    } else {
        i
    }
}

/// A `timeout` duration: `^\+?[0-9]+(\.[0-9]+)?([eE][+-]?[0-9]+)?[smhd]?$`.
/// Each optional part starts with a character that no earlier part may end
/// with, so reading the parts greedily from the left decides the pattern.
pub open spec fn valid_duration(s: Seq<char>) -> bool {
    let i0 = after_plus(s);
    let i1 = digit_run(s, i0);
    i1 > i0 && match fraction_end(s, i1) {
        Some(i2) => match exponent_end(s, i2) {
            Some(i3) => unit_end(s, i3) == s.len(),
            None => false,
        },
        None => false,
    }
}

/// A `nice` adjustment: `^[+-]?[0-9]+$`.
pub open spec fn valid_adjustment(s: Seq<char>) -> bool {
    let i0 = if s.len() > 0 && (s[0] == '+' || s[0] == '-') { 1int } else { 0int };
    s.len() > i0 && digit_run(s, i0) == s.len()
}

/// Case folding of one character onto the upper-case ASCII letters, as a
/// case-insensitive pattern sees it: ASCII letters, plus the Kelvin sign
/// (folds to `K`) and the long s (folds to `S`).
pub open spec fn fold_char(c: char) -> char {
    if 'a' <= c && c <= 'z' {
        ((c as u32) - 32) as char
    } else if c == '\u{212A}' {
        'K'
    } else if c == '\u{17F}' {
        'S'
    } else {
        c
    }
}

pub open spec fn fold(s: Seq<char>) -> Seq<char> {
    Seq::new(s.len(), |i: int| fold_char(s[i]))
}

/// The POSIX signal names, upper-case, without the `SIG` prefix.
pub open spec fn signal_name(s: Seq<char>) -> bool {
    ||| s == "HUP"@ ||| s == "INT"@ ||| s == "QUIT"@ ||| s == "ILL"@ ||| s == "TRAP"@
    ||| s == "ABRT"@ ||| s == "BUS"@ ||| s == "FPE"@ ||| s == "KILL"@ ||| s == "USR1"@
    ||| s == "SEGV"@ ||| s == "USR2"@ ||| s == "PIPE"@ ||| s == "ALRM"@ ||| s == "TERM"@
    ||| s == "CHLD"@ ||| s == "CONT"@ ||| s == "STOP"@ ||| s == "TSTP"@ ||| s == "TTIN"@
    ||| s == "TTOU"@ ||| s == "URG"@ ||| s == "XCPU"@ ||| s == "XFSZ"@ ||| s == "VTALRM"@
    ||| s == "PROF"@ ||| s == "WINCH"@ ||| s == "IO"@ ||| s == "SYS"@
}

/// A signal: a number, or a signal name with an optional `SIG` prefix, in
/// any letter case (`^(?i)(SIG)?(HUP|INT|...)$|^[0-9]+$`).
pub open spec fn valid_signal(s: Seq<char>) -> bool {
    let f = fold(s);
    ||| all_digits(s)
    ||| signal_name(f)
    ||| ("SIG"@.is_prefix_of(f) && signal_name(f.subrange(3, f.len() as int)))
}

/// A comma-separated list whose every entry is a valid signal.
pub open spec fn all_signals(s: Seq<char>) -> bool
    decreases s.len(),
{
    match find_first(s, ',') {
        None => valid_signal(s),
        Some(p) => {
            if 0 <= p < s.len() {
                valid_signal(s.subrange(0, p)) && all_signals(s.subrange(p + 1, s.len() as int))
            } else {
                false
            }
        },
    }
}

/// End of the digit run of `s` that starts at `i`.
fn scan_digits(s: &str, i: usize) -> (r: usize)
    requires
        i <= s@.len(),
    ensures
        r as int == digit_run(s@, i as int),
        i <= r <= s@.len(),
{
    let n = s.unicode_len();
    let mut j = i;
    while j < n
        invariant
            n == s@.len(),
            i <= j <= n,
            digit_run(s@, i as int) == digit_run(s@, j as int),
        decreases n - j,
    {
        let c = s.get_char(j);
        if !('0' <= c && c <= '9') {
            return j;
        }
        j = j + 1;
    }
    j
}

/// Whether `s` is a `timeout` duration.
pub fn is_valid_duration(s: &str) -> (r: bool)
    ensures
        r == valid_duration(s@),
{
    let n = s.unicode_len();
    let i0: usize = if n > 0 && s.get_char(0) == '+' { 1 } else { 0 };
    let i1 = scan_digits(s, i0);
    if i1 <= i0 {
        return false;
    }
    let i2 = if i1 < n && s.get_char(i1) == '.' {
        let j = scan_digits(s, i1 + 1);
        if j <= i1 + 1 {
            return false;
        }
        j
    } else {
        i1
    };
    let i3 = if i2 < n && (s.get_char(i2) == 'e' || s.get_char(i2) == 'E') {
        let k = if i2 + 1 < n && (s.get_char(i2 + 1) == '+' || s.get_char(i2 + 1) == '-') {
            i2 + 2
        } else {
            i2 + 1
        };
        let j = scan_digits(s, k);
        if j <= k {
            return false;
        }
        j
    } else {
        i2
    };
    let i4 = if i3 < n && {
        let c = s.get_char(i3);
        c == 's' || c == 'm' || c == 'h' || c == 'd'
    } {
        i3 + 1
    } else {
        i3
    };
    i4 == n
}

/// Whether `s` is a `nice` adjustment.
pub fn is_valid_adjustment(s: &str) -> (r: bool)
    ensures
        r == valid_adjustment(s@),
{
    let n = s.unicode_len();
    let i0: usize = if n > 0 && (s.get_char(0) == '+' || s.get_char(0) == '-') { 1 } else { 0 };
    n > i0 && scan_digits(s, i0) == n
}

fn fold_one(c: char) -> (r: char)
    ensures
        r == fold_char(c),
{
    if 'a' <= c && c <= 'z' {
        let b: u8 = c as u8;
        assert(b == c as u32);
        (b - 32) as char
    } else if c == '\u{212A}' {
        'K'
    } else if c == '\u{17F}' {
        'S'
    } else {
        c
    }
}

fn is_signal_name(v: &[char]) -> (r: bool)
    ensures
        r == signal_name(v@),
{
    chars_eq(v, "HUP") || chars_eq(v, "INT") || chars_eq(v, "QUIT") || chars_eq(v, "ILL")
        || chars_eq(v, "TRAP") || chars_eq(v, "ABRT") || chars_eq(v, "BUS") || chars_eq(v, "FPE")
        || chars_eq(v, "KILL") || chars_eq(v, "USR1") || chars_eq(v, "SEGV") || chars_eq(
        v,
        "USR2",
    ) || chars_eq(v, "PIPE") || chars_eq(v, "ALRM") || chars_eq(v, "TERM") || chars_eq(v, "CHLD")
        || chars_eq(v, "CONT") || chars_eq(v, "STOP") || chars_eq(v, "TSTP") || chars_eq(v, "TTIN")
        || chars_eq(v, "TTOU") || chars_eq(v, "URG") || chars_eq(v, "XCPU") || chars_eq(v, "XFSZ")
        || chars_eq(v, "VTALRM") || chars_eq(v, "PROF") || chars_eq(v, "WINCH") || chars_eq(
        v,
        "IO",
    ) || chars_eq(v, "SYS")
}

/// Whether `s` names a signal.
pub fn is_valid_signal(s: &str) -> (r: bool)
    ensures
        r == valid_signal(s@),
{
    if is_all_digits(s) {
        return true;
    }
    let n = s.unicode_len();
    let mut f: Vec<char> = Vec::new();
    let mut i: usize = 0;
    while i < n
        invariant
            n == s@.len(),
            i <= n,
            f@ == fold(s@.subrange(0, i as int)),
        decreases n - i,
    {
        f.push(fold_one(s.get_char(i)));
        i = i + 1;
        assert(fold(s@.subrange(0, i as int)) =~= fold(s@.subrange(0, i - 1)).push(
            fold_char(s@[i - 1]),
        ));
    }
    assert(s@.subrange(0, n as int) == s@);
    if is_signal_name(f.as_slice()) {
        return true;
    }
    if chars_start_with(f.as_slice(), "SIG") {
        proof {
            reveal_strlit("SIG");
        }
        let rest = vstd::slice::slice_subrange(f.as_slice(), 3, n);
        return is_signal_name(rest);
    }
    false
}

/// Whether every comma-separated entry of `s` is a valid signal.
pub fn is_valid_signal_list(s: &str) -> (r: bool)
    ensures
        r == all_signals(s@),
    decreases s@.len(),
{
    let n = s.unicode_len();
    match find_char(s, ',') {
        None => is_valid_signal(s),
        Some(p) => {
            proof {
                lemma_find_first(s@, ',');
            }
            let head = s.substring_char(0, p);
            let tail = s.substring_char(p + 1, n);
            is_valid_signal(head) && is_valid_signal_list(tail)
        },
    }
}

} // verus!
