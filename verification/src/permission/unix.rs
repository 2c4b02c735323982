//! Per-argv safety check for Unix shells.
use vstd::prelude::*;
use vstd::string::*;
use crate::permission::entity::{ArgvDecision, PermissionError};
use crate::permission::names::{unix_file_name, unix_name};
use crate::permission::safety::{any_arg_eq, any_arg_prefix, any_eq, any_prefix, ripgrep_check, ripgrep_decision};
use crate::permission::transparent::tokens;
use crate::text::{all_digits, chars_eq, chars_start_with, find_char, find_first, is_all_digits, is_dash, lemma_find_first, starts_with, str_eq, contains_char};

verus! {

/// The Unix flavour the classifier runs on; a few utilities are only known
/// to be read-only in their GNU (Linux) form.
#[derive(Debug, Clone, Copy, PartialEq, Eq, Structural)]
pub enum UnixFlavor {
    Linux,
    Other,
}

/// Interpreters that run arbitrary code.
pub open spec fn shell_name(s: Seq<char>) -> bool {
    ||| s == "sh"@ ||| s == "bash"@ ||| s == "zsh"@ ||| s == "fish"@ ||| s == "dash"@
    ||| s == "ksh"@ ||| s == "csh"@ ||| s == "tcsh"@
}

/// Read-only utilities that are always allowed.
pub open spec fn always_allowed_name(s: Seq<char>) -> bool {
    ||| s == "cat"@ ||| s == "cd"@ ||| s == "cut"@ ||| s == "echo"@ ||| s == "expr"@
    ||| s == "false"@ ||| s == "grep"@ ||| s == "head"@ ||| s == "id"@ ||| s == "ls"@
    ||| s == "nl"@ ||| s == "paste"@ ||| s == "pwd"@ ||| s == "rev"@ ||| s == "seq"@
    ||| s == "stat"@ ||| s == "tail"@ ||| s == "tr"@ ||| s == "true"@ ||| s == "uname"@
    ||| s == "wc"@ ||| s == "which"@ ||| s == "whoami"@
}

/// The shells, in the order they are listed.
pub fn shells() -> (r: Vec<&'static str>)
    ensures
        forall|i: int| 0 <= i < r@.len() ==> shell_name(#[trigger] r@[i]@),
        forall|s: Seq<char>| shell_name(s) ==> exists|i: int| 0 <= i < r@.len() && #[trigger] r@[i]@ == s,
{
    let r = vec!["sh", "bash", "zsh", "fish", "dash", "ksh", "csh", "tcsh"];
    assert forall|s: Seq<char>| shell_name(s) implies exists|i: int| 0 <= i < r@.len() && #[trigger] r@[i]@ == s by {
        if s == "sh"@ { assert(r@[0]@ == s); }
        else if s == "bash"@ { assert(r@[1]@ == s); }
        else if s == "zsh"@ { assert(r@[2]@ == s); }
        else if s == "fish"@ { assert(r@[3]@ == s); }
        else if s == "dash"@ { assert(r@[4]@ == s); }
        else if s == "ksh"@ { assert(r@[5]@ == s); }
        else if s == "csh"@ { assert(r@[6]@ == s); }
        else { assert(r@[7]@ == s); }
    }
    r
}

/// The always-allowed utilities, in the order they are listed.
pub fn always_allowed() -> (r: Vec<&'static str>)
    ensures
        forall|i: int| 0 <= i < r@.len() ==> always_allowed_name(#[trigger] r@[i]@),
        forall|s: Seq<char>| always_allowed_name(s) ==> exists|i: int| 0 <= i < r@.len() && #[trigger] r@[i]@ == s,
{
    let r = vec![
        "cat", "cd", "cut", "echo", "expr", "false", "grep", "head", "id", "ls", "nl", "paste",
        "pwd", "rev", "seq", "stat", "tail", "tr", "true", "uname", "wc", "which", "whoami",
    ];
    assert forall|s: Seq<char>| always_allowed_name(s) implies exists|i: int| 0 <= i < r@.len() && #[trigger] r@[i]@ == s by {
        if s == "cat"@ { assert(r@[0]@ == s); }
        else if s == "cd"@ { assert(r@[1]@ == s); }
        else if s == "cut"@ { assert(r@[2]@ == s); }
        else if s == "echo"@ { assert(r@[3]@ == s); }
        else if s == "expr"@ { assert(r@[4]@ == s); }
        else if s == "false"@ { assert(r@[5]@ == s); }
        else if s == "grep"@ { assert(r@[6]@ == s); }
        else if s == "head"@ { assert(r@[7]@ == s); }
        else if s == "id"@ { assert(r@[8]@ == s); }
        else if s == "ls"@ { assert(r@[9]@ == s); }
        else if s == "nl"@ { assert(r@[10]@ == s); }
        else if s == "paste"@ { assert(r@[11]@ == s); }
        else if s == "pwd"@ { assert(r@[12]@ == s); }
        else if s == "rev"@ { assert(r@[13]@ == s); }
        else if s == "seq"@ { assert(r@[14]@ == s); }
        else if s == "stat"@ { assert(r@[15]@ == s); }
        else if s == "tail"@ { assert(r@[16]@ == s); }
        else if s == "tr"@ { assert(r@[17]@ == s); }
        else if s == "true"@ { assert(r@[18]@ == s); }
        else if s == "uname"@ { assert(r@[19]@ == s); }
        else if s == "wc"@ { assert(r@[20]@ == s); }
        else if s == "which"@ { assert(r@[21]@ == s); }
        else { assert(r@[22]@ == s); }
    }
    r
}

/// A short-option cluster holding `r` or `R` (e.g. `-rf`, `-Rv`).
pub open spec fn recursive_short(a: Seq<char>) -> bool {
    a.len() >= 2 && a[0] == '-' && !"--"@.is_prefix_of(a) && (a.subrange(1, a.len() as int).contains('r')
        || a.subrange(1, a.len() as int).contains('R'))
}

pub open spec fn any_recursive_short(t: Seq<Seq<char>>) -> bool {
    exists|j: int| 0 <= j < t.len() && recursive_short(#[trigger] t[j])
}

/// Options of `uniq` that take the next token as their value.
pub open spec fn uniq_value_option(a: Seq<char>) -> bool {
    a == "-f"@ || a == "-s"@ || a == "-w"@ || a == "--skip-fields"@ || a == "--skip-chars"@ || a
        == "--check-chars"@
}

/// The number of operands of `uniq` from token `i` on.
pub open spec fn uniq_operands(t: Seq<Seq<char>>, i: int) -> int
    decreases t.len() + 1 - i,
{
    if i < 0 || i >= t.len() {
        0
    } else if t[i] == "--"@ {
        t.len() - (i + 1)
    } else if t[i].len() > 1 && t[i][0] == '-' {
        if uniq_value_option(t[i]) {
            uniq_operands(t, i + 2)
        } else {
            uniq_operands(t, i + 1)
        }
    } else {
        1 + uniq_operands(t, i + 1)
    }
}

/// `^(\d+,)?\d+p$`: the read-only line selection of `sed -n`.
pub open spec fn sed_n_arg(s: Seq<char>) -> bool {
    s.len() > 0 && s.last() == 'p' && {
        let core = s.drop_last();
        match find_first(core, ',') {
            None => all_digits(core),
            Some(p) => 0 <= p < core.len() && all_digits(core.subrange(0, p)) && all_digits(
                core.subrange(p + 1, core.len() as int),
            ),
        }
    }
}

/// An argument of `date` that only selects how the date is printed.
pub open spec fn safe_date_arg(a: Seq<char>) -> bool {
    ||| "+"@.is_prefix_of(a)
    ||| a == "-u"@ ||| a == "--utc"@ ||| a == "--universal"@ ||| a == "-R"@
    ||| a == "--rfc-email"@ ||| a == "-I"@ ||| a == "--iso-8601"@
    ||| ("-I"@.is_prefix_of(a) && {
        let rest = a.subrange(2, a.len() as int);
        rest == "date"@ || rest == "hours"@ || rest == "minutes"@ || rest == "seconds"@ || rest == "ns"@
    })
    ||| "--iso-8601="@.is_prefix_of(a)
}

/// An argument of `base64` that names an output file.
pub open spec fn base64_output_arg(a: Seq<char>) -> bool {
    a == "-o"@ || a == "--output"@ || "--output="@.is_prefix_of(a) || ("-o"@.is_prefix_of(a) && a
        != "-o"@)
}

/// `find` options that execute commands or delete files.
pub open spec fn find_dangerous(t: Seq<Seq<char>>) -> bool {
    any_eq(t, 0, "-exec"@) || any_eq(t, 0, "-execdir"@) || any_eq(t, 0, "-ok"@) || any_eq(t, 0, "-okdir"@)
        || any_eq(t, 0, "-delete"@)
}

/// `find` options that write path names to a file.
pub open spec fn find_writes(t: Seq<Seq<char>>) -> bool {
    any_eq(t, 0, "-fls"@) || any_eq(t, 0, "-fprint"@) || any_eq(t, 0, "-fprint0"@) || any_eq(t, 0, "-fprintf"@)
}

/// The verdict on an argv whose first word resolves to `name`.
pub open spec fn unix_named(t: Seq<Seq<char>>, name: Seq<char>, linux: bool) -> ArgvDecision {
    if name == "su"@ || name == "passwd"@ || name == "ssh-add"@ {
        ArgvDecision::NotExecutable
    } else if name == "gpg"@ && (any_eq(t, 0, "--gen-key"@) || any_eq(t, 0, "--full-generate-key"@)) {
        ArgvDecision::NotExecutable
    } else if name == "pkexec"@ || name == "osascript"@ {
        ArgvDecision::AskNoPersist
    } else if (name == "rm"@ || name == "chmod"@ || name == "chown"@) && (any_recursive_short(t)
        || any_eq(t, 0, "--recursive"@)) {
        ArgvDecision::AskNoPersist
    } else if name == "kill"@ && any_eq(t, 0, "-1"@) {
        ArgvDecision::AskNoPersist
    } else if name == "dd"@ && any_prefix(t, 0, "of="@) {
        ArgvDecision::AskNoPersist
    } else if name == "mkfs"@ || "mkfs."@.is_prefix_of(name) {
        ArgvDecision::AskNoPersist
    } else if shell_name(name) {
        ArgvDecision::AskNoPersist
    } else if linux && (name == "numfmt"@ || name == "tac"@) {
        ArgvDecision::Allow
    } else if always_allowed_name(name) {
        ArgvDecision::Allow
    } else if name == "date"@ && (forall|j: int| 1 <= j < t.len() ==> safe_date_arg(#[trigger] t[j])) {
        ArgvDecision::Allow
    } else if name == "base64"@ {
        if exists|j: int| 1 <= j < t.len() && base64_output_arg(#[trigger] t[j]) {
            ArgvDecision::Unknown
        } else {
            ArgvDecision::Allow
        }
    } else if name == "uniq"@ {
        if uniq_operands(t, 1) >= 2 {
            ArgvDecision::Unknown
        } else {
            ArgvDecision::Allow
        }
    } else if name == "find"@ {
        if find_dangerous(t) {
            ArgvDecision::AskNoPersist
        } else if find_writes(t) {
            ArgvDecision::Unknown
        } else {
            ArgvDecision::Allow
        }
    } else if name == "rg"@ {
        ripgrep_decision(t)
    } else if name == "sed"@ && t.len() <= 4 && t.len() > 2 && t[1] == "-n"@ && sed_n_arg(t[2]) {
        ArgvDecision::Allow
    } else {
        ArgvDecision::Unknown
    }
}

/// The verdict on an argv under Unix.
pub open spec fn unix_decision(t: Seq<Seq<char>>, linux: bool) -> Result<ArgvDecision, PermissionError> {
    if t.len() == 0 || t[0].len() == 0 {
        Err(PermissionError::EmptyCommand)
    } else if exists|j: int| 0 <= j < t.len() && unix_file_name(#[trigger] t[j]) == Some("sudo"@) {
        Ok(ArgvDecision::NotExecutable)
    } else {
        match unix_file_name(t[0]) {
            None => Ok(ArgvDecision::Unknown),
            Some(name) => Ok(unix_named(t, name, linux)),
        }
    }
}

/// Privilege-escalation tools are never allowed for good: an argv with no
/// `sudo` word whose program is `pkexec` or `osascript` (by file name) is
/// asked about every time, whatever its arguments.
pub proof fn escalation_is_asked_every_time(t: Seq<Seq<char>>, linux: bool)
    requires
        t.len() > 0,
        t[0].len() > 0,
        forall|j: int| 0 <= j < t.len() ==> unix_file_name(#[trigger] t[j]) != Some("sudo"@),
        unix_file_name(t[0]) == Some("pkexec"@) || unix_file_name(t[0]) == Some("osascript"@),
    ensures
        unix_decision(t, linux) == Ok::<ArgvDecision, PermissionError>(ArgvDecision::AskNoPersist),
{
    reveal_strlit("pkexec");
    reveal_strlit("osascript");
    reveal_strlit("su");
    reveal_strlit("passwd");
    reveal_strlit("ssh-add");
    reveal_strlit("gpg");
    let name = unix_file_name(t[0])->0;
    assert(name.len() == 6 || name.len() == 9);
    assert(name != "su"@ && name != "passwd"@ && name != "ssh-add"@ && name != "gpg"@) by {
        if name.len() == 6 {
            assert(name[0] == 'p');
            assert("passwd"@[1] == 'a');
            assert(name[1] == 'k');
        }
    }
    assert(unix_named(t, name, linux) == ArgvDecision::AskNoPersist);
}

/// Any argv with a `sudo` word anywhere is not run.
pub proof fn sudo_anywhere_is_not_executable(t: Seq<Seq<char>>, linux: bool, j: int)
    requires
        t.len() > 0,
        t[0].len() > 0,
        0 <= j < t.len(),
        unix_file_name(t[j]) == Some("sudo"@),
    ensures
        unix_decision(t, linux) == Ok::<ArgvDecision, PermissionError>(ArgvDecision::NotExecutable),
{
}

/// `su`, `passwd` and `ssh-add` want a password typed in: they are never run
/// on the model's behalf.
pub proof fn password_prompts_are_not_executable(t: Seq<Seq<char>>, linux: bool)
    requires
        t.len() > 0,
        t[0].len() > 0,
        unix_file_name(t[0]) == Some("su"@) || unix_file_name(t[0]) == Some("passwd"@)
            || unix_file_name(t[0]) == Some("ssh-add"@),
    ensures
        unix_decision(t, linux) == Ok::<ArgvDecision, PermissionError>(ArgvDecision::NotExecutable),
{
}

/// Starting a shell runs anything: it is asked about every time.
pub proof fn shells_are_asked_every_time(t: Seq<Seq<char>>, linux: bool)
    requires
        t.len() > 0,
        t[0].len() > 0,
        forall|j: int| 0 <= j < t.len() ==> unix_file_name(#[trigger] t[j]) != Some("sudo"@),
        unix_file_name(t[0]) matches Some(n) && (n == "sh"@ || n == "bash"@ || n == "zsh"@ || n == "fish"@
            || n == "dash"@ || n == "ksh"@ || n == "csh"@ || n == "tcsh"@),
    ensures
        unix_decision(t, linux) == Ok::<ArgvDecision, PermissionError>(ArgvDecision::AskNoPersist),
{
    reveal_strlit("sh");
    reveal_strlit("bash");
    reveal_strlit("zsh");
    reveal_strlit("fish");
    reveal_strlit("dash");
    reveal_strlit("ksh");
    reveal_strlit("csh");
    reveal_strlit("tcsh");
    reveal_strlit("su");
    reveal_strlit("passwd");
    reveal_strlit("ssh-add");
    reveal_strlit("gpg");
    reveal_strlit("pkexec");
    reveal_strlit("osascript");
    reveal_strlit("rm");
    reveal_strlit("chmod");
    reveal_strlit("chown");
    reveal_strlit("kill");
    reveal_strlit("dd");
    reveal_strlit("mkfs");
    reveal_strlit("mkfs.");
    let n = unix_file_name(t[0])->0;
    assert(n.len() == 2 || n.len() == 3 || n.len() == 4);
    assert(!("mkfs."@.is_prefix_of(n)));
    if n.len() == 2 {
        assert(n[0] == 's');
        assert(n != "su"@ && n != "rm"@ && n != "dd"@) by {
            assert(n[1] == 'h');
        }
    } else if n.len() == 3 {
        assert(n[1] == 's');
        assert(n != "gpg"@);
    } else {
        assert(n != "kill"@ && n != "mkfs"@) by {
            assert(n[0] == 'b' || n[0] == 'f' || n[0] == 'd' || n[0] == 't');
        }
    }
    assert(unix_named(t, n, linux) == ArgvDecision::AskNoPersist);
}

/// Removing, or changing modes or owners, recursively is asked about every
/// time.
pub proof fn recursive_changes_are_asked_every_time(t: Seq<Seq<char>>, linux: bool)
    requires
        t.len() > 0,
        t[0].len() > 0,
        forall|j: int| 0 <= j < t.len() ==> unix_file_name(#[trigger] t[j]) != Some("sudo"@),
        unix_file_name(t[0]) matches Some(n) && (n == "rm"@ || n == "chmod"@ || n == "chown"@),
        (exists|j: int| 0 <= j < t.len() && #[trigger] t[j] == "--recursive"@) || (exists|j: int, k: int|
            0 <= j < t.len() && 1 <= k < t[j].len() && t[j][0] == '-' && t[j][1] != '-'
            && (#[trigger] t[j][k] == 'r' || t[j][k] == 'R')),
    ensures
        unix_decision(t, linux) == Ok::<ArgvDecision, PermissionError>(ArgvDecision::AskNoPersist),
{
    reveal_strlit("su");
    reveal_strlit("passwd");
    reveal_strlit("ssh-add");
    reveal_strlit("gpg");
    reveal_strlit("pkexec");
    reveal_strlit("osascript");
    reveal_strlit("rm");
    reveal_strlit("chmod");
    reveal_strlit("chown");
    let n = unix_file_name(t[0])->0;
    assert(n != "su"@ && n != "passwd"@ && n != "ssh-add"@ && n != "gpg"@ && n != "pkexec"@ && n != "osascript"@) by {
        assert(n.len() == 2 || n.len() == 5);
        assert(n[0] == 'r' || n[0] == 'c');
    }
    reveal_strlit("--");
    if exists|j: int| 0 <= j < t.len() && #[trigger] t[j] == "--recursive"@ {
        assert(any_eq(t, 0, "--recursive"@));
    } else {
        let (j, k) = choose|j: int, k: int| 0 <= j < t.len() && 1 <= k < t[j].len() && t[j][0] == '-'
            && t[j][1] != '-' && (#[trigger] t[j][k] == 'r' || t[j][k] == 'R');
        let a = t[j];
        assert(!"--"@.is_prefix_of(a)) by {
            if "--"@.is_prefix_of(a) {
                assert(a[1] == "--"@[1]);
            }
        }
        let tail = a.subrange(1, a.len() as int);
        assert(tail[k - 1] == a[k]);
        assert(tail.contains('r') || tail.contains('R'));
        assert(recursive_short(t[j]));
        assert(any_recursive_short(t));
    }
    assert(unix_named(t, n, linux) == ArgvDecision::AskNoPersist);
}

fn any_sudo(command: &[String]) -> (r: bool)
    ensures
        r == exists|j: int| 0 <= j < command@.len() && unix_file_name(#[trigger] tokens(command)[j]) == Some("sudo"@),
{
    let ghost t = tokens(command);
    let n = command.len();
    let mut j: usize = 0;
    while j < n
        invariant
            t == tokens(command),
            n == command@.len(),
            j <= n,
            forall|k: int| 0 <= k < j ==> unix_file_name(#[trigger] t[k]) != Some("sudo"@),
        decreases n - j,
    {
        assert(t[j as int] == command@[j as int]@);
        match unix_name(command[j].as_str()) {
            Some(v) => {
                if chars_eq(v.as_slice(), "sudo") {
                    return true;
                }
            },
            None => {},
        }
        j = j + 1;
    }
    false
}

/// Whether some argument is a short-option cluster holding `r` or `R`.
pub fn has_recursive_short_flag(argv: &[String]) -> (r: bool)
    ensures
        r == any_recursive_short(tokens(argv)),
{
    let ghost t = tokens(argv);
    let n = argv.len();
    let mut j: usize = 0;
    while j < n
        invariant
            t == tokens(argv),
            n == argv@.len(),
            j <= n,
            forall|k: int| 0 <= k < j ==> !recursive_short(#[trigger] t[k]),
        decreases n - j,
    {
        let a: &str = argv[j].as_str();
        assert(t[j as int] == a@);
        let m = a.unicode_len();
        if m >= 2 && a.get_char(0) == '-' && !starts_with(a, "--") {
            let rest = a.substring_char(1, m);
            if contains_char(rest, 'r') || contains_char(rest, 'R') {
                return true;
            }
        }
        j = j + 1;
    }
    false
}

fn is_uniq_value_option(a: &str) -> (r: bool)
    ensures
        r == uniq_value_option(a@),
{
    str_eq(a, "-f") || str_eq(a, "-s") || str_eq(a, "-w") || str_eq(a, "--skip-fields") || str_eq(
        a,
        "--skip-chars",
    ) || str_eq(a, "--check-chars")
}

/// Whether `uniq` is given a second operand, which names its output file.
pub fn uniq_has_output_operand(command: &[String]) -> (r: bool)
    ensures
        r == (uniq_operands(tokens(command), 1) >= 2),
{
    let ghost t = tokens(command);
    let n = command.len();
    let mut operands: usize = 0;
    let mut i: usize = 1;
    while i < n
        invariant
            t == tokens(command),
            n == command@.len(),
            1 <= i,
            operands <= i,
            operands + uniq_operands(t, i as int) == uniq_operands(t, 1),
        decreases n - i,
    {
        let arg: &str = command[i].as_str();
        assert(t[i as int] == arg@);
        if str_eq(arg, "--") {
            operands = operands + (n - (i + 1));
            return operands >= 2;
        }
        if arg.unicode_len() > 1 && arg.get_char(0) == '-' {
            if is_uniq_value_option(arg) {
                let ghost old_i = i as int;
                i = i + 1;
                if i < n {
                    i = i + 1;
                } else {
                    assert(uniq_operands(t, old_i + 2) == 0);
                    assert(uniq_operands(t, i as int) == 0);
                }
            } else {
                i = i + 1;
            }
        } else {
            operands = operands + 1;
            i = i + 1;
        }
    }
    operands >= 2
}

/// Whether `arg` is `N p` or `M,N p` with decimal numbers, e.g. `1,5p`.
pub fn is_valid_sed_n_arg(arg: Option<&str>) -> (r: bool)
    ensures
        r == match arg {
            Some(s) => sed_n_arg(s@),
            None => false,
        },
{
    let s = match arg {
        Some(s) => s,
        None => {
            return false;
        },
    };
    let n = s.unicode_len();
    if n == 0 || s.get_char(n - 1) != 'p' {
        return false;
    }
    let core = s.substring_char(0, n - 1);
    assert(core@ == s@.drop_last());
    match find_char(core, ',') {
        None => is_all_digits(core),
        Some(p) => {
            proof {
                lemma_find_first(core@, ',');
            }
            is_all_digits(core.substring_char(0, p)) && is_all_digits(core.substring_char(p + 1, n - 1))
        },
    }
}

fn is_safe_date_arg(a: &str) -> (r: bool)
    ensures
        r == safe_date_arg(a@),
{
    if starts_with(a, "+") || str_eq(a, "-u") || str_eq(a, "--utc") || str_eq(a, "--universal") || str_eq(
        a,
        "-R",
    ) || str_eq(a, "--rfc-email") || str_eq(a, "-I") || str_eq(a, "--iso-8601") {
        return true;
    }
    if starts_with(a, "-I") {
        proof {
            reveal_strlit("-I");
        }
        let rest = a.substring_char(2, a.unicode_len());
        if str_eq(rest, "date") || str_eq(rest, "hours") || str_eq(rest, "minutes") || str_eq(
            rest,
            "seconds",
        ) || str_eq(rest, "ns") {
            return true;
        }
    }
    starts_with(a, "--iso-8601=")
}

/// Whether every argument of `date` only selects how the date is printed.
pub fn is_safe_date_argv(command: &[String]) -> (r: bool)
    ensures
        r == forall|j: int| 1 <= j < command@.len() ==> safe_date_arg(#[trigger] tokens(command)[j]),
{
    let ghost t = tokens(command);
    let n = command.len();
    let mut j: usize = 1;
    while j < n
        invariant
            t == tokens(command),
            n == command@.len(),
            1 <= j,
            forall|k: int| 1 <= k < j && k < n ==> safe_date_arg(#[trigger] t[k]),
        decreases n - j,
    {
        assert(t[j as int] == command@[j as int]@);
        if !is_safe_date_arg(command[j].as_str()) {
            return false;
        }
        j = j + 1;
    }
    true
}

fn is_base64_output_arg(a: &str) -> (r: bool)
    ensures
        r == base64_output_arg(a@),
{
    str_eq(a, "-o") || str_eq(a, "--output") || starts_with(a, "--output=") || (starts_with(a, "-o")
        && !str_eq(a, "-o"))
}

fn base64_writes(command: &[String]) -> (r: bool)
    ensures
        r == exists|j: int| 1 <= j < command@.len() && base64_output_arg(#[trigger] tokens(command)[j]),
{
    let ghost t = tokens(command);
    let n = command.len();
    let mut j: usize = 1;
    while j < n
        invariant
            t == tokens(command),
            n == command@.len(),
            1 <= j,
            forall|k: int| 1 <= k < j && k < n ==> !base64_output_arg(#[trigger] t[k]),
        decreases n - j,
    {
        assert(t[j as int] == command@[j as int]@);
        if is_base64_output_arg(command[j].as_str()) {
            return true;
        }
        j = j + 1;
    }
    false
}

fn is_shell_name(v: &[char]) -> (r: bool)
    ensures
        r == shell_name(v@),
{
    chars_eq(v, "sh") || chars_eq(v, "bash") || chars_eq(v, "zsh") || chars_eq(v, "fish")
        || chars_eq(v, "dash") || chars_eq(v, "ksh") || chars_eq(v, "csh") || chars_eq(v, "tcsh")
}

fn is_always_allowed(v: &[char]) -> (r: bool)
    ensures
        r == always_allowed_name(v@),
{
    chars_eq(v, "cat") || chars_eq(v, "cd") || chars_eq(v, "cut") || chars_eq(v, "echo")
        || chars_eq(v, "expr") || chars_eq(v, "false") || chars_eq(v, "grep") || chars_eq(v, "head")
        || chars_eq(v, "id") || chars_eq(v, "ls") || chars_eq(v, "nl") || chars_eq(v, "paste")
        || chars_eq(v, "pwd") || chars_eq(v, "rev") || chars_eq(v, "seq") || chars_eq(v, "stat")
        || chars_eq(v, "tail") || chars_eq(v, "tr") || chars_eq(v, "true") || chars_eq(v, "uname")
        || chars_eq(v, "wc") || chars_eq(v, "which") || chars_eq(v, "whoami")
}

fn named_decision(command: &[String], name: &[char], flavor: UnixFlavor) -> (r: ArgvDecision)
    ensures
        r == unix_named(tokens(command), name@, flavor == UnixFlavor::Linux),
{
    let ghost t = tokens(command);
    if chars_eq(name, "su") || chars_eq(name, "passwd") || chars_eq(name, "ssh-add") {
        ArgvDecision::NotExecutable
    } else if chars_eq(name, "gpg") && (any_arg_eq(command, 0, "--gen-key") || any_arg_eq(
        command,
        0,
        "--full-generate-key",
    )) {
        ArgvDecision::NotExecutable
    } else if chars_eq(name, "pkexec") || chars_eq(name, "osascript") {
        ArgvDecision::AskNoPersist
    } else if (chars_eq(name, "rm") || chars_eq(name, "chmod") || chars_eq(name, "chown")) && (
    has_recursive_short_flag(command) || any_arg_eq(command, 0, "--recursive")) {
        ArgvDecision::AskNoPersist
    } else if chars_eq(name, "kill") && any_arg_eq(command, 0, "-1") {
        ArgvDecision::AskNoPersist
    } else if chars_eq(name, "dd") && any_arg_prefix(command, 0, "of=") {
        ArgvDecision::AskNoPersist
    } else if chars_eq(name, "mkfs") || chars_start_with(name, "mkfs.") {
        ArgvDecision::AskNoPersist
    } else if is_shell_name(name) {
        ArgvDecision::AskNoPersist
    } else if matches!(flavor, UnixFlavor::Linux) && (chars_eq(name, "numfmt") || chars_eq(name, "tac")) {
        ArgvDecision::Allow
    } else if is_always_allowed(name) {
        ArgvDecision::Allow
    } else if chars_eq(name, "date") && is_safe_date_argv(command) {
        ArgvDecision::Allow
    } else if chars_eq(name, "base64") {
        if base64_writes(command) {
            ArgvDecision::Unknown
        } else {
            ArgvDecision::Allow
        }
    } else if chars_eq(name, "uniq") {
        if uniq_has_output_operand(command) {
            ArgvDecision::Unknown
        } else {
            ArgvDecision::Allow
        }
    } else if chars_eq(name, "find") {
        if any_arg_eq(command, 0, "-exec") || any_arg_eq(command, 0, "-execdir") || any_arg_eq(
            command,
            0,
            "-ok",
        ) || any_arg_eq(command, 0, "-okdir") || any_arg_eq(command, 0, "-delete") {
            ArgvDecision::AskNoPersist
        } else if any_arg_eq(command, 0, "-fls") || any_arg_eq(command, 0, "-fprint") || any_arg_eq(
            command,
            0,
            "-fprint0",
        ) || any_arg_eq(command, 0, "-fprintf") {
            ArgvDecision::Unknown
        } else {
            ArgvDecision::Allow
        }
    } else if chars_eq(name, "rg") {
        ripgrep_check(command)
    } else if chars_eq(name, "sed") && command.len() <= 4 && command.len() > 2 && {
        assert(t[1] == command@[1]@);
        str_eq(command[1].as_str(), "-n")
    } && {
        assert(t[2] == command@[2]@);
        is_valid_sed_n_arg(Some(command[2].as_str()))
    } {
        ArgvDecision::Allow
    } else {
        ArgvDecision::Unknown
    }
}

/// Classifies one argv for a given Unix flavour.
pub fn safety_check_on(command: &[String], flavor: UnixFlavor) -> (r: Result<ArgvDecision, PermissionError>)
    ensures
        r == unix_decision(tokens(command), flavor == UnixFlavor::Linux),
{
    let ghost t = tokens(command);
    if command.len() == 0 {
        return Err(PermissionError::EmptyCommand);
    }
    assert(t[0] == command@[0]@);
    let cmd0: &str = command[0].as_str();
    if cmd0.unicode_len() == 0 {
        return Err(PermissionError::EmptyCommand);
    }
    if any_sudo(command) {
        return Ok(ArgvDecision::NotExecutable);
    }
    match unix_name(cmd0) {
        None => Ok(ArgvDecision::Unknown),
        Some(name) => Ok(named_decision(command, name.as_slice(), flavor)),
    }
}

/// Classifies one argv on Linux.
pub fn safety_check(command: &[String]) -> (r: Result<ArgvDecision, PermissionError>)
    ensures
        r == unix_decision(tokens(command), true),
{
    safety_check_on(command, UnixFlavor::Linux)
}

/// The name a command word is looked up under: its file name.
pub fn executable_name_lookup_key(raw: &str) -> (r: Option<Vec<char>>)
    ensures
        match unix_file_name(raw@) {
            Some(name) => r matches Some(v) && v@ == name,
            None => r is None,
        },
{
    unix_name(raw)
}

} // verus!
