//! Per-argv safety check for Windows (PowerShell) commands.
use vstd::prelude::*;
use vstd::string::*;
use crate::permission::entity::{ArgvDecision, PermissionError};
use crate::permission::names::{windows_file_name, windows_name};
use crate::permission::safety::{ripgrep_check, ripgrep_decision};
use crate::permission::transparent::{tokens, StripTransparentWrapperError};
use crate::text::{chars_contain, chars_eq, chars_start_with, has_infix, lower, lower_chars, ascii_lower};

verus! {

/// Commands refused outright: elevation, interactive prompts, and shells whose argv cannot be judged.
pub open spec fn not_executable_name(s: Seq<char>) -> bool {
    ||| s == "runas"@
    ||| s == "sudo"@
    ||| s == "gsudo"@
    ||| s == "timeout"@
    ||| s == "choice"@
    ||| s == "ssh-add"@
    ||| s == "mshta"@
    ||| s == "cmd"@
    ||| s == "bash"@
    ||| s == "wsl"@
}

/// Nested shells, launchers, code loading, URL handlers and destructive system operations.
pub open spec fn ask_no_persist_name(s: Seq<char>) -> bool {
    ||| s == "powershell"@
    ||| s == "pwsh"@
    ||| s == "start-process"@
    ||| s == "saps"@
    ||| s == "start"@
    ||| s == "invoke-item"@
    ||| s == "ii"@
    ||| s == "invoke-expression"@
    ||| s == "iex"@
    ||| s == "invoke-command"@
    ||| s == "icm"@
    ||| s == "start-job"@
    ||| s == "sajb"@
    ||| s == "add-type"@
    ||| s == "set-executionpolicy"@
    ||| s == "explorer"@
    ||| s == "chrome"@
    ||| s == "msedge"@
    ||| s == "firefox"@
    ||| s == "iexplore"@
    ||| s == "format-volume"@
    ||| s == "clear-disk"@
    ||| s == "diskpart"@
    ||| s == "shutdown"@
    ||| s == "stop-computer"@
    ||| s == "restart-computer"@
    ||| s == "set-date"@
    ||| s == "schtasks"@
    ||| s == "register-scheduledtask"@
    ||| s == "stop-process"@
    ||| s == "spps"@
    ||| s == "kill"@
    ||| s == "taskkill"@
}

/// Read-only cmdlets and utilities that are always allowed.
pub open spec fn always_allowed_name(s: Seq<char>) -> bool {
    ||| s == "echo"@
    ||| s == "write-output"@
    ||| s == "write-host"@
    ||| s == "dir"@
    ||| s == "ls"@
    ||| s == "gci"@
    ||| s == "get-childitem"@
    ||| s == "gi"@
    ||| s == "get-item"@
    ||| s == "cat"@
    ||| s == "type"@
    ||| s == "gc"@
    ||| s == "get-content"@
    ||| s == "select-string"@
    ||| s == "sls"@
    ||| s == "findstr"@
    ||| s == "measure-object"@
    ||| s == "measure"@
    ||| s == "get-location"@
    ||| s == "gl"@
    ||| s == "pwd"@
    ||| s == "cd"@
    ||| s == "set-location"@
    ||| s == "test-path"@
    ||| s == "tp"@
    ||| s == "resolve-path"@
    ||| s == "rvpa"@
    ||| s == "select-object"@
    ||| s == "select"@
    ||| s == "sort-object"@
    ||| s == "group-object"@
    ||| s == "compare-object"@
    ||| s == "format-list"@
    ||| s == "fl"@
    ||| s == "format-table"@
    ||| s == "ft"@
    ||| s == "format-wide"@
    ||| s == "fw"@
    ||| s == "out-string"@
    ||| s == "convertto-json"@
    ||| s == "convertfrom-json"@
    ||| s == "get-date"@
    ||| s == "start-sleep"@
    ||| s == "sleep"@
    ||| s == "get-process"@
    ||| s == "gps"@
    ||| s == "get-service"@
    ||| s == "gsv"@
    ||| s == "get-command"@
    ||| s == "gcm"@
    ||| s == "get-alias"@
    ||| s == "gal"@
    ||| s == "get-psdrive"@
    ||| s == "get-host"@
    ||| s == "whoami"@
    ||| s == "hostname"@
}

/// Commands that delete files; deletion should go through the trash instead.
pub open spec fn delete_name(s: Seq<char>) -> bool {
    ||| s == "remove-item"@ ||| s == "ri"@ ||| s == "rm"@ ||| s == "del"@ ||| s == "erase"@
    ||| s == "rd"@ ||| s == "rmdir"@
}

/// `reg` subcommands that change the registry (compared case-insensitively).
pub open spec fn reg_mutating(s: Seq<char>) -> bool {
    let l = lower(s);
    ||| l == "add"@ ||| l == "delete"@ ||| l == "import"@ ||| l == "copy"@ ||| l == "restore"@
    ||| l == "load"@ ||| l == "unload"@
}

/// `s` without its trailing dots and spaces, which Win32 ignores.
pub open spec fn trim_dots_spaces(s: Seq<char>) -> Seq<char>
    decreases s.len(),
{
    if s.len() > 0 && (s.last() == '.' || s.last() == ' ') {
        trim_dots_spaces(s.drop_last())
    } else {
        s
    }
}

/// `s` without an executable extension (`.exe`, `.cmd`, `.bat`, `.com`).
pub open spec fn strip_extension(s: Seq<char>) -> Seq<char> {
    if s.len() >= 4 && {
        let e = s.subrange(s.len() - 4, s.len() as int);
        e == ".exe"@ || e == ".cmd"@ || e == ".bat"@ || e == ".com"@
    } {
        s.subrange(0, s.len() - 4)
    } else {
        s
    }
}

/// The name a command word is looked up under: its file name without
/// trailing dots or spaces, lower-cased, without an executable extension.
pub open spec fn windows_key(raw: Seq<char>) -> Option<Seq<char>> {
    match windows_file_name(raw) {
        Some(n) => Some(strip_extension(lower(trim_dots_spaces(n)))),
        None => None,
    }
}

/// Elevation helpers.
pub open spec fn elevation(k: Option<Seq<char>>) -> bool {
    k == Some("runas"@) || k == Some("sudo"@) || k == Some("gsudo"@)
}

/// A token mentioning the `ShellExecute` COM route, in any case.
pub open spec fn shell_execute(a: Seq<char>) -> bool {
    has_infix(lower(a), "shellexecute"@) || has_infix(lower(a), "shell.application"@)
}

/// An elevation verb given to a launcher: `-Verb RunAs`, `-Verb: RunAs` or
/// `-Verb:RunAs`, in any case.
pub open spec fn runas_verb(t: Seq<Seq<char>>) -> bool {
    (exists|j: int| 0 <= j && j + 1 < t.len() && (lower(#[trigger] t[j]) == "-verb"@ || lower(t[j])
        == "-verb:"@) && lower(t[j + 1]) == "runas"@)
        || (exists|j: int| 0 <= j < t.len() && lower(#[trigger] t[j]) == "-verb:runas"@)
}

/// The verdict on an argv whose first word resolves to `name`.
pub open spec fn windows_named(t: Seq<Seq<char>>, name: Seq<char>) -> ArgvDecision {
    if not_executable_name(name) {
        ArgvDecision::NotExecutable
    } else if name == "rundll32"@ && (exists|j: int| 1 <= j < t.len()
        && "url.dll,fileprotocolhandler"@.is_prefix_of(lower(#[trigger] t[j]))) {
        ArgvDecision::NotExecutable
    } else if (name == "start-process"@ || name == "saps"@ || name == "start"@) && runas_verb(t) {
        ArgvDecision::NotExecutable
    } else if ask_no_persist_name(name) {
        ArgvDecision::AskNoPersist
    } else if delete_name(name) {
        ArgvDecision::NotExecutable
    } else if name == "reg"@ && t.len() > 1 && reg_mutating(t[1]) {
        ArgvDecision::AskNoPersist
    } else if name == "rg"@ {
        ripgrep_decision(t)
    } else if always_allowed_name(name) {
        ArgvDecision::Allow
    } else {
        ArgvDecision::Unknown
    }
}

/// The verdict on an argv under Windows.
pub open spec fn windows_decision(t: Seq<Seq<char>>) -> Result<ArgvDecision, PermissionError> {
    if t.len() == 0 || t[0].len() == 0 {
        Err(PermissionError::EmptyCommand)
    } else if exists|j: int| 0 <= j < t.len() && elevation(windows_key(#[trigger] t[j])) {
        Ok(ArgvDecision::NotExecutable)
    } else if exists|j: int| 0 <= j < t.len() && shell_execute(#[trigger] t[j]) {
        Ok(ArgvDecision::AskNoPersist)
    } else {
        match windows_key(t[0]) {
            None => Ok(ArgvDecision::Unknown),
            Some(name) => Ok(windows_named(t, name)),
        }
    }
}

/// An elevation tool (`runas`, `sudo`, `gsudo`) anywhere in an argv, by its
/// lookup name, means the command is never run.
pub proof fn elevation_anywhere_is_not_executable(t: Seq<Seq<char>>, j: int)
    requires
        t.len() > 0,
        t[0].len() > 0,
        0 <= j < t.len(),
        windows_key(t[j]) == Some("runas"@) || windows_key(t[j]) == Some("sudo"@) || windows_key(t[j]) == Some("gsudo"@),
    ensures
        windows_decision(t) == Ok::<ArgvDecision, PermissionError>(ArgvDecision::NotExecutable),
{
    assert(elevation(windows_key(t[j])));
}

fn is_not_executable_name(v: &[char]) -> (r: bool)
    ensures
        r == not_executable_name(v@),
{
    chars_eq(v, "runas") || chars_eq(v, "sudo") || chars_eq(v, "gsudo") || chars_eq(v, "timeout") || chars_eq(v, "choice") || chars_eq(v, "ssh-add") || chars_eq(v, "mshta") || chars_eq(v, "cmd") || chars_eq(v, "bash") || chars_eq(v, "wsl")
}

fn is_ask_no_persist_name(v: &[char]) -> (r: bool)
    ensures
        r == ask_no_persist_name(v@),
{
    chars_eq(v, "powershell") || chars_eq(v, "pwsh") || chars_eq(v, "start-process") || chars_eq(v, "saps") || chars_eq(v, "start") || chars_eq(v, "invoke-item") || chars_eq(v, "ii") || chars_eq(v, "invoke-expression") || chars_eq(v, "iex") || chars_eq(v, "invoke-command") || chars_eq(v, "icm") || chars_eq(v, "start-job") || chars_eq(v, "sajb") || chars_eq(v, "add-type") || chars_eq(v, "set-executionpolicy") || chars_eq(v, "explorer") || chars_eq(v, "chrome") || chars_eq(v, "msedge") || chars_eq(v, "firefox") || chars_eq(v, "iexplore") || chars_eq(v, "format-volume") || chars_eq(v, "clear-disk") || chars_eq(v, "diskpart") || chars_eq(v, "shutdown") || chars_eq(v, "stop-computer") || chars_eq(v, "restart-computer") || chars_eq(v, "set-date") || chars_eq(v, "schtasks") || chars_eq(v, "register-scheduledtask") || chars_eq(v, "stop-process") || chars_eq(v, "spps") || chars_eq(v, "kill") || chars_eq(v, "taskkill")
}

fn is_always_allowed_name(v: &[char]) -> (r: bool)
    ensures
        r == always_allowed_name(v@),
{
    chars_eq(v, "echo") || chars_eq(v, "write-output") || chars_eq(v, "write-host") || chars_eq(v, "dir") || chars_eq(v, "ls") || chars_eq(v, "gci") || chars_eq(v, "get-childitem") || chars_eq(v, "gi") || chars_eq(v, "get-item") || chars_eq(v, "cat") || chars_eq(v, "type") || chars_eq(v, "gc") || chars_eq(v, "get-content") || chars_eq(v, "select-string") || chars_eq(v, "sls") || chars_eq(v, "findstr") || chars_eq(v, "measure-object") || chars_eq(v, "measure") || chars_eq(v, "get-location") || chars_eq(v, "gl") || chars_eq(v, "pwd") || chars_eq(v, "cd") || chars_eq(v, "set-location") || chars_eq(v, "test-path") || chars_eq(v, "tp") || chars_eq(v, "resolve-path") || chars_eq(v, "rvpa") || chars_eq(v, "select-object") || chars_eq(v, "select") || chars_eq(v, "sort-object") || chars_eq(v, "group-object") || chars_eq(v, "compare-object") || chars_eq(v, "format-list") || chars_eq(v, "fl") || chars_eq(v, "format-table") || chars_eq(v, "ft") || chars_eq(v, "format-wide") || chars_eq(v, "fw") || chars_eq(v, "out-string") || chars_eq(v, "convertto-json") || chars_eq(v, "convertfrom-json") || chars_eq(v, "get-date") || chars_eq(v, "start-sleep") || chars_eq(v, "sleep") || chars_eq(v, "get-process") || chars_eq(v, "gps") || chars_eq(v, "get-service") || chars_eq(v, "gsv") || chars_eq(v, "get-command") || chars_eq(v, "gcm") || chars_eq(v, "get-alias") || chars_eq(v, "gal") || chars_eq(v, "get-psdrive") || chars_eq(v, "get-host") || chars_eq(v, "whoami") || chars_eq(v, "hostname")
}

/// The commands refused outright, in the order they are listed.
pub fn not_executable() -> (r: Vec<&'static str>)
    ensures
        forall|i: int| 0 <= i < r@.len() ==> not_executable_name(#[trigger] r@[i]@),
        forall|s: Seq<char>| not_executable_name(s) ==> exists|i: int| 0 <= i < r@.len() && #[trigger] r@[i]@ == s,
{
    let r = vec!["runas", "sudo", "gsudo", "timeout", "choice", "ssh-add", "mshta", "cmd", "bash", "wsl"];
    assert forall|s: Seq<char>| not_executable_name(s) implies exists|i: int| 0 <= i < r@.len() && #[trigger] r@[i]@ == s by {
        if s == "runas"@ { assert(r@[0]@ == s); }
        else if s == "sudo"@ { assert(r@[1]@ == s); }
        else if s == "gsudo"@ { assert(r@[2]@ == s); }
        else if s == "timeout"@ { assert(r@[3]@ == s); }
        else if s == "choice"@ { assert(r@[4]@ == s); }
        else if s == "ssh-add"@ { assert(r@[5]@ == s); }
        else if s == "mshta"@ { assert(r@[6]@ == s); }
        else if s == "cmd"@ { assert(r@[7]@ == s); }
        else if s == "bash"@ { assert(r@[8]@ == s); }
        else { assert(r@[9]@ == s); }
    }
    r
}

/// The commands asked about but never remembered, in the order they are listed.
pub fn ask_no_persist() -> (r: Vec<&'static str>)
    ensures
        forall|i: int| 0 <= i < r@.len() ==> ask_no_persist_name(#[trigger] r@[i]@),
        forall|s: Seq<char>| ask_no_persist_name(s) ==> exists|i: int| 0 <= i < r@.len() && #[trigger] r@[i]@ == s,
{
    let r = vec!["powershell", "pwsh", "start-process", "saps", "start", "invoke-item", "ii", "invoke-expression", "iex", "invoke-command", "icm", "start-job", "sajb", "add-type", "set-executionpolicy", "explorer", "chrome", "msedge", "firefox", "iexplore", "format-volume", "clear-disk", "diskpart", "shutdown", "stop-computer", "restart-computer", "set-date", "schtasks", "register-scheduledtask", "stop-process", "spps", "kill", "taskkill"];
    assert forall|s: Seq<char>| ask_no_persist_name(s) implies exists|i: int| 0 <= i < r@.len() && #[trigger] r@[i]@ == s by {
        if s == "powershell"@ { assert(r@[0]@ == s); }
        else if s == "pwsh"@ { assert(r@[1]@ == s); }
        else if s == "start-process"@ { assert(r@[2]@ == s); }
        else if s == "saps"@ { assert(r@[3]@ == s); }
        else if s == "start"@ { assert(r@[4]@ == s); }
        else if s == "invoke-item"@ { assert(r@[5]@ == s); }
        else if s == "ii"@ { assert(r@[6]@ == s); }
        else if s == "invoke-expression"@ { assert(r@[7]@ == s); }
        else if s == "iex"@ { assert(r@[8]@ == s); }
        else if s == "invoke-command"@ { assert(r@[9]@ == s); }
        else if s == "icm"@ { assert(r@[10]@ == s); }
        else if s == "start-job"@ { assert(r@[11]@ == s); }
        else if s == "sajb"@ { assert(r@[12]@ == s); }
        else if s == "add-type"@ { assert(r@[13]@ == s); }
        else if s == "set-executionpolicy"@ { assert(r@[14]@ == s); }
        else if s == "explorer"@ { assert(r@[15]@ == s); }
        else if s == "chrome"@ { assert(r@[16]@ == s); }
        else if s == "msedge"@ { assert(r@[17]@ == s); }
        else if s == "firefox"@ { assert(r@[18]@ == s); }
        else if s == "iexplore"@ { assert(r@[19]@ == s); }
        else if s == "format-volume"@ { assert(r@[20]@ == s); }
        else if s == "clear-disk"@ { assert(r@[21]@ == s); }
        else if s == "diskpart"@ { assert(r@[22]@ == s); }
        else if s == "shutdown"@ { assert(r@[23]@ == s); }
        else if s == "stop-computer"@ { assert(r@[24]@ == s); }
        else if s == "restart-computer"@ { assert(r@[25]@ == s); }
        else if s == "set-date"@ { assert(r@[26]@ == s); }
        else if s == "schtasks"@ { assert(r@[27]@ == s); }
        else if s == "register-scheduledtask"@ { assert(r@[28]@ == s); }
        else if s == "stop-process"@ { assert(r@[29]@ == s); }
        else if s == "spps"@ { assert(r@[30]@ == s); }
        else if s == "kill"@ { assert(r@[31]@ == s); }
        else { assert(r@[32]@ == s); }
    }
    r
}

/// The always-allowed commands, in the order they are listed.
pub fn always_allowed() -> (r: Vec<&'static str>)
    ensures
        forall|i: int| 0 <= i < r@.len() ==> always_allowed_name(#[trigger] r@[i]@),
        forall|s: Seq<char>| always_allowed_name(s) ==> exists|i: int| 0 <= i < r@.len() && #[trigger] r@[i]@ == s,
{
    let r = vec!["echo", "write-output", "write-host", "dir", "ls", "gci", "get-childitem", "gi", "get-item", "cat", "type", "gc", "get-content", "select-string", "sls", "findstr", "measure-object", "measure", "get-location", "gl", "pwd", "cd", "set-location", "test-path", "tp", "resolve-path", "rvpa", "select-object", "select", "sort-object", "group-object", "compare-object", "format-list", "fl", "format-table", "ft", "format-wide", "fw", "out-string", "convertto-json", "convertfrom-json", "get-date", "start-sleep", "sleep", "get-process", "gps", "get-service", "gsv", "get-command", "gcm", "get-alias", "gal", "get-psdrive", "get-host", "whoami", "hostname"];
    assert forall|s: Seq<char>| always_allowed_name(s) implies exists|i: int| 0 <= i < r@.len() && #[trigger] r@[i]@ == s by {
        if s == "echo"@ { assert(r@[0]@ == s); }
        else if s == "write-output"@ { assert(r@[1]@ == s); }
        else if s == "write-host"@ { assert(r@[2]@ == s); }
        else if s == "dir"@ { assert(r@[3]@ == s); }
        else if s == "ls"@ { assert(r@[4]@ == s); }
        else if s == "gci"@ { assert(r@[5]@ == s); }
        else if s == "get-childitem"@ { assert(r@[6]@ == s); }
        else if s == "gi"@ { assert(r@[7]@ == s); }
        else if s == "get-item"@ { assert(r@[8]@ == s); }
        else if s == "cat"@ { assert(r@[9]@ == s); }
        else if s == "type"@ { assert(r@[10]@ == s); }
        else if s == "gc"@ { assert(r@[11]@ == s); }
        else if s == "get-content"@ { assert(r@[12]@ == s); }
        else if s == "select-string"@ { assert(r@[13]@ == s); }
        else if s == "sls"@ { assert(r@[14]@ == s); }
        else if s == "findstr"@ { assert(r@[15]@ == s); }
        else if s == "measure-object"@ { assert(r@[16]@ == s); }
        else if s == "measure"@ { assert(r@[17]@ == s); }
        else if s == "get-location"@ { assert(r@[18]@ == s); }
        else if s == "gl"@ { assert(r@[19]@ == s); }
        else if s == "pwd"@ { assert(r@[20]@ == s); }
        else if s == "cd"@ { assert(r@[21]@ == s); }
        else if s == "set-location"@ { assert(r@[22]@ == s); }
        else if s == "test-path"@ { assert(r@[23]@ == s); }
        else if s == "tp"@ { assert(r@[24]@ == s); }
        else if s == "resolve-path"@ { assert(r@[25]@ == s); }
        else if s == "rvpa"@ { assert(r@[26]@ == s); }
        else if s == "select-object"@ { assert(r@[27]@ == s); }
        else if s == "select"@ { assert(r@[28]@ == s); }
        else if s == "sort-object"@ { assert(r@[29]@ == s); }
        else if s == "group-object"@ { assert(r@[30]@ == s); }
        else if s == "compare-object"@ { assert(r@[31]@ == s); }
        else if s == "format-list"@ { assert(r@[32]@ == s); }
        else if s == "fl"@ { assert(r@[33]@ == s); }
        else if s == "format-table"@ { assert(r@[34]@ == s); }
        else if s == "ft"@ { assert(r@[35]@ == s); }
        else if s == "format-wide"@ { assert(r@[36]@ == s); }
        else if s == "fw"@ { assert(r@[37]@ == s); }
        else if s == "out-string"@ { assert(r@[38]@ == s); }
        else if s == "convertto-json"@ { assert(r@[39]@ == s); }
        else if s == "convertfrom-json"@ { assert(r@[40]@ == s); }
        else if s == "get-date"@ { assert(r@[41]@ == s); }
        else if s == "start-sleep"@ { assert(r@[42]@ == s); }
        else if s == "sleep"@ { assert(r@[43]@ == s); }
        else if s == "get-process"@ { assert(r@[44]@ == s); }
        else if s == "gps"@ { assert(r@[45]@ == s); }
        else if s == "get-service"@ { assert(r@[46]@ == s); }
        else if s == "gsv"@ { assert(r@[47]@ == s); }
        else if s == "get-command"@ { assert(r@[48]@ == s); }
        else if s == "gcm"@ { assert(r@[49]@ == s); }
        else if s == "get-alias"@ { assert(r@[50]@ == s); }
        else if s == "gal"@ { assert(r@[51]@ == s); }
        else if s == "get-psdrive"@ { assert(r@[52]@ == s); }
        else if s == "get-host"@ { assert(r@[53]@ == s); }
        else if s == "whoami"@ { assert(r@[54]@ == s); }
        else { assert(r@[55]@ == s); }
    }
    r
}


/// The name a command word is looked up under.
pub fn executable_name_lookup_key(raw: &str) -> (r: Option<Vec<char>>)
    ensures
        match windows_key(raw@) {
            Some(k) => r matches Some(v) && v@ == k,
            None => r is None,
        },
{
    let name = match windows_name(raw) {
        Some(v) => v,
        None => {
            return None;
        },
    };
    let ghost nm = name@;
    let mut end = name.len();
    assert(nm.subrange(0, end as int) == nm);
    while end > 0 && (name[end - 1] == '.' || name[end - 1] == ' ')
        invariant
            name@ == nm,
            end <= nm.len(),
            trim_dots_spaces(nm) == trim_dots_spaces(nm.subrange(0, end as int)),
        decreases end,
    {
        assert(nm.subrange(0, end as int).drop_last() =~= nm.subrange(0, end - 1));
        end = end - 1;
    }
    let mut low: Vec<char> = Vec::new();
    let mut i: usize = 0;
    while i < end
        invariant
            name@ == nm,
            end <= nm.len(),
            i <= end,
            low@ == lower(nm.subrange(0, i as int)),
        decreases end - i,
    {
        low.push(ascii_lower(name[i]));
        i = i + 1;
        assert(lower(nm.subrange(0, i as int)) =~= lower(nm.subrange(0, i - 1)).push(
            crate::text::lower_char(nm[i - 1]),
        ));
    }
    assert(trim_dots_spaces(nm.subrange(0, end as int)) == nm.subrange(0, end as int));
    let m = low.len();
    if m >= 4 {
        let ext = vstd::slice::slice_subrange(low.as_slice(), m - 4, m);
        if chars_eq(ext, ".exe") || chars_eq(ext, ".cmd") || chars_eq(ext, ".bat") || chars_eq(ext, ".com") {
            return Some(vstd::slice::slice_to_vec(vstd::slice::slice_subrange(low.as_slice(), 0, m - 4)));
        }
    }
    Some(low)
}

fn key_is_elevation(raw: &str) -> (r: bool)
    ensures
        r == elevation(windows_key(raw@)),
{
    match executable_name_lookup_key(raw) {
        Some(k) => chars_eq(k.as_slice(), "runas") || chars_eq(k.as_slice(), "sudo") || chars_eq(k.as_slice(), "gsudo"),
        None => false,
    }
}

fn mentions_shell_execute(a: &str) -> (r: bool)
    ensures
        r == shell_execute(a@),
{
    let l = lower_chars(a);
    chars_contain(l.as_slice(), "shellexecute") || chars_contain(l.as_slice(), "shell.application")
}

fn lower_is(a: &str, lit: &str) -> (r: bool)
    ensures
        r == (lower(a@) == lit@),
{
    let l = lower_chars(a);
    chars_eq(l.as_slice(), lit)
}

fn has_runas_verb(command: &[String]) -> (r: bool)
    ensures
        r == runas_verb(tokens(command)),
{
    let ghost t = tokens(command);
    let n = command.len();
    let mut j: usize = 0;
    while n > 0 && j < n - 1
        invariant
            t == tokens(command),
            n == command@.len(),
            forall|k: int| 0 <= k < j && k + 1 < n ==> !((lower(#[trigger] t[k]) == "-verb"@ || lower(t[k]) == "-verb:"@) && lower(t[k + 1]) == "runas"@),
        decreases n - j,
    {
        assert(t[j as int] == command@[j as int]@);
        assert(t[j + 1] == command@[j + 1]@);
        let a: &str = command[j].as_str();
        if (lower_is(a, "-verb") || lower_is(a, "-verb:")) && lower_is(command[j + 1].as_str(), "runas") {
            return true;
        }
        j = j + 1;
    }
    let mut i: usize = 0;
    while i < n
        invariant
            t == tokens(command),
            n == command@.len(),
            forall|k: int| 0 <= k && k + 1 < n ==> !((lower(#[trigger] t[k]) == "-verb"@ || lower(t[k]) == "-verb:"@) && lower(t[k + 1]) == "runas"@),
            forall|k: int| 0 <= k < i && k < n ==> lower(#[trigger] t[k]) != "-verb:runas"@,
        decreases n - i,
    {
        assert(t[i as int] == command@[i as int]@);
        if lower_is(command[i].as_str(), "-verb:runas") {
            return true;
        }
        i = i + 1;
    }
    false
}

fn rundll32_url_handler(command: &[String]) -> (r: bool)
    ensures
        r == exists|j: int| 1 <= j < command@.len() && "url.dll,fileprotocolhandler"@.is_prefix_of(lower(#[trigger] tokens(command)[j])),
{
    let ghost t = tokens(command);
    let n = command.len();
    let mut j: usize = 1;
    while j < n
        invariant
            t == tokens(command),
            n == command@.len(),
            1 <= j,
            forall|k: int| 1 <= k < j && k < n ==> !"url.dll,fileprotocolhandler"@.is_prefix_of(lower(#[trigger] t[k])),
        decreases n - j,
    {
        assert(t[j as int] == command@[j as int]@);
        let l = lower_chars(command[j].as_str());
        if chars_start_with(l.as_slice(), "url.dll,fileprotocolhandler") {
            return true;
        }
        j = j + 1;
    }
    false
}

fn is_delete_name(v: &[char]) -> (r: bool)
    ensures
        r == delete_name(v@),
{
    chars_eq(v, "remove-item") || chars_eq(v, "ri") || chars_eq(v, "rm") || chars_eq(v, "del")
        || chars_eq(v, "erase") || chars_eq(v, "rd") || chars_eq(v, "rmdir")
}

fn is_reg_mutating(a: &str) -> (r: bool)
    ensures
        r == reg_mutating(a@),
{
    let l = lower_chars(a);
    chars_eq(l.as_slice(), "add") || chars_eq(l.as_slice(), "delete") || chars_eq(l.as_slice(), "import")
        || chars_eq(l.as_slice(), "copy") || chars_eq(l.as_slice(), "restore") || chars_eq(l.as_slice(), "load")
        || chars_eq(l.as_slice(), "unload")
}

fn named_decision(command: &[String], name: &[char]) -> (r: ArgvDecision)
    ensures
        r == windows_named(tokens(command), name@),
{
    let ghost t = tokens(command);
    if is_not_executable_name(name) {
        ArgvDecision::NotExecutable
    } else if chars_eq(name, "rundll32") && rundll32_url_handler(command) {
        ArgvDecision::NotExecutable
    } else if (chars_eq(name, "start-process") || chars_eq(name, "saps") || chars_eq(name, "start"))
        && has_runas_verb(command) {
        ArgvDecision::NotExecutable
    } else if is_ask_no_persist_name(name) {
        ArgvDecision::AskNoPersist
    } else if is_delete_name(name) {
        ArgvDecision::NotExecutable
    } else if chars_eq(name, "reg") && command.len() > 1 && {
        assert(t[1] == command@[1]@);
        is_reg_mutating(command[1].as_str())
    } {
        ArgvDecision::AskNoPersist
    } else if chars_eq(name, "rg") {
        ripgrep_check(command)
    } else if is_always_allowed_name(name) {
        ArgvDecision::Allow
    } else {
        ArgvDecision::Unknown
    }
}

/// Classifies one argv as Windows runs it.
pub fn safety_check(command: &[String]) -> (r: Result<ArgvDecision, PermissionError>)
    ensures
        r == windows_decision(tokens(command)),
{
    let ghost t = tokens(command);
    let n = command.len();
    if n == 0 {
        return Err(PermissionError::EmptyCommand);
    }
    assert(t[0] == command@[0]@);
    if command[0].as_str().unicode_len() == 0 {
        return Err(PermissionError::EmptyCommand);
    }
    let mut j: usize = 0;
    while j < n
        invariant
            t == tokens(command),
            n == command@.len(),
            j <= n,
            n > 0 && t[0].len() > 0,
            forall|k: int| 0 <= k < j ==> !elevation(windows_key(#[trigger] t[k])),
        decreases n - j,
    {
        assert(t[j as int] == command@[j as int]@);
        if key_is_elevation(command[j].as_str()) {
            assert(elevation(windows_key(t[j as int])));
            return Ok(ArgvDecision::NotExecutable);
        }
        j = j + 1;
    }
    let mut j: usize = 0;
    while j < n
        invariant
            t == tokens(command),
            n == command@.len(),
            j <= n,
            n > 0 && t[0].len() > 0,
            forall|k: int| 0 <= k < n ==> !elevation(windows_key(#[trigger] t[k])),
            forall|k: int| 0 <= k < j ==> !shell_execute(#[trigger] t[k]),
        decreases n - j,
    {
        assert(t[j as int] == command@[j as int]@);
        if mentions_shell_execute(command[j].as_str()) {
            assert(shell_execute(t[j as int]));
            return Ok(ArgvDecision::AskNoPersist);
        }
        j = j + 1;
    }
    match executable_name_lookup_key(command[0].as_str()) {
        None => Ok(ArgvDecision::Unknown),
        Some(name) => Ok(named_decision(command, name.as_slice())),
    }
}

/// PowerShell has no transparent wrapper: the argv is its own inner command.
pub fn strip_transparent_command(argv: &[String]) -> (r: Result<&[String], StripTransparentWrapperError>)
    ensures
        r matches Ok(inner) && inner@ == argv@,
{
    Ok(argv)
}

} // verus!
