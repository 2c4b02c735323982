use paloma_core::permission::entity::{ArgvDecision, PermissionError};
use paloma_core::permission::windows::{always_allowed, ask_no_persist, not_executable, safety_check};


fn argv(args: &[&str]) -> Vec<String> {
    args.iter().map(|s| s.to_string()).collect()
}

fn is_allow(args: &[&str]) -> bool {
    matches!(safety_check(&argv(args)), Ok(ArgvDecision::Allow))
}

fn is_unknown(args: &[&str]) -> bool {
    matches!(safety_check(&argv(args)), Ok(ArgvDecision::Unknown))
}

fn is_ask_no_persist(args: &[&str]) -> bool {
    matches!(safety_check(&argv(args)), Ok(ArgvDecision::AskNoPersist))
}

fn is_not_executable(args: &[&str]) -> bool {
    matches!(safety_check(&argv(args)), Ok(ArgvDecision::NotExecutable))
}

#[test]
fn windows_empty_argv_is_error() {
    assert!(matches!(
        safety_check(&argv(&[])),
        Err(PermissionError::EmptyCommand),
    ));
    assert!(matches!(
        safety_check(&argv(&[""])),
        Err(PermissionError::EmptyCommand),
    ));
}

#[test]
fn windows_always_allowed() {
    for cmd in always_allowed().iter() {
        assert!(is_allow(&[cmd]), "expected {cmd} to be Allow");
    }
    assert!(is_allow(&["Get-ChildItem", "-Recurse", "C:\\src"]));
    assert!(is_allow(&["Select-String", "error", "*.log"]));
}

#[test]
fn names_resolve_case_insensitively_with_path_and_extension() {
    assert!(is_allow(&["GET-CHILDITEM"]));
    assert!(is_allow(&["findstr.exe", "error", "x.log"]));
    assert!(is_allow(&["C:\\Windows\\System32\\FINDSTR.EXE", "error"]));
}

#[test]
fn not_executable_names() {
    for cmd in not_executable().iter() {
        assert!(
            is_not_executable(&[cmd]),
            "expected {cmd} to be NotExecutable"
        );
    }
    assert!(is_not_executable(&["timeout.exe", "/t", "5"]));
    assert!(is_not_executable(&["CMD", "/d", "/c", "del", "x"]));
    assert!(is_not_executable(&["C:\\Windows\\System32\\choice.exe"]));
}

#[test]
fn taskkill_is_ask_no_persist() {
    assert!(is_ask_no_persist(&[
        "taskkill",
        "/F",
        "/IM",
        "chrome.exe",
        "/T"
    ]));
    assert!(is_ask_no_persist(&["TASKKILL.EXE", "/PID", "1234"]));
    assert!(is_ask_no_persist(&[
        "C:\\Windows\\System32\\taskkill.exe",
        "/IM",
        "x.exe"
    ]));
}

#[test]
fn unix_shells_are_not_executable() {
    assert!(is_not_executable(&["bash", "-c", "ls"]));
    assert!(is_not_executable(&["bash", "script.sh"]));
    assert!(is_not_executable(&["BASH.EXE", "-c", "ls"]));
    assert!(is_not_executable(&[
        "C:\\Program Files\\Git\\bin\\bash.exe",
        "-lc",
        "ls"
    ]));
    assert!(is_not_executable(&["wsl", "-e", "bash"]));
    assert!(is_not_executable(&["wsl.exe", "--", "rm", "-rf", "/"]));
    assert!(is_not_executable(&["C:\\Windows\\System32\\wsl.exe", "ls"]));
}

#[test]
fn elevation_anywhere_is_hit() {
    assert!(is_not_executable(&["foo", "runas", "x"]));
    assert!(is_not_executable(&[
        "foo",
        "C:\\Windows\\System32\\runas.exe"
    ]));
    assert!(is_not_executable(&["foo", "gsudo.exe", "ls"]));
}

#[test]
fn trailing_dots_and_spaces_are_normalized() {
    // Win32 ignores trailing dots/spaces when resolving filenames, so
    // `cmd.exe.` really launches cmd
    assert!(is_not_executable(&["cmd.exe."]));
    assert!(is_not_executable(&["cmd.exe.."]));
    assert!(is_not_executable(&["cmd."]));
    assert!(is_not_executable(&["C:\\Windows\\System32\\cmd.exe."]));
    assert!(is_ask_no_persist(&["powershell.exe.", "-Command", "ls"]));
    assert!(is_not_executable(&["foo", "runas.exe."]));
}

#[test]
fn rundll32_trampoline() {
    assert!(is_not_executable(&[
        "rundll32",
        "url.dll,FileProtocolHandler",
        "https://evil.example"
    ]));
    assert!(is_not_executable(&[
        "rundll32.exe",
        "URL.DLL,FileProtocolHandler",
        "https://evil.example"
    ]));
    assert!(is_unknown(&["rundll32", "printui.dll,PrintUIEntry"]));
}

#[test]
fn start_process_runas_verb() {
    assert!(is_not_executable(&[
        "start-process",
        "cmd",
        "-Verb",
        "RunAs"
    ]));
    assert!(is_not_executable(&["Start-Process", "x", "-VERB", "runas"]));
    assert!(is_not_executable(&["saps", "x", "-verb", "RunAs"]));
    // Without the elevation verb it is a plain launcher: ask, never persist.
    assert!(is_ask_no_persist(&["start-process", "notepad"]));
    assert!(is_ask_no_persist(&["start-process", "x", "-Verb", "open"]));
}

#[test]
fn start_process_fused_runas_verb() {
    assert!(is_not_executable(&["start-process", "cmd", "-Verb:RunAs"]));
    assert!(is_not_executable(&["Start-Process", "x", "-VERB:runas"]));
    assert!(is_not_executable(&["saps", "x", "-verb:RunAs"]));
    assert!(is_not_executable(&["start", "x", "-Verb:runas"]));
    assert!(is_not_executable(&[
        "start-process",
        "x",
        "-Verb:",
        "RunAs"
    ]));
    assert!(is_ask_no_persist(&["start-process", "x", "-Verb:open"]));
}

#[test]
fn ask_no_persist_names() {
    for cmd in ask_no_persist().iter() {
        assert!(
            is_ask_no_persist(&[cmd]),
            "expected {cmd} to be AskNoPersist"
        );
    }
    assert!(is_ask_no_persist(&[
        "powershell",
        "-EncodedCommand",
        "ZwBpAHQA"
    ]));
    assert!(is_ask_no_persist(&["iex", "'ls'"]));
}

#[test]
fn shellexecute_strings_anywhere() {
    assert!(is_ask_no_persist(&["foo", "Shell.Application"]));
    assert!(is_ask_no_persist(&["foo", "bar", "ShellExecute"]));
    assert!(is_ask_no_persist(&["foo", "shell.application,x"]));
}

#[test]
fn delete_commands_are_refused_outright() {
    assert!(is_not_executable(&["remove-item", "C:\\x"]));
    assert!(is_not_executable(&["Remove-Item", "-Recurse", "C:\\x"]));
    assert!(is_not_executable(&["ri", "-rec", "C:\\x"]));
    assert!(is_not_executable(&["rm", "-Force", "C:\\x"]));
    assert!(is_not_executable(&["rm", "-Confirm", "C:\\x"]));
    assert!(is_not_executable(&["del", "file.txt"]));
    assert!(is_not_executable(&["DEL.EXE", "C:\\x"]));
    assert!(is_not_executable(&["rd", "-RECURSE", "C:\\x"]));
    assert!(is_not_executable(&["rmdir", "-f", "C:\\x"]));
    assert!(is_not_executable(&["erase", "-force", "C:\\x"]));
}

#[test]
fn reg_mutating_subcommands() {
    assert!(is_ask_no_persist(&["reg", "add", "HKCU\\Software\\X"]));
    assert!(is_ask_no_persist(&["reg", "DELETE", "HKCU\\Software\\X"]));
    assert!(is_ask_no_persist(&["reg.exe", "import", "x.reg"]));
    assert!(is_unknown(&["reg", "query", "HKCU\\Software\\X"]));
}

#[test]
fn windows_rg_rejects_external_command_flags() {
    assert!(is_allow(&["rg", "-n", "needle"]));
    assert!(is_ask_no_persist(&["rg", "--pre", "pwned", "x"]));
    assert!(is_ask_no_persist(&["rg", "--pre=pwned", "x"]));
    assert!(is_ask_no_persist(&["rg", "--hostname-bin", "C:\\x", "pat"]));
    assert!(is_unknown(&["rg", "-z", "x"]));
    assert!(is_unknown(&["rg", "--search-zip", "x"]));
}

#[test]
fn windows_unknown_command_falls_through() {
    assert!(is_unknown(&["git", "status"]));
    assert!(is_unknown(&["cargo", "build"]));
    assert!(is_unknown(&["some-random.exe"]));
}
