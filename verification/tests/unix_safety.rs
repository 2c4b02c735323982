use paloma_core::permission::entity::{ArgvDecision, PermissionError};
use paloma_core::permission::unix::{always_allowed, safety_check, safety_check_on, shells, UnixFlavor};


fn argv(args: &[&str]) -> Vec<String> {
    args.iter().map(|s| s.to_string()).collect()
}

fn is_allow(args: &[&str]) -> bool {
    matches!(safety_check(&argv(args)), Ok(ArgvDecision::Allow))
}

fn is_unknown(args: &[&str]) -> bool {
    matches!(safety_check(&argv(args)), Ok(ArgvDecision::Unknown))
}

fn is_unknown_elsewhere(args: &[&str]) -> bool {
    matches!(
        safety_check_on(&argv(args), UnixFlavor::Other),
        Ok(ArgvDecision::Unknown)
    )
}

fn is_ask_no_persist(args: &[&str]) -> bool {
    matches!(safety_check(&argv(args)), Ok(ArgvDecision::AskNoPersist))
}

fn is_not_executable(args: &[&str]) -> bool {
    matches!(safety_check(&argv(args)), Ok(ArgvDecision::NotExecutable))
}

#[test]
fn date_read_only_shapes() {
    assert!(is_allow(&["date"]));
    assert!(is_allow(&["date", "+%Y-%m-%d"]));
    assert!(is_allow(&["date", "-u", "+%FT%TZ"]));
    assert!(is_allow(&["date", "--iso-8601"]));
    assert!(is_allow(&["date", "--iso-8601=seconds"]));
    assert!(is_allow(&["date", "-I"]));
    assert!(is_allow(&["date", "-Iseconds"]));

    assert!(is_unknown(&["date", "-s", "tomorrow"]));
    assert!(is_unknown(&["date", "--set=tomorrow"]));
    assert!(is_unknown(&["date", "060412002026"]));
    assert!(is_unknown(&["date", "-Invalid"]));
    assert!(is_unknown(&["date", "--rfc-3339=ns"]));
}

#[test]
fn mod_always_allowed() {
    for cmd in always_allowed().iter() {
        assert!(is_allow(&[cmd]), "expected {cmd} to be Allow");
    }
    assert!(is_allow(&["ls", "-la", "src"]));
}

#[test]
fn uniq_stdout_forms_are_allowed() {
    assert!(is_allow(&["uniq"]));
    assert!(is_allow(&["uniq", "input.txt"]));
    assert!(is_allow(&["uniq", "-c", "input.txt"]));
    assert!(is_allow(&["uniq", "-f", "2", "input.txt"]));
    assert!(is_allow(&["uniq", "--skip-fields", "2", "input.txt"]));
    assert!(is_allow(&["uniq", "--skip-fields", "2", "-c", "input.txt"]));
    assert!(is_allow(&[
        "uniq",
        "--skip-fields",
        "2",
        "--count",
        "input.txt"
    ]));
    assert!(is_allow(&["uniq", "-i", "-"]));
}

#[test]
fn uniq_with_output_operand_requires_consent() {
    assert!(is_unknown(&["uniq", "input.txt", "output.txt"]));
    assert!(is_unknown(&["uniq", "-i", "input.txt", "output.txt"]));
    assert!(is_unknown(&["uniq", "-f", "2", "input.txt", "output.txt"]));
    assert!(is_unknown(&["uniq", "--", "input.txt", "output.txt"]));
}

#[test]
fn uniq_obsolete_forms_match_gnu_coreutils() {
    assert!(is_allow(&["uniq", "-5", "input.txt"]));
    assert!(is_unknown(&["uniq", "-5", "input.txt", "output.txt"]));
    assert!(is_allow(&["uniq", "+5"]));
    assert!(is_unknown(&["uniq", "+5", "input.txt"]));
}

#[test]
fn mod_empty_argv_is_error() {
    assert!(matches!(
        safety_check(&argv(&[])),
        Err(PermissionError::EmptyCommand),
    ));
    assert!(matches!(
        safety_check(&argv(&[""])),
        Err(PermissionError::EmptyCommand),
    ));
}

#[test]
fn mod_unknown_command_falls_through() {
    assert!(is_unknown(&["foo"]));
    assert!(is_unknown(&["cargo", "build"]));
    assert!(is_unknown(&["./script.sh"]));
}

#[test]
fn find_rejects_dangerous_options() {
    assert!(is_allow(&["find", ".", "-name", "x"]));
    assert!(is_ask_no_persist(&[
        "find", ".", "-name", "x", "-exec", "rm", "{}", ";",
    ]));
    assert!(is_ask_no_persist(&[
        "find", ".", "-execdir", "rm", "{}", ";"
    ]));
    assert!(is_ask_no_persist(&["find", ".", "-ok", "rm", "{}", ";"]));
    assert!(is_ask_no_persist(&["find", ".", "-okdir", "rm", "{}", ";"]));
    assert!(is_ask_no_persist(&["find", ".", "-delete"]));
    assert!(is_unknown(&["find", ".", "-fprint", "out.txt"]));
    assert!(is_unknown(&["find", ".", "-fls", "out.txt"]));
    assert!(is_unknown(&["find", ".", "-fprint0", "out.txt"]));
    assert!(is_unknown(&["find", ".", "-fprintf", "out.txt", "%p\\n"]));
}

#[test]
fn mod_rg_rejects_external_command_flags() {
    assert!(is_allow(&["rg", "-n", "needle"]));
    assert!(is_ask_no_persist(&["rg", "--pre", "pwned", "x"]));
    assert!(is_ask_no_persist(&["rg", "--pre=pwned", "x"]));
    assert!(is_ask_no_persist(&[
        "rg",
        "--hostname-bin",
        "/tmp/x",
        "pat",
        "."
    ]));
    assert!(is_ask_no_persist(&[
        "rg",
        "--hostname-bin=/tmp/x",
        "pat",
        "."
    ]));
    assert!(is_unknown(&["rg", "-z", "x"]));
    assert!(is_unknown(&["rg", "--search-zip", "x"]));
}

#[test]
fn base64_rejects_output_options() {
    assert!(is_allow(&["base64"]));
    assert!(is_allow(&["base64", "-d"]));
    assert!(is_allow(&["base64", "input.txt"]));
    assert!(is_allow(&["base64", "-d", "input.txt"]));
    assert!(is_unknown(&["base64", "-o", "out.bin"]));
    assert!(is_unknown(&["base64", "--output", "out.bin"]));
    assert!(is_unknown(&["base64", "--output=out.bin"]));
    assert!(is_unknown(&["base64", "-oout.bin"]));
}

#[test]
fn sed_read_only_shapes() {
    assert!(is_allow(&["sed", "-n", "1,5p", "f"]));
    assert!(is_allow(&["sed", "-n", "10p", "f"]));
    assert!(is_unknown(&["sed", "-n", "xp", "f"]));
    assert!(is_unknown(&["sed", "-i", "s/x/y/", "f"]));
}

#[test]
fn recursive_rm_variants() {
    assert!(is_ask_no_persist(&["rm", "-r", "x"]));
    assert!(is_ask_no_persist(&["rm", "-R", "x"]));
    assert!(is_ask_no_persist(&["rm", "-rf", "x"]));
    assert!(is_ask_no_persist(&["rm", "-fr", "x"]));
    assert!(is_ask_no_persist(&["rm", "-vrf", "x"]));
    assert!(is_ask_no_persist(&["rm", "-rfv", "x"]));
    assert!(is_ask_no_persist(&["rm", "-Rfv", "x"]));
    assert!(is_ask_no_persist(&["rm", "--recursive", "x"]));
}

#[test]
fn non_recursive_rm_is_not_ask_no_persist() {
    assert!(is_unknown(&["rm", "x"]));
    assert!(is_unknown(&["rm", "-i", "x"]));
}

#[test]
fn recursive_chmod_chown() {
    assert!(is_ask_no_persist(&["chmod", "-R", "755", "."]));
    assert!(is_ask_no_persist(&["chmod", "-Rv", "755", "."]));
    assert!(is_ask_no_persist(&["chown", "--recursive", "u", "."]));
    assert!(is_unknown(&["chmod", "755", "."]));
}

#[test]
fn dd_write_operand() {
    assert!(is_ask_no_persist(&["dd", "if=/dev/zero", "of=/tmp/out"]));
    assert!(is_unknown(&["dd", "if=/dev/zero"]));
}

#[test]
fn mkfs_family() {
    assert!(is_ask_no_persist(&["mkfs", "/dev/sda1"]));
    assert!(is_ask_no_persist(&["mkfs.ext4", "/dev/sda1"]));
    assert!(is_ask_no_persist(&["/sbin/mkfs.btrfs", "/dev/sda1"]));
    assert!(is_unknown(&["mkfsfoo", "/dev/sda1"]));
}

#[test]
fn kill_signal_negative_one() {
    assert!(is_ask_no_persist(&["kill", "-1"]));
    assert!(is_unknown(&["kill", "-9", "123"]));
}

#[test]
fn sudo_anywhere_is_hit() {
    assert!(is_not_executable(&["sudo", "ls"]));
    assert!(is_not_executable(&["env", "FOO=1", "sudo", "ls"]));
    assert!(is_not_executable(&["/usr/bin/sudo", "ls"]));
    assert!(is_not_executable(&["env", "FOO=1", "/usr/bin/sudo", "ls"]));
}

#[test]
fn sudo_outranks_other_dangerous_shapes() {
    assert!(is_not_executable(&["sudo", "rm", "-rf", "x"]));
    assert!(is_not_executable(&["sudo", "mkfs.ext4", "/dev/sda1"]));
    assert!(is_not_executable(&[
        "sudo",
        "dd",
        "if=/dev/zero",
        "of=/dev/sda"
    ]));
    assert!(is_not_executable(&["sudo", "chmod", "-R", "777", "."]));
    assert!(is_not_executable(&[
        "env", "PATH=/x", "sudo", "rm", "-rf", "."
    ]));
    assert!(is_not_executable(&["/usr/bin/sudo", "rm", "-rf", "."]));
}

#[test]
fn interactive_tty_commands() {
    assert!(is_not_executable(&["su", "-"]));
    assert!(is_not_executable(&["passwd"]));
    assert!(is_not_executable(&["ssh-add"]));
    assert!(is_not_executable(&["/bin/su"]));
    assert!(is_not_executable(&["/usr/bin/passwd"]));
    assert!(is_not_executable(&["/usr/bin/ssh-add"]));
}

#[test]
fn gpg_key_generation() {
    assert!(is_not_executable(&["gpg", "--gen-key"]));
    assert!(is_not_executable(&["gpg", "--full-generate-key"]));
    assert!(is_not_executable(&["/usr/bin/gpg", "--gen-key"]));
    assert!(is_unknown(&["gpg", "--list-keys"]));
}

#[test]
fn benign_commands_not_flagged() {
    assert!(!is_not_executable(&["ls", "-la"]));
    assert!(!is_not_executable(&["echo", "hi"]));
}

#[test]
fn shells_are_ask_no_persist() {
    for shell in shells().iter() {
        assert!(
            is_ask_no_persist(&[shell]),
            "expected {shell} to be AskNoPersist"
        );
    }
    assert!(is_ask_no_persist(&["bash", "script.sh"]));
    assert!(is_ask_no_persist(&["/bin/bash", "script.sh"]));
    assert!(is_ask_no_persist(&["/usr/bin/fish", "-c", "echo hi"]));
}

#[test]
fn linux_only_safe_utilities() {
    assert!(is_allow(&["numfmt", "--to=iec", "1234"]));
    assert!(is_allow(&["tac", "file.txt"]));
}

#[test]
fn linux_only_utilities_not_on_other_platforms() {
    assert!(is_unknown_elsewhere(&["numfmt", "--to=iec", "1234"]));
    assert!(is_unknown_elsewhere(&["tac", "file.txt"]));
}
