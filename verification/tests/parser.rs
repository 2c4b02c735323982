use paloma_core::permission::entity::PermissionError;
use paloma_core::permission::parser::{finish_parse, plan_parse, ParsePlan};

fn argv(parts: &[&str]) -> Vec<String> {
    parts.iter().map(|s| s.to_string()).collect()
}

#[test]
fn empty_command_is_refused() {
    assert!(matches!(plan_parse(&[]), Err(PermissionError::EmptyCommand)));
}

#[test]
fn non_powershell_commands_stand_as_they_are() {
    match plan_parse(&argv(&["git", "status"])).unwrap() {
        ParsePlan::Direct(v) => assert_eq!(v, vec![argv(&["git", "status"])]),
        _ => panic!("expected direct"),
    }
}

#[test]
fn powershell_command_scripts_are_parsed() {
    let cmd = argv(&["C:\\Windows\\PowerShell.exe", "-NoProfile", "-command", "git", "add", "."]);
    match plan_parse(&cmd).unwrap() {
        ParsePlan::Script(s) => assert_eq!(s, "git add ."),
        _ => panic!("expected script"),
    }
}

#[test]
fn opaque_powershell_invocations_stand_as_they_are() {
    for cmd in [
        argv(&["powershell", "-File", "x.ps1"]),
        argv(&["powershell", "-Command"]),
        argv(&["powershell"]),
    ] {
        assert!(matches!(plan_parse(&cmd).unwrap(), ParsePlan::Direct(_)));
    }
}

#[test]
fn scripts_parsing_to_nothing_are_refused() {
    assert!(matches!(finish_parse(Some(vec![])), Err(PermissionError::EmptyCommand)));
    assert_eq!(finish_parse(None), Ok(None));
    assert_eq!(finish_parse(Some(vec![argv(&["ls"])])), Ok(Some(vec![argv(&["ls"])])));
}
