use paloma_core::controller::permission_workflow::{
    generate_decision_options, generate_unsafe_decision_options,
};
use paloma_core::permission::entity::UserDecision;

fn argv(parts: &[&str]) -> Vec<String> {
    parts.iter().map(|s| s.to_string()).collect()
}

/// A glob `Allow` with call_id "c".
fn allow(command: &str) -> UserDecision {
    UserDecision::Allow {
        call_id: "c".into(),
        command: command.into(),
        glob: true,
    }
}

#[test]
fn single_token_yields_program_only() {
    let opts = generate_decision_options("c".into(), &argv(&["ls"]));
    assert_eq!(opts, vec![allow("ls")]);
}

#[test]
fn exact_two_argvs_which_second_one_is_subcommand() {
    let opts = generate_decision_options("c".into(), &argv(&["cargo", "build"]));
    assert_eq!(opts, vec![allow("cargo"), allow("cargo build")]);
}

#[test]
fn subcommand_yields_program_and_subcommand() {
    let opts = generate_decision_options("c".into(), &argv(&["cargo", "build", "-j", "8"]));
    assert_eq!(opts, vec![allow("cargo"), allow("cargo build")]);
}

#[test]
fn caps_at_two_tokens() {
    let opts =
        generate_decision_options("c".into(), &argv(&["git", "commit", "-m", "x", "--amend"]));
    assert_eq!(opts, vec![allow("git"), allow("git commit")]);
}

#[test]
fn short_flag_second_arg_yields_program_only() {
    let opts = generate_decision_options("c".into(), &argv(&["rm", "-rf", "dir"]));
    assert_eq!(opts, vec![allow("rm")]);
}

#[test]
fn long_flag_second_arg_yields_program_only() {
    let opts = generate_decision_options("c".into(), &argv(&["cargo", "--version"]));
    assert_eq!(opts, vec![allow("cargo")]);
}

#[test]
fn empty_argv_yields_no_options() {
    let opts = generate_decision_options("c".into(), &[]);
    assert!(opts.is_empty());
}

#[test]
fn unsafe_options_are_the_four_session_scoped_choices() {
    let session_id: u128 = 42;
    let opts = generate_unsafe_decision_options("c".into(), session_id);
    assert_eq!(
        opts,
        vec![
            UserDecision::AllowOnce {
                call_id: "c".into(),
            },
            UserDecision::AllowSession {
                session_id,
                call_id: "c".into(),
            },
            UserDecision::IgnorePermission {
                session_id,
                call_id: "c".into(),
            },
            UserDecision::Deny {
                call_id: "c".into(),
            },
        ]
    );
}
