//! Scans over an argv shared by the platform classifiers, and the `rg`
//! check that is the same on every platform.
use vstd::prelude::*;
use vstd::string::*;
use crate::permission::entity::ArgvDecision;
use crate::permission::transparent::tokens;
use crate::text::{starts_with, str_eq};

verus! {

/// Some token at or after `from` equals `lit`.
pub open spec fn any_eq(t: Seq<Seq<char>>, from: int, lit: Seq<char>) -> bool {
    exists|j: int| from <= j < t.len() && #[trigger] t[j] == lit
}

/// Some token at or after `from` starts with `lit`.
pub open spec fn any_prefix(t: Seq<Seq<char>>, from: int, lit: Seq<char>) -> bool {
    exists|j: int| from <= j < t.len() && lit.is_prefix_of(#[trigger] t[j])
}

/// Whether some argument at or after `from` equals `lit`.
pub fn any_arg_eq(args: &[String], from: usize, lit: &str) -> (r: bool)
    ensures
        r == any_eq(tokens(args), from as int, lit@),
{
    let ghost t = tokens(args);
    let n = args.len();
    let mut j = from;
    while j < n
        invariant
            t == tokens(args),
            n == args@.len(),
            from <= j,
            forall|k: int| from <= k < j && k < n ==> #[trigger] t[k] != lit@,
        decreases n - j,
    {
        assert(t[j as int] == args@[j as int]@);
        if str_eq(args[j].as_str(), lit) {
            return true;
        }
        j = j + 1;
    }
    false
}

/// Whether some argument at or after `from` starts with `lit`.
pub fn any_arg_prefix(args: &[String], from: usize, lit: &str) -> (r: bool)
    ensures
        r == any_prefix(tokens(args), from as int, lit@),
{
    let ghost t = tokens(args);
    let n = args.len();
    let mut j = from;
    while j < n
        invariant
            t == tokens(args),
            n == args@.len(),
            from <= j,
            forall|k: int| from <= k < j && k < n ==> !lit@.is_prefix_of(#[trigger] t[k]),
        decreases n - j,
    {
        assert(t[j as int] == args@[j as int]@);
        if starts_with(args[j].as_str(), lit) {
            return true;
        }
        j = j + 1;
    }
    false
}

/// Options that make `rg` run another program.
pub open spec fn rg_runs_program(t: Seq<Seq<char>>) -> bool {
    any_eq(t, 0, "--pre"@) || any_prefix(t, 0, "--pre="@) || any_eq(t, 0, "--hostname-bin"@)
        || any_prefix(t, 0, "--hostname-bin="@)
}

/// Options that make `rg` call out to decompression tools.
pub open spec fn rg_decompresses(t: Seq<Seq<char>>) -> bool {
    any_eq(t, 0, "--search-zip"@) || any_prefix(t, 0, "--search-zip="@) || any_eq(t, 0, "-z"@)
        || any_prefix(t, 0, "-z="@)
}

/// The verdict on an `rg` argv.
pub open spec fn ripgrep_decision(t: Seq<Seq<char>>) -> ArgvDecision {
    if rg_runs_program(t) {
        ArgvDecision::AskNoPersist
    } else if rg_decompresses(t) {
        ArgvDecision::Unknown
    } else {
        ArgvDecision::Allow
    }
}

/// Ripgrep is the same on every platform.
pub fn ripgrep_check(command: &[String]) -> (r: ArgvDecision)
    ensures
        r == ripgrep_decision(tokens(command)),
{
    if any_arg_eq(command, 0, "--pre") || any_arg_prefix(command, 0, "--pre=") || any_arg_eq(
        command,
        0,
        "--hostname-bin",
    ) || any_arg_prefix(command, 0, "--hostname-bin=") {
        ArgvDecision::AskNoPersist
    } else if any_arg_eq(command, 0, "--search-zip") || any_arg_prefix(command, 0, "--search-zip=")
        || any_arg_eq(command, 0, "-z") || any_arg_prefix(command, 0, "-z=") {
        ArgvDecision::Unknown
    } else {
        ArgvDecision::Allow
    }
}

} // verus!
