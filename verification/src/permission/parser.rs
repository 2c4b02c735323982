//! Which argvs a Windows command runs: a PowerShell `-Command` script goes
//! to the PowerShell parser; anything else is its own single argv.
use vstd::prelude::*;
use vstd::string::*;
use crate::controller::permission_workflow::{join_space, join_words};
use crate::permission::entity::PermissionError;
use crate::permission::names::{windows_file_name, windows_name};
use crate::permission::transparent::tokens;
use crate::text::{lower, lower_chars, chars_eq};

verus! {

/// The last position of `c` in `s`, if any.
pub open spec fn last_index(s: Seq<char>, c: char) -> Option<int>
    decreases s.len(),
{
    if s.len() == 0 {
        None
    } else if s.last() == c {
        Some(s.len() - 1)
    } else {
        last_index(s.drop_last(), c)
    }
}

/// A file name without its extension, as `Path::file_stem` splits it: at
/// the last dot, unless the name is `..` or the dot leads the name.
pub open spec fn stem(name: Seq<char>) -> Seq<char> {
    if name == ".."@ {
        name
    } else {
        match last_index(name, '.') {
            Some(k) => if k == 0 { name } else { name.subrange(0, k) },
            None => name,
        }
    }
}

/// The program name of a Windows command word: its file stem, or the word
/// itself where it names no file.
pub open spec fn program_stem(word: Seq<char>) -> Seq<char> {
    match windows_file_name(word) {
        Some(name) => stem(name),
        None => word,
    }
}

/// Switches that change nothing about what a PowerShell command runs.
pub open spec fn neutral_switch(a: Seq<char>) -> bool {
    lower(a) == "-noprofile"@ || lower(a) == "-noninteractive"@ || lower(a) == "-nologo"@
}

/// The script of a PowerShell invocation's arguments from `i` on: after
/// neutral switches, `-Command` followed by at least one word; the words
/// joined by spaces.
pub open spec fn script_from(t: Seq<Seq<char>>, i: int) -> Option<Seq<char>>
    decreases t.len() - i,
{
    if i < 0 || i >= t.len() {
        None
    } else if neutral_switch(t[i]) {
        script_from(t, i + 1)
    } else if lower(t[i]) == "-command"@ && i + 1 < t.len() {
        Some(join_words(t.subrange(i + 1, t.len() as int)))
    } else {
        None
    }
}

/// What a command's argvs are found from.
#[derive(Debug)]
pub enum ParsePlan {
    /// The command is its own single argv.
    Direct(Vec<Vec<String>>),
    /// A PowerShell script, for the PowerShell parser.
    Script(String),
}

/// The plan for `t`: an empty command is refused; a PowerShell invocation
/// with a `-Command` script is parsed; anything else stands as it is.
pub open spec fn parse_plan(t: Seq<Seq<char>>) -> Result<Option<Seq<char>>, PermissionError> {
    if t.len() == 0 {
        Err(PermissionError::EmptyCommand)
    } else if lower(program_stem(t[0])) != "powershell"@ {
        Ok(None)
    } else {
        Ok(script_from(t, 1))
    }
}

proof fn lemma_last_index_bound(s: Seq<char>, c: char)
    ensures
        last_index(s, c) matches Some(k) ==> 0 <= k < s.len(),
    decreases s.len(),
{
    if s.len() > 0 {
        lemma_last_index_bound(s.drop_last(), c);
    }
}

fn last_dot(v: &[char]) -> (r: Option<usize>)
    ensures
        match last_index(v@, '.') {
            Some(k) => r == Some(k as usize) && 0 <= k < v@.len(),
            None => r is None,
        },
{
    let n = v.len();
    let mut i: usize = n;
    assert(v@.subrange(0, n as int) =~= v@);
    while i > 0
        invariant
            n == v@.len(),
            i <= n,
            last_index(v@, '.') == last_index(v@.subrange(0, i as int), '.'),
        decreases i,
    {
        assert(v@.subrange(0, i as int).drop_last() =~= v@.subrange(0, i - 1));
        proof {
            lemma_last_index_bound(v@, '.');
        }
        if v[i - 1] == '.' {
            return Some(i - 1);
        }
        i = i - 1;
    }
    proof {
        lemma_last_index_bound(v@, '.');
    }
    None
}

fn stem_of(name: Vec<char>) -> (r: Vec<char>)
    ensures
        r@ == stem(name@),
{
    if name.len() == 2 && name[0] == '.' && name[1] == '.' {
        assert(name@ =~= ".."@) by {
            reveal_strlit("..");
        }
        return name;
    }
    proof {
        reveal_strlit("..");
    }
    match last_dot(name.as_slice()) {
        Some(k) => {
            if k == 0 {
                name
            } else {
                vstd::slice::slice_to_vec(vstd::slice::slice_subrange(name.as_slice(), 0, k))
            }
        },
        None => name,
    }
}

fn lower_is(a: &str, lit: &str) -> (r: bool)
    ensures
        r == (lower(a@) == lit@),
{
    let l = lower_chars(a);
    chars_eq(l.as_slice(), lit)
}

fn clone_argv(v: &[String]) -> (r: Vec<String>)
    ensures
        r.deep_view() == tokens(v),
{
    let mut r: Vec<String> = Vec::new();
    let n = v.len();
    let mut i: usize = 0;
    while i < n
        invariant
            n == v@.len(),
            i <= n,
            r@ == v@.subrange(0, i as int),
        decreases n - i,
    {
        r.push(v[i].clone());
        i = i + 1;
        assert(r@ =~= v@.subrange(0, i as int));
    }
    assert(r@ =~= v@);
    assert(r.deep_view() =~= tokens(v));
    r
}

/// How the argvs of a Windows command are found; see [`parse_plan`].
pub fn plan_parse(command: &[String]) -> (r: Result<ParsePlan, PermissionError>)
    ensures
        match parse_plan(tokens(command)) {
            Err(e) => r == Err::<ParsePlan, PermissionError>(e),
            Ok(None) => r matches Ok(ParsePlan::Direct(v)) && v.deep_view() == seq![tokens(command)],
            Ok(Some(s)) => r matches Ok(ParsePlan::Script(x)) && x@ == s,
        },
{
    let ghost t = tokens(command);
    let n = command.len();
    if n == 0 {
        return Err(PermissionError::EmptyCommand);
    }
    assert(t[0] == command@[0]@);
    let program: Vec<char> = match windows_name(command[0].as_str()) {
        Some(name) => stem_of(name),
        None => crate::text::chars_of(command[0].as_str()),
    };
    let p = crate::text::string_of(program.as_slice());
    let mut direct: Vec<Vec<String>> = Vec::new();
    if !lower_is(p.as_str(), "powershell") {
        direct.push(clone_argv(command));
        assert(direct.deep_view() =~= seq![t]);
        return Ok(ParsePlan::Direct(direct));
    }
    assert(lower(program_stem(t[0])) == "powershell"@);
    let mut i: usize = 1;
    while i < n
        invariant
            t == tokens(command),
            n == t.len(),
            1 <= i <= n,
            lower(program_stem(t[0])) == "powershell"@,
            script_from(t, 1) == script_from(t, i as int),
        ensures
            script_from(t, 1) is None,
        decreases n - i,
    {
        let a = command[i].as_str();
        assert(a@ == t[i as int]);
        if lower_is(a, "-noprofile") || lower_is(a, "-noninteractive") || lower_is(a, "-nologo") {
            i = i + 1;
        } else if lower_is(a, "-command") && i + 1 < n {
            let rest = vstd::slice::slice_subrange(command, i + 1, n);
            assert(tokens(rest) =~= t.subrange(i + 1, n as int));
            let script = join_space(rest);
            assert(script_from(t, i as int) == Some(script@));
            return Ok(ParsePlan::Script(script));
        } else {
            break;
        }
    }
    direct.push(clone_argv(command));
    assert(direct.deep_view() =~= seq![t]);
    Ok(ParsePlan::Direct(direct))
}

/// The argvs of a parsed script: a script that parses to no command is
/// refused as empty; an unparseable one (`None`) is passed on as such.
pub fn finish_parse(outcome: Option<Vec<Vec<String>>>) -> (r: Result<Option<Vec<Vec<String>>>, PermissionError>)
    ensures
        match outcome {
            Some(v) => if v@.len() == 0 {
                r == Err::<Option<Vec<Vec<String>>>, PermissionError>(PermissionError::EmptyCommand)
            } else {
                r matches Ok(Some(w)) && w@ == v@
            },
            None => r matches Ok(None),
        },
{
    match outcome {
        Some(v) => {
            if v.len() == 0 {
                Err(PermissionError::EmptyCommand)
            } else {
                Ok(Some(v))
            }
        },
        None => Ok(None),
    }
}

} // verus!
