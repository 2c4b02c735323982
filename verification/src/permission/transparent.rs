//! Stripping of transparent wrappers (`timeout`, `env`, `nice`, `nohup`) so
//! that the command underneath is the one that gets classified.
use vstd::prelude::*;
use vstd::string::*;
use vstd::slice::slice_subrange;
use crate::text::{dash, find_char, find_first, is_dash, lemma_find_first, starts_with, str_eq, contains_char};
use crate::permission::grammar::{
    all_signals, is_valid_adjustment, is_valid_duration, is_valid_signal, is_valid_signal_list,
    valid_adjustment, valid_duration, valid_signal,
};

verus! {

/// Wrapper layers a command may realistically nest before it is refused.
pub const MAX_DEPTH: usize = 8;

/// Why a wrapper could not be stripped.
#[derive(Debug, PartialEq, Eq)]
pub enum StripTransparentWrapperError {
    MissingFlagValue { wrapper: &'static str, flag: String },
    InvalidFlagValue { wrapper: &'static str, flag: String, value: String },
    UnknownOption { wrapper: &'static str, option: String },
    /// `found` is the offending token; empty when the command ends too early.
    InvalidCommand { wrapper: &'static str, found: String },
    UnsafeToStrip { wrapper: &'static str, construct: String },
    DepthExceeded,
}

/// The abstract content of a [`StripTransparentWrapperError`].
pub enum StripFailure {
    MissingFlagValue { wrapper: Seq<char>, flag: Seq<char> },
    InvalidFlagValue { wrapper: Seq<char>, flag: Seq<char>, value: Seq<char> },
    UnknownOption { wrapper: Seq<char>, option: Seq<char> },
    InvalidCommand { wrapper: Seq<char>, found: Seq<char> },
    UnsafeToStrip { wrapper: Seq<char>, construct: Seq<char> },
    DepthExceeded,
}

impl View for StripTransparentWrapperError {
    type V = StripFailure;

    open spec fn view(&self) -> StripFailure {
        match self {
            StripTransparentWrapperError::MissingFlagValue { wrapper, flag } => {
                StripFailure::MissingFlagValue { wrapper: wrapper@, flag: flag@ }
            },
            StripTransparentWrapperError::InvalidFlagValue { wrapper, flag, value } => {
                StripFailure::InvalidFlagValue { wrapper: wrapper@, flag: flag@, value: value@ }
            },
            StripTransparentWrapperError::UnknownOption { wrapper, option } => {
                StripFailure::UnknownOption { wrapper: wrapper@, option: option@ }
            },
            StripTransparentWrapperError::InvalidCommand { wrapper, found } => {
                StripFailure::InvalidCommand { wrapper: wrapper@, found: found@ }
            },
            StripTransparentWrapperError::UnsafeToStrip { wrapper, construct } => {
                StripFailure::UnsafeToStrip { wrapper: wrapper@, construct: construct@ }
            },
            StripTransparentWrapperError::DepthExceeded => StripFailure::DepthExceeded,
        }
    }
}

/// The tokens of an argv, as character sequences.
pub open spec fn tokens(args: &[String]) -> Seq<Seq<char>> {
    args.deep_view()
}

/// A strip result against its specification: `Ok(k)` means the inner command
/// is the suffix of `args` that starts at token `k`.
pub open spec fn strip_matches(
    args: &[String],
    res: Result<&[String], StripTransparentWrapperError>,
    spec: Result<int, StripFailure>,
) -> bool {
    match spec {
        Ok(k) => 0 <= k <= args@.len() && (res matches Ok(r) && r@ == args@.subrange(
            k,
            args@.len() as int,
        )),
        Err(f) => res matches Err(e) && e@ == f,
    }
}

/// An option token split as `getopt` sees a long option: `--flag=value`
/// yields the flag and its inline value; anything else is kept whole.
pub open spec fn split_option(arg: Seq<char>) -> (Seq<char>, Option<Seq<char>>) {
    match find_first(arg, '=') {
        Some(p) => {
            if 0 <= p < arg.len() && "--"@.is_prefix_of(arg.subrange(0, p)) {
                (arg.subrange(0, p), Some(arg.subrange(p + 1, arg.len() as int)))
            } else {
                (arg, None)
            }
        },
        None => (arg, None),
    }
}

pub open spec fn opt_view(o: Option<&str>) -> Option<Seq<char>> {
    match o {
        Some(s) => Some(s@),
        None => None,
    }
}

// ---------------------------------------------------------------------------
// timeout
// ---------------------------------------------------------------------------

/// The duration operand of `timeout` at position `i`, followed by the command.
pub open spec fn timeout_duration(t: Seq<Seq<char>>, i: int) -> Result<int, StripFailure> {
    if i < 0 || i >= t.len() {
        Err(StripFailure::InvalidCommand { wrapper: "timeout"@, found: Seq::empty() })
    } else if valid_duration(t[i]) {
        Ok(i + 1)
    } else {
        Err(StripFailure::InvalidCommand { wrapper: "timeout"@, found: t[i] })
    }
}

/// `timeout` options that take no value.
pub open spec fn timeout_switch(f: Seq<char>) -> bool {
    f == "-f"@ || f == "--foreground"@ || f == "-p"@ || f == "--preserve-status"@ || f == "-v"@
        || f == "--verbose"@
}

/// `timeout` options that take a value.
pub open spec fn timeout_valued(f: Seq<char>) -> bool {
    f == "-s"@ || f == "--signal"@ || f == "-k"@ || f == "--kill-after"@
}

/// Whether `v` is acceptable for the valued `timeout` option `f`.
pub open spec fn timeout_value_ok(f: Seq<char>, v: Seq<char>) -> bool {
    if f == "-s"@ || f == "--signal"@ {
        valid_signal(v)
    } else {
        valid_duration(v)
    }
}

/// `timeout`'s arguments, parsed from position `i`: the start of the inner
/// command, or why the invocation is refused.
pub open spec fn timeout_from(t: Seq<Seq<char>>, i: int) -> Result<int, StripFailure>
    decreases t.len() - i,
{
    if i < 0 || i >= t.len() || !dash(t[i]) {
        timeout_duration(t, i)
    } else if t[i] == "--"@ {
        timeout_duration(t, i + 1)
    } else {
        let (flag, inline) = split_option(t[i]);
        if timeout_switch(flag) && inline is None {
            timeout_from(t, i + 1)
        } else if timeout_valued(flag) {
            match inline {
                Some(v) => {
                    if timeout_value_ok(flag, v) {
                        timeout_from(t, i + 1)
                    } else {
                        Err(StripFailure::InvalidFlagValue { wrapper: "timeout"@, flag, value: v })
                    }
                },
                None => {
                    if i + 1 >= t.len() {
                        Err(StripFailure::MissingFlagValue { wrapper: "timeout"@, flag })
                    } else if timeout_value_ok(flag, t[i + 1]) {
                        timeout_from(t, i + 2)
                    } else {
                        Err(
                            StripFailure::InvalidFlagValue {
                                wrapper: "timeout"@,
                                flag,
                                value: t[i + 1],
                            },
                        )
                    }
                },
            }
        } else {
            Err(StripFailure::UnknownOption { wrapper: "timeout"@, option: t[i] })
        }
    }
}

/// Splits an option token into its flag and inline value.
fn split_flag(arg: &str) -> (r: (&str, Option<&str>))
    ensures
        (r.0@, opt_view(r.1)) == split_option(arg@),
{
    let n = arg.unicode_len();
    match find_char(arg, '=') {
        Some(p) => {
            proof {
                lemma_find_first(arg@, '=');
            }
            let f = arg.substring_char(0, p);
            if starts_with(f, "--") {
                (f, Some(arg.substring_char(p + 1, n)))
            } else {
                (arg, None)
            }
        },
        None => (arg, None),
    }
}

fn err_str(s: &str) -> (r: String)
    ensures
        r@ == s@,
{
    s.to_owned()
}

fn timeout_duration_at(args: &[String], i: usize) -> (res: Result<&[String], StripTransparentWrapperError>)
    requires
        i <= args@.len(),
    ensures
        strip_matches(args, res, timeout_duration(tokens(args), i as int)),
{
    let n = args.len();
    if i >= n {
        return Err(StripTransparentWrapperError::InvalidCommand { wrapper: "timeout", found: String::new() });
    }
    assert(tokens(args)[i as int] == args@[i as int]@);
    if is_valid_duration(args[i].as_str()) {
        Ok(slice_subrange(args, i + 1, n))
    } else {
        Err(StripTransparentWrapperError::InvalidCommand { wrapper: "timeout", found: args[i].clone() })
    }
}

/// Strips a `timeout` invocation's own arguments (everything after the word
/// `timeout`), returning the command it runs.
pub fn strip_timeout(args: &[String]) -> (res: Result<&[String], StripTransparentWrapperError>)
    ensures
        strip_matches(args, res, timeout_from(tokens(args), 0)),
{
    let ghost t = tokens(args);
    let n = args.len();
    let mut i: usize = 0;
    loop
        invariant
            n == args@.len(),
            t == tokens(args),
            i <= n,
            timeout_from(t, 0) == timeout_from(t, i as int),
        decreases n - i,
    {
        if i >= n {
            return timeout_duration_at(args, i);
        }
        let arg: &str = args[i].as_str();
        assert(t[i as int] == arg@);
        if !is_dash(arg) {
            return timeout_duration_at(args, i);
        }
        if str_eq(arg, "--") {
            return timeout_duration_at(args, i + 1);
        }
        let (flag, inline) = split_flag(arg);
        if (str_eq(flag, "-f") || str_eq(flag, "--foreground") || str_eq(flag, "-p") || str_eq(
            flag,
            "--preserve-status",
        ) || str_eq(flag, "-v") || str_eq(flag, "--verbose")) && inline.is_none() {
            i = i + 1;
        } else if str_eq(flag, "-s") || str_eq(flag, "--signal") || str_eq(flag, "-k") || str_eq(
            flag,
            "--kill-after",
        ) {
            let value: &str = match inline {
                Some(v) => v,
                None => {
                    if i + 1 >= n {
                        return Err(
                            StripTransparentWrapperError::MissingFlagValue {
                                wrapper: "timeout",
                                flag: err_str(flag),
                            },
                        );
                    }
                    i = i + 1;
                    assert(t[i as int] == args@[i as int]@);
                    args[i].as_str()
                },
            };
            let valid = if str_eq(flag, "-s") || str_eq(flag, "--signal") {
                is_valid_signal(value)
            } else {
                is_valid_duration(value)
            };
            if !valid {
                return Err(
                    StripTransparentWrapperError::InvalidFlagValue {
                        wrapper: "timeout",
                        flag: err_str(flag),
                        value: err_str(value),
                    },
                );
            }
            i = i + 1;
        } else {
            return Err(
                StripTransparentWrapperError::UnknownOption { wrapper: "timeout", option: err_str(arg) },
            );
        }
    }
}


// ---------------------------------------------------------------------------
// env
// ---------------------------------------------------------------------------

/// `env` options that take no value and leave the command as it is.
pub open spec fn env_switch(f: Seq<char>) -> bool {
    f == "-"@ || f == "-i"@ || f == "--ignore-environment"@ || f == "-v"@ || f == "--debug"@
        || f == "--list-signal-handling"@
}

pub open spec fn env_unset(f: Seq<char>) -> bool {
    f == "-u"@ || f == "--unset"@
}

/// Long options whose value (a signal list) may only be given inline.
pub open spec fn env_signal_option(f: Seq<char>) -> bool {
    f == "--default-signal"@ || f == "--ignore-signal"@ || f == "--block-signal"@
}

/// Options that change how the inner command runs, so it cannot be judged
/// as if it ran on its own.
pub open spec fn env_unsafe(f: Seq<char>) -> bool {
    f == "-S"@ || f == "--split-string"@ || f == "-C"@ || f == "--chdir"@ || f == "-a"@ || f
        == "--argv0"@ || f == "-L"@ || f == "-U"@ || f == "-P"@
}

pub open spec fn env_print(f: Seq<char>) -> bool {
    f == "-0"@ || f == "--null"@
}

/// Once `env`'s options end at `i`: the command starts at `i` unless print
/// mode forbids a command or the first operand is an assignment.
pub open spec fn env_finish(t: Seq<Seq<char>>, i: int, print_mode: bool) -> Result<int, StripFailure> {
    if print_mode && 0 <= i < t.len() {
        Err(StripFailure::InvalidCommand { wrapper: "env"@, found: t[i] })
    } else if 0 <= i < t.len() && t[i].contains('=') {
        Err(StripFailure::UnsafeToStrip { wrapper: "env"@, construct: t[i] })
    } else {
        Ok(i)
    }
}

/// `env`'s arguments, parsed from position `i`.
pub open spec fn env_from(t: Seq<Seq<char>>, i: int, print_mode: bool) -> Result<int, StripFailure>
    decreases t.len() - i,
{
    if i < 0 || i >= t.len() || !dash(t[i]) {
        env_finish(t, i, print_mode)
    } else if t[i] == "--"@ {
        env_finish(t, i + 1, print_mode)
    } else {
        let (flag, inline) = split_option(t[i]);
        if env_switch(flag) && inline is None {
            env_from(t, i + 1, print_mode)
        } else if env_unset(flag) {
            if inline is None {
                if i + 1 >= t.len() {
                    Err(StripFailure::MissingFlagValue { wrapper: "env"@, flag })
                } else {
                    env_from(t, i + 2, print_mode)
                }
            } else {
                env_from(t, i + 1, print_mode)
            }
        } else if env_signal_option(flag) {
            match inline {
                Some(list) => {
                    if list.len() == 0 || !all_signals(list) {
                        Err(StripFailure::InvalidFlagValue { wrapper: "env"@, flag, value: list })
                    } else {
                        env_from(t, i + 1, print_mode)
                    }
                },
                None => env_from(t, i + 1, print_mode),
            }
        } else if env_unsafe(flag) {
            Err(StripFailure::UnsafeToStrip { wrapper: "env"@, construct: flag })
        } else if env_print(flag) && inline is None {
            env_from(t, i + 1, true)
        } else {
            Err(StripFailure::UnknownOption { wrapper: "env"@, option: t[i] })
        }
    }
}

fn env_finish_at(args: &[String], i: usize, print_mode: bool) -> (res: Result<&[String], StripTransparentWrapperError>)
    requires
        i <= args@.len(),
    ensures
        strip_matches(args, res, env_finish(tokens(args), i as int, print_mode)),
{
    let n = args.len();
    if i < n {
        assert(tokens(args)[i as int] == args@[i as int]@);
        if print_mode {
            return Err(StripTransparentWrapperError::InvalidCommand { wrapper: "env", found: args[i].clone() });
        }
        if contains_char(args[i].as_str(), '=') {
            return Err(StripTransparentWrapperError::UnsafeToStrip { wrapper: "env", construct: args[i].clone() });
        }
    }
    Ok(slice_subrange(args, i, n))
}

/// Strips an `env` invocation's own arguments, returning the command it runs
/// (empty when `env` only prints the environment).
pub fn strip_env(args: &[String]) -> (res: Result<&[String], StripTransparentWrapperError>)
    ensures
        strip_matches(args, res, env_from(tokens(args), 0, false)),
{
    let ghost t = tokens(args);
    let n = args.len();
    let mut i: usize = 0;
    let mut print_mode = false;
    loop
        invariant
            n == args@.len(),
            t == tokens(args),
            i <= n,
            env_from(t, 0, false) == env_from(t, i as int, print_mode),
        decreases n - i,
    {
        if i >= n {
            return env_finish_at(args, i, print_mode);
        }
        let arg: &str = args[i].as_str();
        assert(t[i as int] == arg@);
        if !is_dash(arg) {
            return env_finish_at(args, i, print_mode);
        }
        if str_eq(arg, "--") {
            return env_finish_at(args, i + 1, print_mode);
        }
        let (flag, inline) = split_flag(arg);
        if (str_eq(flag, "-") || str_eq(flag, "-i") || str_eq(flag, "--ignore-environment")
            || str_eq(flag, "-v") || str_eq(flag, "--debug") || str_eq(flag, "--list-signal-handling"))
            && inline.is_none() {
            i = i + 1;
        } else if str_eq(flag, "-u") || str_eq(flag, "--unset") {
            if inline.is_none() {
                if i + 1 >= n {
                    return Err(
                        StripTransparentWrapperError::MissingFlagValue { wrapper: "env", flag: err_str(flag) },
                    );
                }
                i = i + 2;
            } else {
                i = i + 1;
            }
        } else if str_eq(flag, "--default-signal") || str_eq(flag, "--ignore-signal") || str_eq(
            flag,
            "--block-signal",
        ) {
            match inline {
                Some(list) => {
                    if list.unicode_len() == 0 || !is_valid_signal_list(list) {
                        return Err(
                            StripTransparentWrapperError::InvalidFlagValue {
                                wrapper: "env",
                                flag: err_str(flag),
                                value: err_str(list),
                            },
                        );
                    }
                },
                None => {},
            }
            i = i + 1;
        } else if str_eq(flag, "-S") || str_eq(flag, "--split-string") || str_eq(flag, "-C")
            || str_eq(flag, "--chdir") || str_eq(flag, "-a") || str_eq(flag, "--argv0") || str_eq(
            flag,
            "-L",
        ) || str_eq(flag, "-U") || str_eq(flag, "-P") {
            return Err(
                StripTransparentWrapperError::UnsafeToStrip { wrapper: "env", construct: err_str(flag) },
            );
        } else if (str_eq(flag, "-0") || str_eq(flag, "--null")) && inline.is_none() {
            print_mode = true;
            i = i + 1;
        } else {
            return Err(
                StripTransparentWrapperError::UnknownOption { wrapper: "env", option: err_str(arg) },
            );
        }
    }
}

// ---------------------------------------------------------------------------
// nice
// ---------------------------------------------------------------------------

pub open spec fn nice_valued(f: Seq<char>) -> bool {
    f == "-n"@ || f == "--adjustment"@
}

/// `nice`'s arguments, parsed from position `i`.
pub open spec fn nice_from(t: Seq<Seq<char>>, i: int) -> Result<int, StripFailure>
    decreases t.len() - i,
{
    if i < 0 || i >= t.len() || !dash(t[i]) {
        Ok(i)
    } else if t[i] == "--"@ {
        Ok(i + 1)
    } else {
        let (flag, inline) = split_option(t[i]);
        if nice_valued(flag) {
            match inline {
                Some(v) => {
                    if valid_adjustment(v) {
                        nice_from(t, i + 1)
                    } else {
                        Err(StripFailure::InvalidFlagValue { wrapper: "nice"@, flag, value: v })
                    }
                },
                None => {
                    if i + 1 >= t.len() {
                        Err(StripFailure::MissingFlagValue { wrapper: "nice"@, flag })
                    } else if valid_adjustment(t[i + 1]) {
                        nice_from(t, i + 2)
                    } else {
                        Err(StripFailure::InvalidFlagValue { wrapper: "nice"@, flag, value: t[i + 1] })
                    }
                },
            }
        } else {
            Err(StripFailure::UnknownOption { wrapper: "nice"@, option: t[i] })
        }
    }
}

/// Strips a `nice` invocation's own arguments, returning the command it runs
/// (empty when `nice` only prints the niceness).
pub fn strip_nice(args: &[String]) -> (res: Result<&[String], StripTransparentWrapperError>)
    ensures
        strip_matches(args, res, nice_from(tokens(args), 0)),
{
    let ghost t = tokens(args);
    let n = args.len();
    let mut i: usize = 0;
    loop
        invariant
            n == args@.len(),
            t == tokens(args),
            i <= n,
            nice_from(t, 0) == nice_from(t, i as int),
        decreases n - i,
    {
        if i >= n {
            return Ok(slice_subrange(args, i, n));
        }
        let arg: &str = args[i].as_str();
        assert(t[i as int] == arg@);
        if !is_dash(arg) {
            return Ok(slice_subrange(args, i, n));
        }
        if str_eq(arg, "--") {
            return Ok(slice_subrange(args, i + 1, n));
        }
        let (flag, inline) = split_flag(arg);
        if str_eq(flag, "-n") || str_eq(flag, "--adjustment") {
            let value: &str = match inline {
                Some(v) => v,
                None => {
                    if i + 1 >= n {
                        return Err(
                            StripTransparentWrapperError::MissingFlagValue { wrapper: "nice", flag: err_str(flag) },
                        );
                    }
                    i = i + 1;
                    assert(t[i as int] == args@[i as int]@);
                    args[i].as_str()
                },
            };
            if !is_valid_adjustment(value) {
                return Err(
                    StripTransparentWrapperError::InvalidFlagValue {
                        wrapper: "nice",
                        flag: err_str(flag),
                        value: err_str(value),
                    },
                );
            }
            i = i + 1;
        } else {
            return Err(
                StripTransparentWrapperError::UnknownOption { wrapper: "nice", option: err_str(arg) },
            );
        }
    }
}

// ---------------------------------------------------------------------------
// nohup
// ---------------------------------------------------------------------------

/// `nohup`'s arguments: only `--` is understood.
pub open spec fn nohup_args(t: Seq<Seq<char>>) -> Result<int, StripFailure> {
    if t.len() > 0 && t[0] == "--"@ {
        Ok(1)
    } else if t.len() > 0 && dash(t[0]) {
        Err(StripFailure::UnknownOption { wrapper: "nohup"@, option: t[0] })
    } else {
        Ok(0)
    }
}

/// Strips a `nohup` invocation's own arguments, returning the command it runs.
pub fn strip_nohup(args: &[String]) -> (res: Result<&[String], StripTransparentWrapperError>)
    ensures
        strip_matches(args, res, nohup_args(tokens(args))),
{
    let n = args.len();
    if n > 0 {
        assert(tokens(args)[0] == args@[0]@);
        if str_eq(args[0].as_str(), "--") {
            return Ok(slice_subrange(args, 1, n));
        }
        if is_dash(args[0].as_str()) {
            return Err(
                StripTransparentWrapperError::UnknownOption { wrapper: "nohup", option: args[0].clone() },
            );
        }
    }
    assert(args@.subrange(0, n as int) == args@);
    Ok(args)
}


// ---------------------------------------------------------------------------
// the strip loop
// ---------------------------------------------------------------------------

/// What one wrapper layer named `name` makes of the tokens that follow it:
/// the wrapper's name, whether it may stand without a command (it then only
/// prints its state), and where its command starts in `rest`. `None` when
/// `name` is not a wrapper.
pub open spec fn layer(name: Seq<char>, rest: Seq<Seq<char>>) -> Option<(Seq<char>, bool, Result<int, StripFailure>)> {
    if name == "timeout"@ {
        Some(("timeout"@, false, timeout_from(rest, 0)))
    } else if name == "env"@ {
        Some(("env"@, true, env_from(rest, 0, false)))
    } else if name == "nice"@ {
        Some(("nice"@, true, nice_from(rest, 0)))
    } else if name == "nohup"@ {
        Some(("nohup"@, false, nohup_args(rest)))
    } else {
        None
    }
}

/// The innermost command of `t[s..]`, with `depth` layers already stripped.
/// Only bare names are wrappers (a path such as `./timeout` may be another
/// program), and `--help`/`--version` make the tool print instead of run.
pub open spec fn strip_from(t: Seq<Seq<char>>, s: int, depth: int) -> Result<int, StripFailure>
    decreases t.len() - s,
{
    if s < 0 || s >= t.len() || t[s].contains('/') {
        Ok(s)
    } else if s + 1 < t.len() && (t[s + 1] == "--help"@ || t[s + 1] == "--version"@) {
        Ok(s)
    } else {
        match layer(t[s], t.subrange(s + 1, t.len() as int)) {
            None => Ok(s),
            Some((wrapper, alone, Err(f))) => Err(f),
            Some((wrapper, alone, Ok(k))) => {
                let next = s + 1 + k;
                if k < 0 || next > t.len() {
                    Ok(s)
                } else if next == t.len() {
                    if alone {
                        Ok(s)
                    } else {
                        Err(StripFailure::InvalidCommand { wrapper, found: Seq::empty() })
                    }
                } else if dash(t[next]) {
                    Err(StripFailure::InvalidCommand { wrapper, found: t[next] })
                } else if depth + 1 > MAX_DEPTH {
                    Err(StripFailure::DepthExceeded)
                } else {
                    strip_from(t, next, depth + 1)
                }
            },
        }
    }
}

/// Bare command names are eligible for stripping; a path may be another program.
pub fn wrapper_name(arg0: &str) -> (r: Option<&str>)
    ensures
        r matches Some(n) ==> n@ == arg0@ && !arg0@.contains('/'),
        r is None ==> arg0@.contains('/'),
{
    if contains_char(arg0, '/') {
        None
    } else {
        Some(arg0)
    }
}

/// Strips every transparent wrapper layer off `argv`, returning the innermost
/// command.
pub fn strip_transparent_command(argv: &[String]) -> (res: Result<&[String], StripTransparentWrapperError>)
    ensures
        strip_matches(argv, res, strip_from(tokens(argv), 0, 0)),
{
    let ghost t = tokens(argv);
    let n = argv.len();
    let mut inner: &[String] = argv;
    let ghost mut s: int = 0;
    let mut depth: usize = 0;
    assert(argv@.subrange(0, n as int) == argv@);
    loop
        invariant
            n == argv@.len(),
            t == tokens(argv),
            0 <= s <= n,
            depth <= MAX_DEPTH,
            inner@ == argv@.subrange(s, n as int),
            strip_from(t, 0, 0) == strip_from(t, s, depth as int),
        decreases inner@.len(),
    {
        let m = inner.len();
        if m == 0 {
            return Ok(inner);
        }
        assert(inner@[0] == argv@[s]);
        assert(t[s] == inner@[0]@);
        let name = match wrapper_name(inner[0].as_str()) {
            Some(nm) => nm,
            None => {
                return Ok(inner);
            },
        };
        if m > 1 {
            assert(inner@[1] == argv@[s + 1]);
            assert(t[s + 1] == inner@[1]@);
            if str_eq(inner[1].as_str(), "--help") || str_eq(inner[1].as_str(), "--version") {
                return Ok(inner);
            }
        }
        let rest_in = slice_subrange(inner, 1, m);
        assert(tokens(rest_in) =~= t.subrange(s + 1, n as int));
        let (wrapper, alone, r): (&'static str, bool, Result<&[String], StripTransparentWrapperError>) =
            if str_eq(name, "timeout") {
            ("timeout", false, strip_timeout(rest_in))
        } else if str_eq(name, "env") {
            ("env", true, strip_env(rest_in))
        } else if str_eq(name, "nice") {
            ("nice", true, strip_nice(rest_in))
        } else if str_eq(name, "nohup") {
            ("nohup", false, strip_nohup(rest_in))
        } else {
            return Ok(inner);
        };
        let ghost sub = layer(t[s], t.subrange(s + 1, n as int));
        assert(sub matches Some((w, a, x)) && w == wrapper@ && a == alone && strip_matches(rest_in, r, x));
        let rest = match r {
            Ok(x) => x,
            Err(e) => {
                return Err(e);
            },
        };
        let ghost k: int = match sub {
            Some((_, _, Ok(k))) => k,
            _ => 0,
        };
        assert(rest@ == argv@.subrange(s + 1 + k, n as int));
        if rest.len() == 0 {
            if alone {
                return Ok(inner);
            }
            return Err(StripTransparentWrapperError::InvalidCommand { wrapper, found: String::new() });
        }
        assert(rest@[0] == argv@[s + 1 + k]);
        assert(t[s + 1 + k] == rest@[0]@);
        if is_dash(rest[0].as_str()) {
            return Err(StripTransparentWrapperError::InvalidCommand { wrapper, found: rest[0].clone() });
        }
        if depth + 1 > MAX_DEPTH {
            return Err(StripTransparentWrapperError::DepthExceeded);
        }
        inner = rest;
        proof {
            s = s + 1 + k;
        }
        depth = depth + 1;
    }
}

/// Whether stripping stops at `t[s]`, keeping it as the command: past the
/// end, a path, a tool asked for help or its version, no wrapper, a
/// wrapper whose options run past the end, or one that may stand alone
/// with nothing after it.
pub open spec fn stops_at(t: Seq<Seq<char>>, s: int) -> bool {
    if s < 0 || s >= t.len() || t[s].contains('/') {
        true
    } else if s + 1 < t.len() && (t[s + 1] == "--help"@ || t[s + 1] == "--version"@) {
        true
    } else {
        match layer(t[s], t.subrange(s + 1, t.len() as int)) {
            None => true,
            Some((_, alone, Ok(k))) => k < 0 || s + 1 + k > t.len() || (s + 1 + k == t.len() && alone),
            Some((_, _, Err(_))) => false,
        }
    }
}

proof fn lemma_strip_stops(t: Seq<Seq<char>>, s: int, depth: int)
    requires
        0 <= s <= t.len(),
    ensures
        strip_from(t, s, depth) matches Ok(r) ==> s <= r <= t.len() && stops_at(t, r),
    decreases t.len() - s,
{
    if s < t.len() && !t[s].contains('/') && !(s + 1 < t.len() && (t[s + 1] == "--help"@ || t[s + 1] == "--version"@)) {
        match layer(t[s], t.subrange(s + 1, t.len() as int)) {
            Some((_, _, Ok(k))) => {
                let next = s + 1 + k;
                if k >= 0 && next < t.len() && !dash(t[next]) && depth + 1 <= MAX_DEPTH {
                    lemma_strip_stops(t, next, depth + 1);
                }
            },
            _ => {},
        }
    }
}

proof fn lemma_stops_shift(t: Seq<Seq<char>>, r: int)
    requires
        0 <= r <= t.len(),
        stops_at(t, r),
    ensures
        stops_at(t.subrange(r, t.len() as int), 0),
{
    let u = t.subrange(r, t.len() as int);
    if r < t.len() {
        assert(u[0] == t[r]);
        if 1 < u.len() {
            assert(u[1] == t[r + 1]);
        }
        assert(u.subrange(1, u.len() as int) =~= t.subrange(r + 1, t.len() as int));
    }
}

/// Stripping keeps nothing that a second strip would remove: the command it
/// gives is its own innermost command.
pub proof fn stripping_twice_changes_nothing(t: Seq<Seq<char>>)
    ensures
        strip_from(t, 0, 0) matches Ok(r) ==> 0 <= r <= t.len() && strip_from(t.subrange(r, t.len() as int), 0, 0) == Ok::<int, StripFailure>(0int),
{
    lemma_strip_stops(t, 0, 0);
    if let Ok(r) = strip_from(t, 0, 0) {
        lemma_stops_shift(t, r);
        let u = t.subrange(r, t.len() as int);
        if 0 < u.len() && !u[0].contains('/') && !(1 < u.len() && (u[1] == "--help"@ || u[1] == "--version"@)) {
            assert(layer(u[0], u.subrange(1, u.len() as int)) matches Some((_, _, Ok(_))) || layer(u[0], u.subrange(1, u.len() as int)) is None);
        }
    }
}

} // verus!
