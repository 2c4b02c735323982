//! The report of a shell command handed to the model: an element per
//! stream inside a `shell_output` element, attributes one per line, stream
//! text as CDATA.
use vstd::prelude::*;
use vstd::string::*;
use crate::capability::process::ProcessExecRequest;
use crate::controller::permission_workflow::{join_space, join_words};
use crate::permission::transparent::tokens;
use crate::text::push_char;

verus! {

/// One output stream of a finished command.
#[derive(Debug, Default)]
pub struct CapturedStream {
    /// The kept prefix, without ANSI escapes.
    pub text: String,
    /// Every byte the process wrote, kept or not.
    pub total_bytes: u64,
    /// Some output went past the kept prefix.
    pub truncated: bool,
    /// Where the whole output was spilled, if it was.
    pub spill_path: Option<String>,
}

/// The decimal digits of `n`.
pub open spec fn decimal(n: nat) -> Seq<char>
    decreases n,
{
    if n < 10 {
        seq![(('0' as u32) + n) as char]
    } else {
        decimal(n / 10) + seq![(('0' as u32) + (n % 10)) as char]
    }
}

/// `n` in decimal.
pub fn decimal_string(n: u128) -> (r: String)
    ensures
        r@ == decimal(n as nat),
    decreases n,
{
    let b: u8 = 48 + (n % 10) as u8;
    let c = b as char;
    assert(c == (('0' as u32) + (n % 10)) as char);
    if n < 10 {
        let mut r = String::new();
        push_char(&mut r, c);
        r
    } else {
        let mut r = decimal_string(n / 10);
        push_char(&mut r, c);
        r
    }
}

/// The attributes of an element, each on a line of its own.
pub open spec fn attr_lines(attrs: Seq<(Seq<char>, Seq<char>)>) -> Seq<char>
    decreases attrs.len(),
{
    if attrs.len() == 0 {
        Seq::empty()
    } else {
        attr_lines(attrs.drop_last()) + "\n  "@ + attrs.last().0 + "=\""@ + attrs.last().1 + "\""@
    }
}

/// An opening tag: the tag alone, or the tag, its attribute lines and `>`
/// on a line of its own.
pub open spec fn open_tag(tag: Seq<char>, attrs: Seq<(Seq<char>, Seq<char>)>) -> Seq<char> {
    if attrs.len() == 0 {
        "<"@ + tag + ">"@
    } else {
        "<"@ + tag + attr_lines(attrs) + "\n>"@
    }
}

/// An element without children, with its text as CDATA if it has one.
pub open spec fn leaf(tag: Seq<char>, attrs: Seq<(Seq<char>, Seq<char>)>, body: Option<Seq<char>>) -> Seq<char> {
    open_tag(tag, attrs) + match body {
        Some(b) => "<![CDATA["@ + b + "]]>"@,
        None => Seq::empty(),
    } + "</"@ + tag + ">"@
}

/// An element with two children, each on a line of its own.
pub open spec fn parent2(tag: Seq<char>, attrs: Seq<(Seq<char>, Seq<char>)>, a: Seq<char>, b: Seq<char>) -> Seq<char> {
    open_tag(tag, attrs) + "\n"@ + a + "\n"@ + b + "\n"@ + "</"@ + tag + ">"@
}

fn append_attr_lines(out: &mut String, keys: &Vec<&str>, values: &Vec<String>)
    requires
        keys@.len() == values@.len(),
    ensures
        final(out)@ == old(out)@ + attr_lines(Seq::new(keys@.len(), |i: int| (keys@[i]@, values@[i]@))),
{
    let ghost start = out@;
    let ghost all = Seq::new(keys@.len(), |i: int| (keys@[i]@, values@[i]@));
    let n = keys.len();
    let mut i: usize = 0;
    proof {
        reveal_strlit("\n  ");
        reveal_strlit("=\"");
        reveal_strlit("\"");
    }
    assert(all.subrange(0, 0) =~= Seq::<(Seq<char>, Seq<char>)>::empty());
    while i < n
        invariant
            n == keys@.len(),
            n == values@.len(),
            all == Seq::new(keys@.len(), |i: int| (keys@[i]@, values@[i]@)),
            i <= n,
            out@ == start + attr_lines(all.subrange(0, i as int)),
        decreases n - i,
    {
        let ghost before = out@;
        out.append("\n  ");
        out.append(keys[i]);
        out.append("=\"");
        out.append(values[i].as_str());
        out.append("\"");
        assert(all.subrange(0, i + 1).drop_last() =~= all.subrange(0, i as int));
        assert(all.subrange(0, i + 1).last() == (keys@[i as int]@, values@[i as int]@));
        assert(out@ =~= before + "\n  "@ + keys@[i as int]@ + "=\""@ + values@[i as int]@ + "\""@);
        i = i + 1;
    }
    assert(all.subrange(0, n as int) =~= all);
}

pub(crate) fn open_tag_string(tag: &str, keys: &Vec<&str>, values: &Vec<String>) -> (r: String)
    requires
        keys@.len() == values@.len(),
    ensures
        r@ == open_tag(tag@, Seq::new(keys@.len(), |i: int| (keys@[i]@, values@[i]@))),
{
    let mut r = "<".to_owned();
    r.append(tag);
    if keys.len() == 0 {
        r.append(">");
    } else {
        append_attr_lines(&mut r, keys, values);
        r.append("\n>");
    }
    r
}

/// The attributes of a stream's element: its byte count, whether it was
/// truncated, and where its whole output lies.
pub open spec fn stream_attrs(s: CapturedStream) -> Seq<(Seq<char>, Seq<char>)> {
    seq![("total_bytes"@, decimal(s.total_bytes as nat))]
        + (if s.truncated { seq![("truncated"@, "true"@)] } else { Seq::empty() })
        + match s.spill_path {
            Some(p) => seq![("full_output"@, p@)],
            None => Seq::empty(),
        }
}

/// A stream's text as shown: with `...` after a truncated prefix; none when
/// there is neither text nor truncation.
pub open spec fn stream_body(s: CapturedStream) -> Option<Seq<char>> {
    if s.text@.len() > 0 || s.truncated {
        Some(if s.truncated { s.text@ + "..."@ } else { s.text@ })
    } else {
        None
    }
}

pub open spec fn stream_element(name: Seq<char>, s: CapturedStream) -> Seq<char> {
    leaf(name, stream_attrs(s), stream_body(s))
}

/// The element of one output stream.
pub fn format_stream(name: &str, s: &CapturedStream) -> (r: String)
    ensures
        r@ == stream_element(name@, *s),
{
    let mut keys: Vec<&str> = Vec::new();
    let mut values: Vec<String> = Vec::new();
    keys.push("total_bytes");
    values.push(decimal_string(s.total_bytes as u128));
    if s.truncated {
        keys.push("truncated");
        values.push("true".to_owned());
    }
    match &s.spill_path {
        Some(p) => {
            keys.push("full_output");
            values.push(p.clone());
        },
        None => {},
    }
    assert(Seq::new(keys@.len(), |i: int| (keys@[i]@, values@[i]@)) =~= stream_attrs(*s));
    let mut r = open_tag_string(name, &keys, &values);
    if s.text.as_str().unicode_len() > 0 || s.truncated {
        r.append("<![CDATA[");
        r.append(s.text.as_str());
        if s.truncated {
            r.append("...");
        }
        r.append("]]>");
    }
    r.append("</");
    r.append(name);
    r.append(">");
    r
}

/// The attributes of a command's report: the command, its directory, the
/// call it ran for, whether it timed out, its exit status and its duration.
pub open spec fn output_attrs(
    command: Seq<Seq<char>>,
    cwd: Seq<char>,
    call_id: Seq<char>,
    status_text: Seq<char>,
    timed_out: bool,
    duration_ms: nat,
) -> Seq<(Seq<char>, Seq<char>)> {
    seq![("command"@, join_words(command)), ("workdir"@, cwd), ("exec_id"@, call_id)]
        + (if timed_out { seq![("timed_out"@, "true"@)] } else { Seq::empty() })
        + seq![("exit_code"@, status_text), ("duration_ms"@, decimal(duration_ms))]
}

/// The report of a finished command: its attributes, then its stdout and
/// stderr elements.
pub fn format_output(
    request: &ProcessExecRequest,
    status_text: &str,
    timed_out: bool,
    duration_ms: u128,
    stdout: &CapturedStream,
    stderr: &CapturedStream,
) -> (r: String)
    ensures
        r@ == parent2(
            "shell_output"@,
            output_attrs(request.command.deep_view(), request.cwd@, request.call_id@, status_text@, timed_out, duration_ms as nat),
            stream_element("stdout"@, *stdout),
            stream_element("stderr"@, *stderr),
        ),
{
    let mut keys: Vec<&str> = Vec::new();
    let mut values: Vec<String> = Vec::new();
    let cs = request.command.as_slice();
    assert(tokens(cs) =~= request.command.deep_view());
    keys.push("command");
    values.push(join_space(cs));
    keys.push("workdir");
    values.push(request.cwd.clone());
    keys.push("exec_id");
    values.push(request.call_id.clone());
    if timed_out {
        keys.push("timed_out");
        values.push("true".to_owned());
    }
    keys.push("exit_code");
    values.push(status_text.to_owned());
    keys.push("duration_ms");
    values.push(decimal_string(duration_ms));
    assert(Seq::new(keys@.len(), |i: int| (keys@[i]@, values@[i]@)) =~= output_attrs(
        request.command.deep_view(),
        request.cwd@,
        request.call_id@,
        status_text@,
        timed_out,
        duration_ms as nat,
    ));
    let mut r = open_tag_string("shell_output", &keys, &values);
    r.append("\n");
    let out = format_stream("stdout", stdout);
    r.append(out.as_str());
    r.append("\n");
    let err = format_stream("stderr", stderr);
    r.append(err.as_str());
    r.append("\n</shell_output>");
    proof {
        reveal_strlit("\n</shell_output>");
        reveal_strlit("\n");
        reveal_strlit("</");
        reveal_strlit(">");
        reveal_strlit("shell_output");
    }
    assert(r@ =~= parent2(
        "shell_output"@,
        output_attrs(request.command.deep_view(), request.cwd@, request.call_id@, status_text@, timed_out, duration_ms as nat),
        stream_element("stdout"@, *stdout),
        stream_element("stderr"@, *stderr),
    ));
    r
}

} // verus!
