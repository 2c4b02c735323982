use paloma_core::capability::process::ProcessExecRequest;
use paloma_core::capability::shell_output::{decimal_string, format_output, format_stream, CapturedStream};

fn stream(text: &str, total: u64, truncated: bool, spill: Option<&str>) -> CapturedStream {
    CapturedStream {
        text: text.into(),
        total_bytes: total,
        truncated,
        spill_path: spill.map(str::to_string),
    }
}

#[test]
fn numbers_in_decimal() {
    assert_eq!(decimal_string(0), "0");
    assert_eq!(decimal_string(102400), "102400");
}

#[test]
fn stream_elements() {
    assert_eq!(
        format_stream("stdout", &stream("hello", 5, false, None)),
        "<stdout\n  total_bytes=\"5\"\n><![CDATA[hello]]></stdout>"
    );
    assert_eq!(format_stream("stderr", &stream("", 0, false, None)), "<stderr\n  total_bytes=\"0\"\n></stderr>");
    assert_eq!(
        format_stream("stdout", &stream("AB", 9, true, Some("/tmp/scry/c/out"))),
        "<stdout\n  total_bytes=\"9\"\n  truncated=\"true\"\n  full_output=\"/tmp/scry/c/out\"\n><![CDATA[AB...]]></stdout>"
    );
}

#[test]
fn command_report() {
    let request = ProcessExecRequest {
        session_id: 1,
        call_id: "call_stdout".into(),
        command: vec!["printf".into(), "hello".into()],
        cwd: "/work".into(),
    };
    let text = format_output(
        &request,
        "0",
        false,
        12,
        &stream("hello", 5, false, None),
        &stream("", 0, false, None),
    );
    assert!(text.starts_with("<shell_output\n  command=\"printf hello\"\n  workdir=\"/work\"\n  exec_id=\"call_stdout\"\n"));
    assert!(text.contains("exit_code=\"0\""));
    assert!(text.contains("duration_ms=\"12\""));
    assert!(text.contains("<![CDATA[hello]]>"));
    assert!(!text.contains("truncated=\"true\""));
    assert!(!text.contains("timed_out"));
    assert!(text.ends_with("</stderr>\n</shell_output>"));
}
