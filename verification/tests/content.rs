use paloma_core::capability::process::MAX_STREAM_PAYLOAD_BYTES;
use paloma_core::capability::ToolResult;
use paloma_core::extension::content::{
    augment_tool_response, render_content, response_spills, spill_texts, total_text_bytes,
    ContentBody, ToolContent,
};

fn node(tag: &str) -> ToolContent {
    ToolContent { tag: tag.to_string(), attributes: Vec::new(), body: None, children: Vec::new() }
}

fn text(tag: &str, body: &str) -> ToolContent {
    ToolContent { body: Some(ContentBody::Text(body.to_string())), ..node(tag) }
}

fn with_children(mut parent: ToolContent, children: Vec<ToolContent>) -> ToolContent {
    parent.children = children;
    parent
}

#[test]
fn renders_tree_with_attrs_and_children_in_order() {
    let mut root = node("shell_output");
    root.attributes.push(("exit_code".to_string(), "0".to_string()));
    let content = with_children(root, vec![text("stdout", "hello"), node("stderr")]);

    let rendered = render_content(&content, None, &Vec::new());

    assert_eq!(
        rendered,
        "<shell_output\n  exit_code=\"0\"\n>\n<stdout><![CDATA[hello]]></stdout>\n<stderr></stderr>\n</shell_output>"
    );
}

#[test]
fn renders_nested_children() {
    let content = with_children(
        node("root"),
        vec![with_children(node("a"), vec![text("b", "x")]), node("c")],
    );

    let rendered = render_content(&content, None, &Vec::new());

    assert_eq!(rendered, "<root>\n<a>\n<b><![CDATA[x]]></b>\n</a>\n<c></c>\n</root>");
}

#[test]
fn over_budget_body_truncates_spills_and_annotates() {
    let content = text("stdout", "hello world");
    let total = "hello world".len() * MAX_STREAM_PAYLOAD_BYTES / 5;

    assert_eq!(spill_texts(&content, Some(total)), vec!["hello world".to_string()]);
    let rendered = render_content(&content, Some(total), &vec![Some("/spill/tc_trunc/part-0".to_string())]);

    assert!(rendered.contains("total_bytes=\"11\""), "got: {rendered}");
    assert!(rendered.contains("truncated=\"true\""), "got: {rendered}");
    assert!(rendered.contains("full_output=\"/spill/tc_trunc/part-0\""), "got: {rendered}");
    assert!(rendered.contains("<![CDATA[hello...]]>"), "got: {rendered}");
}

#[test]
fn truncation_respects_char_boundaries() {
    let content = text("stdout", "résumé.txt not found");
    let total = "résumé.txt not found".len() * MAX_STREAM_PAYLOAD_BYTES / 2;

    assert_eq!(spill_texts(&content, Some(total)), vec!["résumé.txt not found".to_string()]);
    let rendered = render_content(&content, Some(total), &vec![Some("/spill/tc_boundary/part-0".to_string())]);

    assert!(rendered.contains("total_bytes=\"22\""), "got: {rendered}");
    assert!(rendered.contains("truncated=\"true\""), "got: {rendered}");
    assert!(rendered.contains("full_output=\"/spill/tc_boundary/part-0\""), "got: {rendered}");
    assert!(rendered.contains("<![CDATA[r...]]>"), "got: {rendered}");
}

#[test]
fn same_tag_siblings_spill_to_separate_files() {
    let content = with_children(
        node("results"),
        vec![text("match", "first payload"), text("match", "second payload")],
    );
    let total = ("first payload".len() + "second payload".len()) * MAX_STREAM_PAYLOAD_BYTES / 4;

    let mut spilled = spill_texts(&content, Some(total));
    // the later sibling is spilled first
    assert_eq!(spilled, vec!["second payload".to_string(), "first payload".to_string()]);
    spilled.sort();
    assert_eq!(spilled, vec!["first payload".to_string(), "second payload".to_string()]);

    let rendered = render_content(
        &content,
        Some(total),
        &vec![Some("/spill/part-0".to_string()), Some("/spill/part-1".to_string())],
    );
    assert_eq!(
        rendered,
        "<results>\n\
         <match\n  total_bytes=\"13\"\n  truncated=\"true\"\n  full_output=\"/spill/part-1\"\n><![CDATA[f...]]></match>\n\
         <match\n  total_bytes=\"14\"\n  truncated=\"true\"\n  full_output=\"/spill/part-0\"\n><![CDATA[se...]]></match>\n\
         </results>"
    );
}

#[test]
fn same_tag_siblings_both_count_toward_total() {
    let content = with_children(node("results"), vec![text("match", "aaaa"), text("match", "bbbbbb")]);

    assert_eq!(total_text_bytes(&content), 10);
}

#[test]
fn binary_body_renders_as_empty_element() {
    let content = ToolContent {
        body: Some(ContentBody::Binary { mime_type: "image/png".to_string(), data: vec![1, 2, 3] }),
        ..node("blob")
    };

    assert_eq!(render_content(&content, None, &Vec::new()), "<blob></blob>");
}

#[test]
fn failed_spill_omits_the_full_output_attribute() {
    let content = text("stdout", "hello world");
    let total = "hello world".len() * MAX_STREAM_PAYLOAD_BYTES / 5;
    let rendered = render_content(&content, Some(total), &vec![None]);
    assert_eq!(rendered, "<stdout\n  total_bytes=\"11\"\n  truncated=\"true\"\n><![CDATA[hello...]]></stdout>");
}

#[test]
fn small_response_is_rendered_whole() {
    let content = with_children(node("r"), vec![text("a", "x"), text("b", "y")]);
    assert!(response_spills(&content).is_empty());
    match augment_tool_response(&content, &Vec::new()) {
        ToolResult::Text(t) => assert_eq!(t, "<r>\n<a><![CDATA[x]]></a>\n<b><![CDATA[y]]></b>\n</r>"),
        _ => panic!("expected text"),
    }
}

#[test]
fn large_response_keeps_shares_of_the_limit() {
    let big = "x".repeat(MAX_STREAM_PAYLOAD_BYTES * 2);
    let content = with_children(node("r"), vec![text("a", &big), text("b", "tiny")]);
    let total = big.len() + 4;
    // "tiny" gets a share of one byte: it is cut too, and spilled first
    let spills = response_spills(&content);
    assert_eq!(spills, vec!["tiny".to_string(), big.clone()]);
    let paths = vec![Some("/spill/part-0".to_string()), Some("/spill/part-1".to_string())];
    match augment_tool_response(&content, &paths) {
        ToolResult::Text(t) => {
            let share = big.len() * MAX_STREAM_PAYLOAD_BYTES / total;
            assert!(t.contains(&format!("full_output=\"/spill/part-1\"\n><![CDATA[{}...]]></a>", "x".repeat(share))));
            assert!(t.contains("full_output=\"/spill/part-0\"\n><![CDATA[t...]]></b>"));
            assert!(share + 1 <= MAX_STREAM_PAYLOAD_BYTES);
        }
        _ => panic!("expected text"),
    }
}
