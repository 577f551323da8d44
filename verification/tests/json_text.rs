use cross_section_ui::json_text::extract_json_from_text;

#[test]
fn plain_reply_is_trimmed() {
    assert_eq!(extract_json_from_text("  [1, 2]\n"), "[1, 2]");
}

#[test]
fn fenced_json_block() {
    let reply = "Here it is:\n```json\n[{\"a\": 1}]\n```\nDone.";
    assert_eq!(extract_json_from_text(reply), "[{\"a\": 1}]");
}

#[test]
fn fence_without_tag_and_without_closing() {
    assert_eq!(extract_json_from_text("```\n{}\n```"), "{}");
    assert_eq!(extract_json_from_text("x ```json {\"k\":2}"), "{\"k\":2}");
    assert_eq!(extract_json_from_text("``````"), "");
    assert_eq!(extract_json_from_text("``"), "``");
}
