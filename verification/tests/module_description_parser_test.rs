use tinymesh_cc_tool::module_description_parser::parse_module_description;

fn sample_description() -> String {
    [
        "// RF TM4070 module description",
        "[DEVICE_MODEL]",
        "RF TM4070",
        "",
        "[TESTMODE NUMBER]",
        "2",
        "[TESTMODE 1 NAME]",
        "Carrier on",
        "[TESTMODE 1 SEQUENCE_ON]",
        "aG #>",
        "[M EDITABLE_CELLS]",
        "0x00 0x01 4",
        "[M LOCKED_CELLS]",
        "0x03",
        "[M 0x00 NAME]",
        "RF Channel // the active channel",
        "[M 0x00 DEF]",
        "1",
        "[M 0x00 MIN_MAX]",
        "1 10",
        "[M 0x00 ALLOW]",
        "1 2 3 4 5 6 7 8 9 10",
        "[EXTRA SECTION]",
        "left alone",
    ]
    .join("\n")
}

#[test]
fn test_parse_module_description() {
    let text = sample_description();
    let result = parse_module_description(&text);
    assert_eq!(result.get("DEVICE_MODEL").unwrap().as_str(), "RF TM4070");
}

#[test]
fn test_comments_and_blank_lines_are_dropped() {
    let text = "[A] // section\nvalue // trailing\n\n// only comment\n[B]\nother\n";
    let result = parse_module_description(text);
    assert_eq!(result.get("A").unwrap().as_str(), "value");
    assert_eq!(result.get("B").unwrap().as_str(), "other");
}

#[test]
fn test_empty_section_is_dropped() {
    let text = "[A]\n[B]\nbody\n";
    let result = parse_module_description(text);
    assert!(result.get("A").is_none());
    assert_eq!(result.get("B").unwrap().as_str(), "body");
}

#[test]
fn test_duplicate_section_overwrites() {
    let text = "[A]\nfirst\n[A]\nsecond\n";
    let result = parse_module_description(text);
    assert_eq!(result.get("A").unwrap().as_str(), "second");
    assert_eq!(result.len(), 1);
}

#[test]
fn test_multi_line_bodies_keep_line_feeds() {
    let text = "[A]\none\ntwo\n";
    let result = parse_module_description(text);
    assert_eq!(result.get("A").unwrap().as_str(), "one\ntwo");
}
