use mlir_pipeline_utils::marker::{
    is_marker_shaped, is_space_char, matches_at, parse_marker_line, str_eq, trim, LogInfo, LogKind,
};

fn info(kind: LogKind, name: &str, extras: &str) -> LogInfo {
    LogInfo {
        pass_name: name.to_string(),
        pass_cmdline_opt_and_extras: extras.to_string(),
        kind,
    }
}

#[test]
fn short_tags() {
    assert_eq!(LogKind::Before.short(), "0b");
    assert_eq!(LogKind::After.short(), "1a");
    assert_eq!(LogKind::Unknown.short(), "2u");
}

#[test]
fn short_tags_sort_as_kinds() {
    assert!(LogKind::Before.short() < LogKind::After.short());
    assert!(LogKind::After.short() < LogKind::Unknown.short());
}

#[test]
fn kind_from_token() {
    assert_eq!(LogKind::from("Before"), LogKind::Before);
    assert_eq!(LogKind::from("After"), LogKind::After);
    assert_eq!(LogKind::from("before"), LogKind::Unknown);
    assert_eq!(LogKind::from("Afterwards"), LogKind::Unknown);
    assert_eq!(LogKind::from(""), LogKind::Unknown);
}

#[test]
fn kind_from_short_tag() {
    assert_eq!(LogKind::from_short("0b"), Some(LogKind::Before));
    assert_eq!(LogKind::from_short("1a"), Some(LogKind::After));
    assert_eq!(LogKind::from_short("2u"), Some(LogKind::Unknown));
    assert_eq!(LogKind::from_short("3x"), None);
    assert_eq!(LogKind::from_short("0"), None);
}

#[test]
fn marker_line_after() {
    let line = "// -----// IR Dump After LinalgNamedOpConversion (linalg-named-op-conversion) //----- //\n";
    assert_eq!(
        parse_marker_line(line),
        Some(info(
            LogKind::After,
            "LinalgNamedOpConversion",
            "(linalg-named-op-conversion)"
        ))
    );
}

#[test]
fn marker_line_before_with_spaces_in_extras() {
    let line = "// -----// IR Dump Before Canonicalizer (canonicalize) ('func.func' operation: @main) //----- //\n";
    assert_eq!(
        parse_marker_line(line),
        Some(info(
            LogKind::Before,
            "Canonicalizer",
            "(canonicalize) ('func.func' operation: @main)"
        ))
    );
}

#[test]
fn marker_line_unknown_kind_is_still_a_marker() {
    let line = "// -----// IR Dump During Foo (foo) //----- //\n";
    assert_eq!(
        parse_marker_line(line),
        Some(info(LogKind::Unknown, "Foo", "(foo)"))
    );
}

#[test]
fn marker_payload_is_trimmed() {
    let line = "// -----// IR Dump   \tAfter Foo (foo) \u{a0} //----- //\n";
    assert_eq!(
        parse_marker_line(line),
        Some(info(LogKind::After, "Foo", "(foo)"))
    );
}

#[test]
fn marker_second_space_splits_at_once() {
    let line = "// -----// IR Dump After  Foo //----- //\n";
    assert_eq!(parse_marker_line(line), Some(info(LogKind::After, "", "Foo")));
}

#[test]
fn marker_with_two_tokens_is_content() {
    let line = "// -----// IR Dump After Foo //----- //\n";
    assert!(is_marker_shaped(line));
    assert_eq!(parse_marker_line(line), None);
}

#[test]
fn marker_with_empty_payload_is_content() {
    let line = "// -----// IR Dump  //----- //\n";
    assert!(is_marker_shaped(line));
    assert_eq!(parse_marker_line(line), None);
}

#[test]
fn marker_needs_the_line_feed() {
    let line = "// -----// IR Dump After Foo (foo) //----- //";
    assert!(!is_marker_shaped(line));
    assert_eq!(parse_marker_line(line), None);
}

#[test]
fn marker_needs_the_prefix() {
    let line = " // -----// IR Dump After Foo (foo) //----- //\n";
    assert!(!is_marker_shaped(line));
    assert_eq!(parse_marker_line(line), None);
}

#[test]
fn marker_prefix_and_suffix_do_not_overlap() {
    assert_eq!(parse_marker_line("// -----// IR Dump //----- //\n"), None);
    assert!(!is_marker_shaped("// -----// IR Dump //----- //\n"));
    assert_eq!(parse_marker_line(""), None);
    assert_eq!(parse_marker_line("\n"), None);
}

#[test]
fn ordinary_line_is_content() {
    assert_eq!(parse_marker_line("module {\n"), None);
    assert!(!is_marker_shaped("module {\n"));
}

#[test]
fn trim_cuts_both_ends() {
    assert_eq!(trim("  a b \t\n"), "a b");
    assert_eq!(trim(""), "");
    assert_eq!(trim(" \u{2003} "), "");
    assert_eq!(trim("x"), "x");
    assert_eq!(trim("\u{3000}é \u{1680}"), "é");
}

#[test]
fn space_is_unicode_white_space() {
    for c in ['\t', '\n', '\u{b}', '\u{c}', '\r', ' ', '\u{85}', '\u{a0}', '\u{1680}', '\u{2000}',
        '\u{200a}', '\u{2028}', '\u{2029}', '\u{202f}', '\u{205f}', '\u{3000}']
    {
        assert!(is_space_char(c));
        assert!(c.is_whitespace());
    }
    for c in ['a', '0', '\u{200b}', '\u{feff}', '\u{1c}', '\u{8}', '\u{e}'] {
        assert_eq!(is_space_char(c), c.is_whitespace());
    }
}

#[test]
fn matches_at_offsets() {
    assert!(matches_at("hello", 0, "he"));
    assert!(matches_at("hello", 3, "lo"));
    assert!(matches_at("hello", 5, ""));
    assert!(!matches_at("hello", 4, "lo"));
    assert!(!matches_at("hello", 6, ""));
    assert!(!matches_at("hello", 1, "he"));
    assert!(str_eq("é", "é"));
    assert!(!str_eq("e", "é"));
    assert!(!str_eq("ab", "abc"));
}

#[test]
fn kinds_are_ordered() {
    assert_eq!(LogKind::Before.order(), 0);
    assert_eq!(LogKind::After.order(), 1);
    assert_eq!(LogKind::Unknown.order(), 2);
    for k in [LogKind::Before, LogKind::After, LogKind::Unknown] {
        assert_eq!(LogKind::from_short(k.short()), Some(k));
    }
}
