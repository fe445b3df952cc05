use subagents::definition::SubAgentMode;
use subagents::frontmatter::{parse_frontmatter, parse_mode, split_list};

fn assert_plain(content: &str) {
    let (desc, allowed, blocked, mode, body) = parse_frontmatter(content);
    assert_eq!(desc, None);
    assert!(allowed.is_empty());
    assert!(blocked.is_empty());
    assert_eq!(mode, None);
    assert_eq!(body, content);
}

#[test]
fn parses_frontmatter_and_strips_from_body() {
    let content = "---\nname: ignored\ndescription: \"Sub-agent\"\ntools_allowed: run,read\ntools_blocked: write, net\nmode: full-auto\n---\nBody text";
    let (desc, allowed, blocked, mode, body) = parse_frontmatter(content);
    assert_eq!(desc.as_deref(), Some("Sub-agent"));
    assert_eq!(allowed, vec!["run", "read"]);
    assert_eq!(blocked, vec!["write", "net"]);
    assert_eq!(mode, Some(SubAgentMode::FullAuto));
    assert_eq!(body, "Body text");
}

#[test]
fn parse_frontmatter_preserves_body_newlines() {
    let content = "---\r\ndescription: \"Line endings\"\r\n---\r\nFirst line\r\nSecond line\r\n";
    let (_, allowed, blocked, mode, body) = parse_frontmatter(content);
    assert!(allowed.is_empty());
    assert!(blocked.is_empty());
    assert_eq!(mode, None);
    assert_eq!(body, "First line\r\nSecond line\r\n");
}

#[test]
fn document_without_opening_marker_is_all_body() {
    assert_plain("");
    assert_plain("Just a prompt\nwith two lines\n");
    assert_plain("description: not metadata\n---\nbody");
    assert_plain("----\ndescription: four hyphens\n---\nbody");
    assert_plain("\n---\ndescription: marker on second line\n---\nbody");
}

#[test]
fn unterminated_block_is_all_body() {
    assert_plain("---\ndescription: never closed\nmode: full-auto\n");
    assert_plain("---");
    assert_plain("---\n");
    assert_plain("---\n--- x\n");
}

#[test]
fn marker_lines_may_carry_surrounding_whitespace() {
    let (desc, _, _, _, body) = parse_frontmatter(" \t---  \r\ndescription: d\n\u{3000}---\u{a0}\nrest");
    assert_eq!(desc.as_deref(), Some("d"));
    assert_eq!(body, "rest");
}

#[test]
fn body_is_empty_when_nothing_follows_the_block() {
    let (desc, _, _, _, body) = parse_frontmatter("---\ndescription: d\n---");
    assert_eq!(desc.as_deref(), Some("d"));
    assert_eq!(body, "");
    let (_, _, _, _, body) = parse_frontmatter("---\n---\n");
    assert_eq!(body, "");
}

#[test]
fn body_keeps_mixed_line_endings_and_later_markers() {
    let content = "---\nmode: danger\n---\r\none\r\ntwo\n---\nthree\r";
    let (_, _, _, mode, body) = parse_frontmatter(content);
    assert_eq!(mode, Some(SubAgentMode::DangerFullAccess));
    assert_eq!(body, "one\r\ntwo\n---\nthree\r");
}

#[test]
fn blank_comment_and_malformed_lines_are_skipped() {
    let content = "---\n\n   \n# description: commented out\n  # indented comment: x\nno colon here\nunknown: value\ndescription: kept\n---\nb";
    let (desc, allowed, blocked, mode, body) = parse_frontmatter(content);
    assert_eq!(desc.as_deref(), Some("kept"));
    assert!(allowed.is_empty());
    assert!(blocked.is_empty());
    assert_eq!(mode, None);
    assert_eq!(body, "b");
}

#[test]
fn keys_ignore_case_and_accept_hyphen_or_underscore() {
    let content = "---\nDESCRIPTION : Upper\nTools-Allowed: a\n tools_BLOCKED :b\nMoDe: READONLY\n---\n";
    let (desc, allowed, blocked, mode, _) = parse_frontmatter(content);
    assert_eq!(desc.as_deref(), Some("Upper"));
    assert_eq!(allowed, vec!["a"]);
    assert_eq!(blocked, vec!["b"]);
    assert_eq!(mode, Some(SubAgentMode::ReadOnly));
}

#[test]
fn value_is_split_on_the_first_colon() {
    let (desc, _, _, _, _) = parse_frontmatter("---\ndescription: a: b : c\n---\n");
    assert_eq!(desc.as_deref(), Some("a: b : c"));
}

#[test]
fn matching_quotes_are_stripped_once() {
    let cases = [
        ("\"double\"", "double"),
        ("'single'", "single"),
        ("\"mixed'", "\"mixed'"),
        ("\"", "\""),
        ("\"\"", ""),
        ("''", ""),
        ("\"\"nested\"\"", "\"nested\""),
        ("\" padded \"", " padded "),
        ("say \"hi\"", "say \"hi\""),
        ("\"\\n\"", "\\n"),
    ];
    for (value, expected) in cases {
        let content = format!("---\ndescription: {value}\n---\n");
        let (desc, _, _, _, _) = parse_frontmatter(&content);
        assert_eq!(desc.as_deref(), Some(expected), "value {value:?}");
    }
}

#[test]
fn later_occurrence_of_a_key_replaces_the_earlier() {
    let content = "---\ndescription: first\ntools_allowed: a, b\ntools-allowed: c\ntools_blocked: x\ntools_blocked:\nmode: full-auto\ndescription: second\n---\n";
    let (desc, allowed, blocked, mode, _) = parse_frontmatter(content);
    assert_eq!(desc.as_deref(), Some("second"));
    assert_eq!(allowed, vec!["c"]);
    assert!(blocked.is_empty());
    assert_eq!(mode, Some(SubAgentMode::FullAuto));
}

#[test]
fn unrecognized_mode_leaves_mode_unset() {
    let (_, _, _, mode, body) = parse_frontmatter("---\nmode: sudo\n---\nb");
    assert_eq!(mode, None);
    assert_eq!(body, "b");
    let (_, _, _, mode, _) = parse_frontmatter("---\nmode: full-auto\nmode: sudo\n---\n");
    assert_eq!(mode, None);
}

#[test]
fn empty_description_is_present_and_empty() {
    let (desc, _, _, _, _) = parse_frontmatter("---\ndescription:\n---\n");
    assert_eq!(desc.as_deref(), Some(""));
}

#[test]
fn non_ascii_text_is_kept_character_for_character() {
    let content = "---\ndescription: \u{a0}r\u{e9}sum\u{e9} \u{1f600}\u{2003}\ntools_allowed: \u{fc}ber, \u{4e2d}\u{6587}\n---\n\u{1f600} body \u{e9}\n";
    let (desc, allowed, _, _, body) = parse_frontmatter(content);
    assert_eq!(desc.as_deref(), Some("r\u{e9}sum\u{e9} \u{1f600}"));
    assert_eq!(allowed, vec!["\u{fc}ber", "\u{4e2d}\u{6587}"]);
    assert_eq!(body, "\u{1f600} body \u{e9}\n");
}

#[test]
fn split_list_trims_and_drops_empty_items() {
    assert_eq!(split_list("run,read"), vec!["run", "read"]);
    assert_eq!(split_list(" a , ,b,,  c d ,"), vec!["a", "b", "c d"]);
    assert_eq!(split_list("one"), vec!["one"]);
    assert!(split_list("").is_empty());
    assert!(split_list(" , ,").is_empty());
}

#[test]
fn split_list_agrees_with_std_split() {
    let inputs = ["a,b", ",", "a,,b", "  x  ", "\u{a0}p\u{a0},q\t,\r\n", ",,lead", "trail,,"];
    for input in inputs {
        let expected: Vec<String> =
            input.split(',').map(str::trim).filter(|s| !s.is_empty()).map(str::to_string).collect();
        assert_eq!(split_list(input), expected, "input {input:?}");
    }
}

#[test]
fn parse_mode_accepts_every_spelling() {
    assert_eq!(parse_mode("read-only"), Some(SubAgentMode::ReadOnly));
    assert_eq!(parse_mode("readonly"), Some(SubAgentMode::ReadOnly));
    assert_eq!(parse_mode("full-auto"), Some(SubAgentMode::FullAuto));
    assert_eq!(parse_mode("full_auto"), Some(SubAgentMode::FullAuto));
    assert_eq!(parse_mode("danger-full-access"), Some(SubAgentMode::DangerFullAccess));
    assert_eq!(parse_mode("danger_full_access"), Some(SubAgentMode::DangerFullAccess));
    assert_eq!(parse_mode("danger"), Some(SubAgentMode::DangerFullAccess));
}

#[test]
fn parse_mode_ignores_case_and_surrounding_whitespace() {
    assert_eq!(parse_mode(" DANGER "), Some(SubAgentMode::DangerFullAccess));
    assert_eq!(parse_mode("Read-Only"), Some(SubAgentMode::ReadOnly));
    assert_eq!(parse_mode("\tFULL_AUTO\n"), Some(SubAgentMode::FullAuto));
}

#[test]
fn parse_mode_rejects_other_values() {
    assert_eq!(parse_mode(""), None);
    assert_eq!(parse_mode("writable"), None);
    assert_eq!(parse_mode("read_only"), None);
    assert_eq!(parse_mode("read only"), None);
    assert_eq!(parse_mode("full-auto!"), None);
    assert_eq!(parse_mode("danger-full_access"), None);
}

#[test]
fn default_mode_is_read_only() {
    assert_eq!(SubAgentMode::default(), SubAgentMode::ReadOnly);
}
