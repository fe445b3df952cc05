use subagents::text::{char_is_whitespace, char_to_ascii_lower, chars_of, find_char, lowercase_is, trim};

#[test]
fn whitespace_agrees_with_std_for_every_character() {
    let mut count = 0;
    for code in 0..=0x10FFFF_u32 {
        if let Some(c) = char::from_u32(code) {
            assert_eq!(char_is_whitespace(c), c.is_whitespace(), "U+{code:04X}");
            if c.is_whitespace() {
                count += 1;
            }
        }
    }
    assert_eq!(count, 25);
}

#[test]
fn ascii_lower_agrees_with_std_for_every_character() {
    for code in 0..=0x10FFFF_u32 {
        if let Some(c) = char::from_u32(code) {
            assert_eq!(char_to_ascii_lower(c), c.to_ascii_lowercase(), "U+{code:04X}");
        }
    }
}

#[test]
fn trim_agrees_with_std() {
    let inputs = [
        "",
        " ",
        "\r\n",
        "a",
        "  a  ",
        "\u{a0}\u{2003}x y\u{3000}\t",
        "\u{200b}zero width space is no whitespace\u{200b}",
        " \u{1f600} ",
        "inner  space",
    ];
    for input in inputs {
        let chars = chars_of(input);
        let trimmed: String = trim(&chars).iter().collect();
        assert_eq!(trimmed, input.trim(), "input {input:?}");
    }
}

#[test]
fn chars_of_lists_the_characters() {
    assert_eq!(chars_of("a\u{e9}\u{1f600}"), vec!['a', '\u{e9}', '\u{1f600}']);
    assert!(chars_of("").is_empty());
}

#[test]
fn find_char_gives_the_first_occurrence_or_the_length() {
    let chars = chars_of("key: a:b");
    assert_eq!(find_char(&chars, ':'), 3);
    assert_eq!(find_char(&chars, 'k'), 0);
    assert_eq!(find_char(&chars, '#'), 8);
    assert_eq!(find_char(&[], ':'), 0);
}

#[test]
fn lowercase_is_folds_ascii_letters_only() {
    assert!(lowercase_is(&chars_of("MoDe"), "mode"));
    assert!(lowercase_is(&chars_of("mode"), "mode"));
    assert!(!lowercase_is(&chars_of("mod"), "mode"));
    assert!(!lowercase_is(&chars_of("modes"), "mode"));
    assert!(!lowercase_is(&chars_of("m\u{d6}de"), "m\u{f6}de"));
    assert!(lowercase_is(&chars_of(""), ""));
}
