use zed_markdown_fold::text::{chars_of, heading_level, heading_level_chars, split_lines, str_eq, trim_chars};

#[test]
fn heading_levels_up_to_six() {
    assert_eq!(heading_level("###### H6"), Some(6));
    assert_eq!(heading_level("######"), Some(6));
    assert_eq!(heading_level("##\tx"), None);
    assert_eq!(heading_level_chars(&['#', ' ']), Some(1));
}

#[test]
fn trimming_and_equality() {
    assert_eq!(trim_chars(&chars_of(" \t x y \u{a0}")), vec!['x', ' ', 'y']);
    assert_eq!(trim_chars(&chars_of("   ")), Vec::<char>::new());
    assert!(str_eq("abc", "abc"));
    assert!(!str_eq("abc", "abd"));
    assert!(!str_eq("ab", "abc"));
}

#[test]
fn lines_as_str_lines_gives_them() {
    for text in ["", "a", "a\n", "a\r\nb", "a\rb\n\n", "\n\n", "x\r"] {
        let ours: Vec<String> = split_lines(&chars_of(text))
            .iter()
            .map(|l| l.iter().collect())
            .collect();
        let std: Vec<String> = text.lines().map(|l| l.to_string()).collect();
        assert_eq!(ours, std, "text {:?}", text);
    }
}
