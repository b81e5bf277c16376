use orbit_lib::text::{chars_of, non_blank_line_bounds, push_decimal, white_space};

#[test]
fn finds_the_non_blank_lines_trimmed() {
    let chars = chars_of(" a b \r\n\n\t\ncd\n");
    let bounds = non_blank_line_bounds(&chars);
    let lines: Vec<String> = bounds.iter().map(|&(a, b)| chars[a..b].iter().collect()).collect();
    assert_eq!(lines, vec!["a b", "cd"]);
}

#[test]
fn trims_unicode_whitespace() {
    let chars = chars_of("\u{3000}x\u{00A0}\ny");
    let bounds = non_blank_line_bounds(&chars);
    assert_eq!(bounds, vec![(1, 2), (4, 5)]);
    assert!(white_space('\u{2028}'));
    assert!(!white_space('x'));
}

#[test]
fn writes_decimal_numbers() {
    let mut text = String::from("n=");
    push_decimal(&mut text, 0);
    push_decimal(&mut text, 1234);
    assert_eq!(text, "n=01234");
}
