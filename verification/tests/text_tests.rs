use anemoia::text::{join_strings, lines_of, parse_i32, parse_u32, trim_str};

#[test]
fn trim_removes_unicode_white_space_at_both_ends() {
    assert_eq!(trim_str("  hello world \t\n"), "hello world");
    assert_eq!(trim_str("\u{3000}x\u{a0}"), "x");
    assert_eq!(trim_str("   "), "");
    assert_eq!(trim_str(""), "");
}

#[test]
fn lines_split_like_str_lines() {
    assert_eq!(lines_of("a\nb\r\nc"), vec!["a", "b", "c"]);
    assert_eq!(lines_of("a\n"), vec!["a"]);
    assert_eq!(lines_of(""), Vec::<String>::new());
    assert_eq!(lines_of("\n\nx"), vec!["", "", "x"]);
    assert_eq!(lines_of("x\r"), vec!["x\r"]);
}

#[test]
fn parse_u32_follows_from_str() {
    assert_eq!(parse_u32("1234"), Some(1234));
    assert_eq!(parse_u32("+7"), Some(7));
    assert_eq!(parse_u32("007"), Some(7));
    assert_eq!(parse_u32("4294967295"), Some(u32::MAX));
    assert_eq!(parse_u32("4294967296"), None);
    assert_eq!(parse_u32("-1"), None);
    assert_eq!(parse_u32("+"), None);
    assert_eq!(parse_u32(""), None);
    assert_eq!(parse_u32("12a"), None);
    assert_eq!(parse_u32(" 12"), None);
}

#[test]
fn parse_i32_follows_from_str() {
    assert_eq!(parse_i32("0"), Some(0));
    assert_eq!(parse_i32("-2147483648"), Some(i32::MIN));
    assert_eq!(parse_i32("2147483647"), Some(i32::MAX));
    assert_eq!(parse_i32("2147483648"), None);
    assert_eq!(parse_i32("-2147483649"), None);
    assert_eq!(parse_i32("+15"), Some(15));
    assert_eq!(parse_i32("-"), None);
    assert_eq!(parse_i32("1.5"), None);
}

#[test]
fn join_puts_the_separator_between_neighbours() {
    let parts = vec!["java".to_string(), "-jar".to_string(), "x.jar".to_string()];
    assert_eq!(join_strings(&parts, " "), "java -jar x.jar");
    assert_eq!(join_strings(&Vec::new(), " "), "");
    assert_eq!(join_strings(&vec!["one".to_string()], ", "), "one");
}
