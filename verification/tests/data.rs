use faf_dns_bench::data::{parse_line, read_domains};
use faf_dns_bench::text::{find_char, trim};

#[test]
fn the_domain_is_the_second_field() {
    assert_eq!(parse_line("1,google.com"), Some("google.com".to_string()));
    assert_eq!(parse_line("  2,youtube.com \r\n"), Some("youtube.com".to_string()));
    assert_eq!(parse_line("3,a.b,rest,more"), Some("a.b".to_string()));
    assert_eq!(parse_line("4,"), Some("".to_string()));
    assert_eq!(parse_line(",x"), Some("x".to_string()));
    assert_eq!(parse_line("5, spaced.org"), Some(" spaced.org".to_string()));
    assert_eq!(parse_line("\u{3000}6,bücher.de\u{2003}\t"), Some("bücher.de".to_string()));
}

#[test]
fn a_line_without_a_comma_names_no_domain() {
    assert_eq!(parse_line("google.com"), None);
    assert_eq!(parse_line(""), None);
    assert_eq!(parse_line("   "), None);
}

#[test]
fn domains_are_read_from_the_first_lines() {
    let lines: Vec<String> =
        ["1,google.com", "2,youtube.com", "3,facebook.com"].iter().map(|l| l.to_string()).collect();
    assert_eq!(
        read_domains(&lines, 2),
        Ok(vec!["google.com".to_string(), "youtube.com".to_string()])
    );
    assert_eq!(read_domains(&lines, 3).unwrap().len(), 3);
    assert_eq!(read_domains(&lines, 250).unwrap().len(), 3);
    assert_eq!(read_domains(&lines, 0), Ok(Vec::new()));
}

#[test]
fn a_bad_line_is_reported_by_its_place() {
    let lines: Vec<String> =
        ["1,google.com", "youtube.com", "3,facebook.com"].iter().map(|l| l.to_string()).collect();
    assert_eq!(read_domains(&lines, 3), Err(1));
    assert_eq!(read_domains(&lines, 2), Err(1));
    assert_eq!(read_domains(&lines, 1), Ok(vec!["google.com".to_string()]));
}

#[test]
fn trimming_is_that_of_the_standard_library() {
    for text in ["", " ", "a", " a ", "\t\n a b \r\n", "\u{a0}x\u{85}", "\u{1680}\u{2028}y\u{202f}\u{205f}",
        "\u{200b}z\u{200b}", "\u{180e}w", "  \u{3000}"]
    {
        assert_eq!(trim(text), text.trim(), "for {:?}", text);
    }
}

#[test]
fn characters_are_found_by_their_place() {
    assert_eq!(find_char("a,b,c", ',', 0), 1);
    assert_eq!(find_char("a,b,c", ',', 2), 3);
    assert_eq!(find_char("a,b,c", ',', 4), 5);
    assert_eq!(find_char("ü,b", ',', 0), 1);
    assert_eq!(find_char("", ',', 0), 0);
}
