use autosplash::text::{chars_of, is_whitespace, parse_u16, same_text, split_text, trim};

#[test]
fn whitespace_is_what_std_calls_whitespace() {
    let mut code: u32 = 0;
    while code <= 0x10FFFF {
        if let Some(c) = char::from_u32(code) {
            assert_eq!(is_whitespace(c), c.is_whitespace(), "U+{:04X}", code);
        }
        code += 1;
    }
}

#[test]
fn whitespace_named_cases() {
    assert!(is_whitespace(' '));
    assert!(is_whitespace('\t'));
    assert!(is_whitespace('\n'));
    assert!(is_whitespace('\u{00A0}'));
    assert!(is_whitespace('\u{3000}'));
    assert!(!is_whitespace('a'));
    assert!(!is_whitespace('0'));
    assert!(!is_whitespace('\u{200B}'));
}

#[test]
fn chars_of_keeps_every_character() {
    assert_eq!(chars_of(""), Vec::<char>::new());
    assert_eq!(chars_of("a, b"), vec!['a', ',', ' ', 'b']);
    assert_eq!(chars_of("né\u{3000}"), vec!['n', 'é', '\u{3000}']);
}

#[test]
fn trim_agrees_with_std() {
    let cases = [
        "",
        " ",
        "   \t\n",
        "true",
        " true",
        "true ",
        "  true  ",
        "\ttrue\r\n",
        "a b",
        "  a  b  ",
        "\u{00A0}1920\u{2003}",
        "\u{3000}\u{3000}",
        "x\u{200B}",
        " é ",
    ];
    for case in cases {
        assert_eq!(trim(case), case.trim(), "{:?}", case);
    }
}

#[test]
fn trim_keeps_inner_whitespace() {
    assert_eq!(trim("  a \t b  "), "a \t b");
}

#[test]
fn split_agrees_with_std() {
    let cases = [
        "",
        "nature",
        "nature, ocean",
        "nature,ocean",
        "nature , ocean",
        "a, b, c",
        ", ",
        ", a",
        "a, ",
        "a, , b",
        "a,, b",
        "a,  b",
        ", , ",
        "space cats, deep sea, é",
    ];
    for case in cases {
        let expected: Vec<String> = case.split(", ").map(String::from).collect();
        assert_eq!(split_text(case, ", "), expected, "{:?}", case);
    }
}

#[test]
fn split_takes_matches_from_the_left_without_overlap() {
    assert_eq!(split_text("aaa", "aa"), vec!["".to_string(), "a".to_string()]);
    assert_eq!(
        split_text("aaaa", "aa"),
        vec!["".to_string(), "".to_string(), "".to_string()]
    );
    assert_eq!(split_text("abcabc", "bc"), vec!["a".to_string(), "a".to_string(), "".to_string()]);
}

#[test]
fn split_on_empty_separator_gives_one_piece() {
    assert_eq!(split_text("abc", ""), vec!["abc".to_string()]);
    assert_eq!(split_text("", ""), vec!["".to_string()]);
}

#[test]
fn split_always_gives_a_piece() {
    assert_eq!(split_text("", ", ").len(), 1);
    assert_eq!(split_text(", ", ", ").len(), 2);
}

#[test]
fn parse_u16_agrees_with_std() {
    let cases = [
        "",
        "+",
        "-",
        "0",
        "+0",
        "-0",
        "7",
        "+7",
        "-7",
        "++7",
        "1920",
        "1080",
        "65535",
        "65536",
        "65545",
        "99999",
        "655350",
        "000000000000000000000000000000065535",
        "000000000000000000000000000000065536",
        "99999999999999999999999999999",
        "12a",
        "a12",
        "1 2",
        " 12",
        "12 ",
        "1.5",
        "1e3",
        "0x10",
        "１２",
        "٣",
    ];
    for case in cases {
        assert_eq!(parse_u16(case), case.parse::<u16>().ok(), "{:?}", case);
    }
}

#[test]
fn parse_u16_exact_values() {
    assert_eq!(parse_u16("1920"), Some(1920));
    assert_eq!(parse_u16("+1080"), Some(1080));
    assert_eq!(parse_u16("0"), Some(0));
    assert_eq!(parse_u16("65535"), Some(65535));
    assert_eq!(parse_u16("65536"), None);
    assert_eq!(parse_u16("-1"), None);
    assert_eq!(parse_u16(""), None);
}

#[test]
fn same_text_compares_character_by_character() {
    assert!(same_text("", ""));
    assert!(same_text("--once", "--once"));
    assert!(!same_text("--once", "--Once"));
    assert!(!same_text("--once", "--once "));
    assert!(!same_text("--once", "--onc"));
    assert!(!same_text("a", ""));
}
