use ping_server::text::{char_is_whitespace, chars_of, split_lines, split_tokens, str_eq, trim};

#[test]
fn whitespace_agrees_with_std_on_every_char() {
    let mut code: u32 = 0;
    while code <= 0x10FFFF {
        if let Some(c) = char::from_u32(code) {
            assert_eq!(char_is_whitespace(c), c.is_whitespace(), "U+{:04X}", code);
        }
        code += 1;
    }
}

#[test]
fn whitespace_named_characters() {
    assert!(char_is_whitespace(' '));
    assert!(char_is_whitespace('\t'));
    assert!(char_is_whitespace('\r'));
    assert!(char_is_whitespace('\n'));
    assert!(char_is_whitespace('\u{a0}'));
    assert!(char_is_whitespace('\u{3000}'));
    assert!(!char_is_whitespace('\0'));
    assert!(!char_is_whitespace('a'));
    assert!(!char_is_whitespace('\u{200b}'));
    assert!(!char_is_whitespace('\u{fffd}'));
}

#[test]
fn chars_of_keeps_every_character() {
    assert_eq!(chars_of(""), Vec::<char>::new());
    assert_eq!(chars_of("a:\u{e9}\u{fffd}\n"), vec!['a', ':', '\u{e9}', '\u{fffd}', '\n']);
}

#[test]
fn str_eq_compares_contents() {
    assert!(str_eq("", ""));
    assert!(str_eq("GET", "GET"));
    assert!(!str_eq("GET", "get"));
    assert!(!str_eq("GET", "GETS"));
    assert!(!str_eq("/ping", "/pong"));
    assert!(str_eq("h\u{e9}", "h\u{e9}"));
    assert!(!str_eq("h\u{e9}", "h\u{e8}"));
}

#[test]
fn trim_removes_both_ends() {
    assert_eq!(trim("  a b \t"), "a b");
    assert_eq!(trim("a"), "a");
    assert_eq!(trim(""), "");
    assert_eq!(trim(" \r\n\t "), "");
    assert_eq!(trim("\u{a0}x\u{2003}"), "x");
    assert_eq!(trim(" \0 "), "\0");
}

#[test]
fn trim_agrees_with_std() {
    let samples = [
        "",
        " ",
        "x",
        "  x",
        "x  ",
        " x y ",
        "\t\u{3000}h\u{e9}llo\u{85}\n",
        " \u{200b} ",
        "\r\n",
    ];
    for sample in samples {
        assert_eq!(trim(sample), sample.trim(), "{:?}", sample);
    }
}

#[test]
fn split_lines_of_a_request() {
    assert_eq!(
        split_lines("GET /ping HTTP/1.1\r\nHost: x\r\n\r\nbody"),
        vec!["GET /ping HTTP/1.1", "Host: x", "", "body"]
    );
}

#[test]
fn split_lines_edge_cases() {
    assert_eq!(split_lines(""), Vec::<&str>::new());
    assert_eq!(split_lines("\n"), vec![""]);
    assert_eq!(split_lines("a"), vec!["a"]);
    assert_eq!(split_lines("a\n"), vec!["a"]);
    assert_eq!(split_lines("a\n\n"), vec!["a", ""]);
    assert_eq!(split_lines("a\nb"), vec!["a", "b"]);
    assert_eq!(split_lines("a\r\nb\r\n"), vec!["a", "b"]);
    assert_eq!(split_lines("a\rb\n"), vec!["a\rb"]);
    assert_eq!(split_lines("a\r\r\n"), vec!["a\r"]);
    assert_eq!(split_lines("a\n\r"), vec!["a", "\r"]);
    assert_eq!(split_lines("\r\n\0\0"), vec!["", "\0\0"]);
}

#[test]
fn split_lines_agrees_with_std() {
    let samples = [
        "",
        "\n",
        "\r",
        "\r\n",
        "one",
        "one\ntwo",
        "one\r\ntwo\r\n",
        "one\r",
        "one\n\r",
        "\n\n\n",
        "a\r\r\nb",
        "GET /ping HTTP/1.1\r\nA: 1\r\n\r\n\0\0\0",
    ];
    for sample in samples {
        let expected: Vec<&str> = sample.lines().collect();
        assert_eq!(split_lines(sample), expected, "{:?}", sample);
    }
}

#[test]
fn split_tokens_of_a_request_line() {
    assert_eq!(split_tokens("GET /ping HTTP/1.1"), vec!["GET", "/ping", "HTTP/1.1"]);
    assert_eq!(split_tokens("  GET\t\t/ping  "), vec!["GET", "/ping"]);
    assert_eq!(split_tokens(""), Vec::<&str>::new());
    assert_eq!(split_tokens(" \t "), Vec::<&str>::new());
    assert_eq!(split_tokens("GET"), vec!["GET"]);
    assert_eq!(split_tokens("GET /ping\0\0"), vec!["GET", "/ping\0\0"]);
}

#[test]
fn split_tokens_agrees_with_std() {
    let samples = ["", " ", "a", " a", "a ", "a b", "a\u{a0}b\u{3000}c", "\ta  b\r", "a\0b c"];
    for sample in samples {
        let expected: Vec<&str> = sample.split_whitespace().collect();
        assert_eq!(split_tokens(sample), expected, "{:?}", sample);
    }
}
