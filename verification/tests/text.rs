use gr::ansi::AnsiWrapper;
use gr::color_cycle::{Color, ColorCycle};
use gr::indent::{prefix_each_line, repeat, Indentable};
use gr::text;

fn strs(v: &[&str]) -> Vec<String> {
    v.iter().map(|s| s.to_string()).collect()
}

#[test]
fn test_split_keeps_empty_pieces() {
    assert_eq!(text::split("a,b,,c", ','), strs(&["a", "b", "", "c"]));
    assert_eq!(text::split("", ','), strs(&[""]));
    assert_eq!(text::split(",", ','), strs(&["", ""]));
    assert_eq!(text::split("abc", ','), strs(&["abc"]));
}

#[test]
fn test_lines_follow_the_standard_rules() {
    let cases = ["", "a", "a\n", "a\nb", "a\r\nb\r\n", "\n", "\n\n", "a\r", "a\r\n\r", "x\n\ny"];
    for case in cases {
        let expected: Vec<String> = case.lines().map(|l| l.to_string()).collect();
        assert_eq!(text::lines(case), expected);
    }
}

#[test]
fn test_join_puts_the_separator_between() {
    assert_eq!(text::join(&strs(&["a", "b", "c"]), ", "), "a, b, c");
    assert_eq!(text::join(&strs(&["a"]), ", "), "a");
    assert_eq!(text::join(&Vec::new(), ", "), "");
    assert_eq!(text::join(&strs(&["", ""]), "-"), "-");
}

#[test]
fn test_trim_takes_white_space_off_both_ends() {
    let cases = ["", "  ", " a ", "a", "\t a b \n", "\u{a0}x\u{2003}", "\u{3000}", "a\u{85}"];
    for case in cases {
        assert_eq!(text::trim(case), case.trim());
    }
    for c in ['a', ' ', '\t', '\u{b}', '\u{c}', '\r', '\u{1680}', '\u{200a}', '\u{200b}', '\u{2028}'] {
        assert_eq!(text::is_whitespace(c), c.is_whitespace());
    }
}

#[test]
fn test_decimal_writes_numbers() {
    assert_eq!(text::decimal(0), "0");
    assert_eq!(text::decimal(7), "7");
    assert_eq!(text::decimal(10), "10");
    assert_eq!(text::decimal(1234567890), "1234567890");
    assert_eq!(text::decimal64(u64::MAX), u64::MAX.to_string());
    for n in [0u64, 9, 10, 15, 16, 255, 4096, 0xdead_beef, u64::MAX] {
        assert_eq!(text::hex64(n), format!("{:x}", n));
    }
}

#[test]
fn test_starts_with_and_find() {
    assert!(text::starts_with("origin/main", "origin"));
    assert!(text::starts_with("origin", ""));
    assert!(!text::starts_with("ori", "origin"));
    assert!(!text::starts_with("xorigin", "origin"));
    let v: Vec<char> = "a b  c".chars().collect();
    assert_eq!(text::find(&v, ' ', 0), 1);
    assert_eq!(text::find(&v, ' ', 2), 3);
    assert_eq!(text::find(&v, 'z', 0), 6);
    assert_eq!(text::skip_spaces(&v, 3), 5);
    assert_eq!(text::skip_word(&v, 0), 1);
    assert_eq!(text::substring(&v, 2, 5), "b  ");
    assert_eq!(text::string_of(&v), "a b  c");
    assert_eq!(text::chars_of("h\u{e9}"), vec!['h', '\u{e9}']);
    assert_eq!(text::concat("a", "b"), "ab");
    assert_eq!(text::concat3("a", "b", "c"), "abc");
}

#[test]
fn test_strip_takes_every_occurrence_out() {
    let cases = [("repo.git", ".git"), ("a.git.git", ".git"), (":own:er", ":"), ("aaa", "aa"), ("abc", ""), ("", "x"), ("ababab", "ab")];
    for (s, needle) in cases {
        assert_eq!(text::strip(s, needle), s.replace(needle, ""));
    }
    let v: Vec<char> = "xxabxab".chars().collect();
    let n: Vec<char> = "ab".chars().collect();
    assert_eq!(text::find_sub(&v, &n, 0), 2);
    assert_eq!(text::find_sub(&v, &n, 3), 5);
    assert_eq!(text::find_sub(&v, &n, 6), 7);
    assert!(text::matches(&v, &n, 5));
    assert!(!text::matches(&v, &n, 6));
}

#[test]
fn test_ansi_wrapping() {
    assert_eq!("x".wrap("\u{1b}[7m"), "\u{1b}[7mx\u{1b}[0m");
    assert_eq!("x".bold(), "\u{1b}[1mx\u{1b}[0m");
    assert_eq!("x".blink(), "\u{1b}[5mx\u{1b}[0m");
    assert_eq!("x".underline(), "\u{1b}[4mx\u{1b}[0m");
    assert_eq!("x".italic(), "\u{1b}[3mx\u{1b}[0m");
    assert_eq!("x".black(), "\u{1b}[30mx\u{1b}[0m");
    assert_eq!("x".red(), "\u{1b}[31mx\u{1b}[0m");
    assert_eq!("x".green(), "\u{1b}[32mx\u{1b}[0m");
    assert_eq!("x".yellow(), "\u{1b}[33mx\u{1b}[0m");
    assert_eq!("x".blue(), "\u{1b}[34mx\u{1b}[0m");
    assert_eq!("x".magenta(), "\u{1b}[35mx\u{1b}[0m");
    assert_eq!("x".cyan(), "\u{1b}[36mx\u{1b}[0m");
    assert_eq!("x".white(), "\u{1b}[37mx\u{1b}[0m");
    assert_eq!("x".on_black(), "\u{1b}[40mx\u{1b}[0m");
    assert_eq!("x".on_red(), "\u{1b}[41mx\u{1b}[0m");
    assert_eq!("x".on_green(), "\u{1b}[42mx\u{1b}[0m");
    assert_eq!("x".on_yellow(), "\u{1b}[43mx\u{1b}[0m");
    assert_eq!("x".on_blue(), "\u{1b}[44mx\u{1b}[0m");
    assert_eq!("x".on_magenta(), "\u{1b}[45mx\u{1b}[0m");
    assert_eq!("x".on_cyan(), "\u{1b}[46mx\u{1b}[0m");
    assert_eq!("x".on_white(), "\u{1b}[47mx\u{1b}[0m");
    assert_eq!("x".to_string().bold().green(), "\u{1b}[32m\u{1b}[1mx\u{1b}[0m\u{1b}[0m");
}

#[test]
fn test_colour_cycle_wraps_round() {
    let mut cycle = ColorCycle::new();
    assert_eq!(cycle.color(), Color::Cyan);
    let seen: Vec<Color> = (0..7).map(|_| cycle.advance()).collect();
    assert_eq!(
        seen,
        vec![
            Color::Magenta,
            Color::BrightGreen,
            Color::BrightRed,
            Color::Blue,
            Color::Yellow,
            Color::BrightYellow,
            Color::Cyan
        ]
    );
    assert_eq!(cycle.colorize("x"), "\u{1b}[36mx\u{1b}[0m");
    assert_eq!(Color::at(8), Color::Magenta);
    assert_eq!(Color::BrightRed.paint("x"), "\u{1b}[91mx\u{1b}[0m");
    assert_eq!(Color::BrightYellow.code(), "\u{1b}[93m");
}

#[test]
fn test_indent_prefixes_every_line() {
    assert_eq!("a\nb".indent(2), "  a\n  b");
    assert_eq!("a\n\nb".to_string().indent_with("> ", 1), "> a\n> \n> b");
    assert_eq!("a".indent_with("ab", 3), "abababa");
    assert_eq!("a".indent(0), "a");
    assert_eq!("".indent(1), " ");
    assert_eq!(repeat("-", 3), "---");
    assert_eq!(prefix_each_line("x\ny\n", "# "), "# x\n# y\n# ");
}
