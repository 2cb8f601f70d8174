use issue_graph::text::{
    chars_of, find, is_whitespace_char, lines, push_decimal, skip_chars, starts_with, trim,
    trim_start,
};

const SAMPLES: [&str; 22] = [
    "",
    " ",
    "a",
    "  a  ",
    "\t\n\u{b}\u{c}\r a b \u{85}\u{a0}",
    "\u{1680}x\u{2000}\u{2001}\u{2002}\u{2003}\u{2004}\u{2005}",
    "\u{2006}\u{2007}\u{2008}\u{2009}\u{200a}y\u{2028}\u{2029}",
    "\u{202f}\u{205f}\u{3000}z\u{3000}",
    "\u{200b}not space\u{200b}",
    "\u{feff}bom",
    "   ",
    "a\nb",
    "a\r\nb\r\n",
    "a\rb",
    "a\r",
    "\n",
    "\r\n",
    "\n\n",
    "a\n\r\n\nb\r",
    "\r\r\n",
    "x\u{e9}\n\u{4e2d}\u{1f600}\n",
    "last\n ",
];

#[test]
fn whitespace_is_what_std_says() {
    for code in 0..=0x3100u32 {
        if let Some(c) = char::from_u32(code) {
            assert_eq!(is_whitespace_char(c), c.is_whitespace(), "U+{code:04X}");
        }
    }
    assert!(!is_whitespace_char('\u{feff}'));
    assert!(!is_whitespace_char('\u{10ffff}'));
}

#[test]
fn trimming_is_what_std_does() {
    for sample in SAMPLES {
        assert_eq!(trim_start(sample), sample.trim_start(), "{sample:?}");
        assert_eq!(trim(sample), sample.trim(), "{sample:?}");
    }
}

#[test]
fn lines_are_what_std_gives() {
    for sample in SAMPLES {
        let expected: Vec<&str> = sample.lines().collect();
        assert_eq!(lines(sample), expected, "{sample:?}");
    }
}

#[test]
fn lines_keep_a_lone_carriage_return() {
    assert_eq!(lines("foo\nbar\n\r\nbaz\r"), vec!["foo", "bar", "", "baz\r"]);
    assert_eq!(lines("a\r\r\nb"), vec!["a\r", "b"]);
    assert_eq!(lines(""), Vec::<&str>::new());
    assert_eq!(lines("\n"), vec![""]);
}

#[test]
fn prefix_and_occurrence_are_what_std_finds() {
    let patterns = ["", "a", "ab", "- [ ]", "/issues", "\u{e9}", "b\r", "\n"];
    for sample in SAMPLES.iter().chain(["- [ ] x", "ab", "aab", "x/issues/issues", "\u{4e2d}\u{e9}\u{e9}"].iter()) {
        for pattern in patterns {
            assert_eq!(starts_with(sample, pattern), sample.starts_with(pattern), "{sample:?} {pattern:?}");
            let expected = sample.find(pattern).map(|at| sample[..at].chars().count());
            assert_eq!(find(sample, pattern), expected, "{sample:?} {pattern:?}");
        }
    }
}

#[test]
fn skipping_counts_characters() {
    assert_eq!(skip_chars("\u{e9}\u{4e2d}abc", 2), "abc");
    assert_eq!(skip_chars("abc", 0), "abc");
    assert_eq!(skip_chars("abc", 3), "");
}

#[test]
fn characters_in_order() {
    assert_eq!(chars_of("a\u{e9}\u{1f600}"), vec!['a', '\u{e9}', '\u{1f600}']);
    assert_eq!(chars_of(""), Vec::<char>::new());
}

#[test]
fn decimal_is_what_std_writes() {
    for n in [0usize, 1, 9, 10, 11, 99, 100, 101, 12345, 1_000_000, usize::MAX - 1, usize::MAX] {
        let mut out = String::from("n=");
        push_decimal(&mut out, n);
        assert_eq!(out, format!("n={n}"));
    }
}

#[test]
fn long_text_is_cut_with_an_ellipsis() {
    use_shorten("hello", 5, "hello", true);
    use_shorten("hello", 6, "hello", true);
    use_shorten("hello", 4, "hell\u{2026}", false);
    use_shorten("hello", 0, "\u{2026}", false);
    use_shorten("", 0, "", true);
    // Three characters in six bytes: too long for five, and all of them stay.
    use_shorten("\u{e9}\u{e9}\u{e9}", 5, "\u{e9}\u{e9}\u{e9}\u{2026}", false);
    use_shorten("\u{e9}\u{e9}\u{e9}", 2, "\u{e9}\u{e9}\u{2026}", false);
    use_shorten("\u{e9}\u{e9}\u{e9}", 6, "\u{e9}\u{e9}\u{e9}", true);
}

fn use_shorten(text: &str, width: usize, expected: &str, borrowed: bool) {
    let short = issue_graph::text::shorten(text, width);
    assert_eq!(short, expected, "{text:?} {width}");
    assert_eq!(matches!(short, std::borrow::Cow::Borrowed(_)), borrowed, "{text:?} {width}");
}
