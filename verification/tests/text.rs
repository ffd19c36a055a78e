use recall::pipeline::verify::{content_tokens, normalize};
use recall::text::{
    clip, contains, decimal_text, head, is_blank, is_white, join, pad_left, pad_right,
    parse_number, parse_signed, starts_with, strip_prefix, trim,
};

#[test]
fn white_space_is_that_of_unicode() {
    for n in 0..=0x10ffffu32 {
        if let Some(c) = char::from_u32(n) {
            assert_eq!(is_white(c), c.is_whitespace(), "U+{n:04x}");
        }
    }
}

#[test]
fn ascii_letters_and_digits_make_words_in_lower_case() {
    for n in 0..0x80u8 {
        let c = n as char;
        let word = format!("WORD{c}WORD");
        let want: Vec<String> = if c.is_ascii_alphanumeric() {
            vec![format!("word{}word", c.to_ascii_lowercase())]
        } else {
            vec!["word".to_string()]
        };
        assert_eq!(content_tokens(&word), want, "{c:?}");
    }
}

#[test]
fn other_scripts_have_lower_case_too() {
    assert_eq!(content_tokens("ÄRGER über ΣΊΣΥΦΟΣ"), vec!["ärger", "über", "σίσυφος"]);
    assert_eq!(normalize("ÄB\u{3000}C").iter().collect::<String>(), "äbc");
    assert_eq!(normalize("İ").iter().collect::<String>(), "i\u{307}");
}

const SAMPLES: [&str; 10] =
    ["", " ", "a", " a ", "\u{a0}ä b\u{2003}", "abcabc", "日本語", "ab", "b", "\n\t x\ty \r\n"];

#[test]
fn texts_are_searched_and_trimmed_by_characters() {
    for s in SAMPLES {
        assert_eq!(trim(s), s.trim());
        assert_eq!(is_blank(s), s.trim().is_empty());
        for t in SAMPLES {
            assert_eq!(contains(s, t), s.contains(t), "{s:?} {t:?}");
            assert_eq!(starts_with(s, t), s.starts_with(t));
            assert_eq!(strip_prefix(s, t).as_deref(), s.strip_prefix(t));
        }
    }
}

#[test]
fn texts_are_cut_and_filled_by_characters() {
    assert_eq!(clip("日本語", 3), "日本語");
    assert_eq!(clip("日本語", 2), "日本…");
    assert_eq!(head("日本語", 2), "日本");
    assert_eq!(head("日", 2), "日");
    for s in SAMPLES {
        assert_eq!(pad_right(s, 4), format!("{s:<4}"));
        assert_eq!(pad_left(s, 4), format!("{s:>4}"));
    }
    assert_eq!(join(&vec!["a".into(), "b".into(), "".into()], ", "), "a, b, ");
}

#[test]
fn numbers_are_written_and_read_in_decimals() {
    for n in [0, 1, 9, 10, 99, 1000, u64::MAX - 1, u64::MAX] {
        assert_eq!(decimal_text(n), n.to_string());
        assert_eq!(parse_number(&decimal_text(n), u64::MAX), Some(n));
    }
    for s in ["", "+", "-", "+1", "-1", "--1", "-0", "007", " 1", "1 ", "1_0", "٣", "0x1"] {
        assert_eq!(parse_number(s, u64::MAX), s.parse::<u64>().ok(), "{s:?}");
        assert_eq!(parse_signed(s), s.parse::<i32>().ok(), "{s:?}");
    }
    for s in ["4294967295", "4294967296", "18446744073709551615", "18446744073709551616"] {
        assert_eq!(parse_number(s, u64::MAX), s.parse::<u64>().ok());
        assert_eq!(parse_number(s, 0xffff_ffff), s.parse::<u32>().ok().map(u64::from));
    }
    for s in ["2147483647", "2147483648", "-2147483648", "-2147483649"] {
        assert_eq!(parse_signed(s), s.parse::<i32>().ok());
    }
}
