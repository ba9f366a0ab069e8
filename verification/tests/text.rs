use modeldeck::numbers::{
    decimal_of, parse_u16, parse_u32, parse_u64, parse_up_to, signed_decimal_of,
};
use modeldeck::search::{
    comma_separated, contains, ends_with, find, join, last_piece, lines_of, matches_at, replace,
    replace_first, split_at_char, split_chars, split_once, starts_with, strip_prefix,
};
use modeldeck::text::{
    alphanumeric, chars_of, digit, drop_back_char, drop_front_char, lower_char, same, space,
    string_of, trim, trim_chars, trim_end, trim_start,
};

const SAMPLES: [&str; 14] = [
    "",
    " ",
    "a",
    " a ",
    "\u{3000}wide\u{2003}",
    "one\ntwo\r\nthree",
    "one\n\n\r\n",
    "\r",
    "tail\r",
    "a,b,,c, d ,",
    "key=value=more",
    "/models/x/y.gguf",
    "--a--b----",
    "äöü € 🦙 end",
];

#[test]
fn character_classes_agree_with_std() {
    for c in '\0'..=char::MAX {
        assert_eq!(space(c), c.is_whitespace());
        assert_eq!(digit(c), c.is_ascii_digit());
        assert_eq!(alphanumeric(c), c.is_ascii_alphanumeric());
        assert_eq!(lower_char(c), c.to_ascii_lowercase());
    }
}

#[test]
fn trimming_agrees_with_std() {
    for s in SAMPLES {
        assert_eq!(trim(s), s.trim());
        assert_eq!(trim_start(s), s.trim_start());
        assert_eq!(trim_end(s), s.trim_end());
        let v = chars_of(s);
        assert_eq!(string_of(&v), s);
        assert_eq!(string_of(trim_chars(&v)), s.trim());
        assert_eq!(string_of(drop_front_char(&v, '-')), s.trim_start_matches('-'));
        assert_eq!(string_of(drop_back_char(&v, '-')), s.trim_end_matches('-'));
    }
}

#[test]
fn splitting_agrees_with_std() {
    for s in SAMPLES {
        assert_eq!(split_at_char(s, ','), s.split(',').collect::<Vec<_>>());
        assert_eq!(split_at_char(s, '\n'), s.split('\n').collect::<Vec<_>>());
        assert_eq!(lines_of(s), s.lines().collect::<Vec<_>>());
        let v = chars_of(s);
        assert_eq!(
            split_chars(&v, &['-', '.']),
            s.split(|c| c == '-' || c == '.').collect::<Vec<_>>()
        );
        assert_eq!(
            split_once(s, '='),
            s.split_once('=').map(|(a, b)| (a.to_string(), b.to_string()))
        );
        assert_eq!(last_piece(s, '/'), s.rsplit('/').next().unwrap());
        assert_eq!(join(&split_at_char(s, ','), ","), s);
    }
}

#[test]
fn searching_agrees_with_std() {
    for s in SAMPLES {
        for p in ["", "a", "--", "models", "key=", "€", "\n"] {
            assert_eq!(contains(s, p), s.contains(p));
            assert_eq!(starts_with(s, p), s.starts_with(p));
            assert_eq!(ends_with(s, p), s.ends_with(p));
            assert_eq!(strip_prefix(s, p).as_deref(), s.strip_prefix(p));
            let at = find(&chars_of(s), &chars_of(p));
            assert_eq!(at, s.find(p).map(|i| s[..i].chars().count()));
            if let Some(i) = at {
                assert!(matches_at(&chars_of(s), &chars_of(p), i));
            }
            if !p.is_empty() {
                assert_eq!(replace(s, p, "<>"), s.replace(p, "<>"));
                assert_eq!(replace_first(s, p, "<>"), s.replacen(p, "<>", 1));
            }
        }
    }
    assert_eq!(replace("aaaa", "aa", "a"), "aa");
    assert_eq!(replace_first("aaaa", "aa", "b"), "baa");
}

#[test]
fn comma_lists_leave_out_blanks() {
    assert_eq!(comma_separated(" a , ,b,"), vec!["a", "b"]);
    assert!(comma_separated("").is_empty());
    assert_eq!(
        comma_separated("0.0.0.0:8080->8080/tcp, :::8080->8080/tcp"),
        vec!["0.0.0.0:8080->8080/tcp", ":::8080->8080/tcp"]
    );
}

#[test]
fn sameness_is_equality() {
    assert!(same("abc", "abc"));
    assert!(!same("abc", "abd"));
    assert!(!same("", "a"));
}

#[test]
fn numbers_agree_with_std() {
    for s in [
        "", "0", "7", "+7", "-7", "007", "65535", "65536", "4294967295", "4294967296", " 7", "7 ",
        "1e3", "18446744073709551615", "18446744073709551616", "+", "٣",
        "99999999999999999999999999",
    ] {
        assert_eq!(parse_u16(s), s.parse::<u16>().ok());
        assert_eq!(parse_u32(s), s.parse::<u32>().ok());
        assert_eq!(parse_u64(s), s.parse::<u64>().ok());
    }
    assert_eq!(parse_up_to("100", 99), None);
    assert_eq!(parse_up_to("99", 99), Some(99));
    for n in [0, 1, 9, 10, 12345, u64::MAX] {
        assert_eq!(decimal_of(n), n.to_string());
        assert_eq!(parse_u64(&decimal_of(n)), Some(n));
    }
    for n in [0, -1, 127, i32::MIN, i32::MAX] {
        assert_eq!(signed_decimal_of(n), n.to_string());
    }
}
