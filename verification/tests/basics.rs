use std::path::Path;

use zejtron::clock::{format_system_time, Timestamp, FIRST_SECOND, LAST_SECOND};
use zejtron::filepath::FilePath;
use zejtron::number::{
    decimal_text, human_bytes, octal4_text, parse_i32, parse_u32, parse_u64, signed_text, wide_text,
};
use zejtron::text::{
    after_last_of, contains_text, join_texts, split_lines, split_on, split_once_on, split_words,
    trim_text, unique_texts,
};

const TEXTS: [&str; 14] = [
    "",
    " ",
    "a",
    " a b ",
    "a\nb\r\nc",
    "a\n\n",
    "\n",
    "\r\n",
    "a\rb\n",
    "\u{a0}x\u{3000}\u{2003}y\u{85}",
    "é ü\tß",
    "::a:b::",
    "x\u{b}\u{c}y\u{1c}z",
    "tail\r",
];

#[test]
fn text_splits_like_std() {
    for s in TEXTS {
        assert_eq!(trim_text(s), s.trim());
        assert_eq!(split_lines(s), s.lines().collect::<Vec<_>>());
        assert_eq!(split_words(s), s.split_whitespace().collect::<Vec<_>>());
        assert_eq!(split_on(s, ':'), s.split(':').collect::<Vec<_>>());
        assert_eq!(
            split_once_on(s, ':'),
            s.split_once(':')
                .map(|(a, b)| (a.to_owned(), b.to_owned()))
        );
        assert_eq!(after_last_of(s, ':'), s.rsplit(':').next().unwrap());
        for needle in ["", "a", " b", "::", "x\u{b}", "zz"] {
            assert_eq!(contains_text(s, needle), s.contains(needle));
        }
    }
}

#[test]
fn texts_join_like_std() {
    let list: Vec<String> = ["a", "", "b"].iter().map(|s| s.to_string()).collect();
    assert_eq!(join_texts(&list, ", "), list.join(", "));
    assert_eq!(join_texts(&vec![], ", "), "");
    assert_eq!(unique_texts(&vec![]), Vec::<String>::new());
    let repeated: Vec<String> = ["a", "b", "a", "c", "b"]
        .iter()
        .map(|s| s.to_string())
        .collect();
    assert_eq!(unique_texts(&repeated), vec!["a", "b", "c"]);
}

#[test]
fn numbers_parse_like_std() {
    for s in [
        "", "+", "-", "0", "+0", "-0", "00", "7", "+7", "-7", "65535", "4294967295",
        "4294967296", "18446744073709551615", "18446744073709551616", "2147483647",
        "2147483648", "-2147483648", "-2147483649", " 1", "1 ", "1a", "ff", "FF", "+ff", "٣",
    ] {
        assert_eq!(parse_u64(s), s.parse::<u64>().ok());
        assert_eq!(parse_i32(s), s.parse::<i32>().ok());
        assert_eq!(parse_u32(s, 10), s.parse::<u32>().ok());
        assert_eq!(parse_u32(s, 16), u32::from_str_radix(s, 16).ok());
    }
}

#[test]
fn numbers_print_like_std_and_read_back() {
    for n in [0u64, 9, 10, 99, 100, 12345, u64::MAX] {
        assert_eq!(decimal_text(n), n.to_string());
        assert_eq!(parse_u64(&decimal_text(n)), Some(n));
    }
    for n in [0i32, 7, -7, i32::MAX, i32::MIN] {
        assert_eq!(signed_text(n), n.to_string());
        assert_eq!(parse_i32(&signed_text(n)), Some(n));
    }
    for n in [0u32, 0o7, 0o644, 0o4755, 0o7777] {
        assert_eq!(octal4_text(n), format!("{n:04o}"));
    }
}

#[test]
fn bytes_are_rounded_like_floats() {
    let mut samples = vec![0u64, 1, 1023, 1024, 1075, 1076, 1126, 123456, 654321, u64::MAX];
    for shift in 10..64 {
        let base = 1u64 << shift;
        for extra in [0u64, 1, 51, 52, 512, 524288] {
            samples.push(base.wrapping_add(extra));
            samples.push(base - extra.min(base));
            samples.push((base / 20).wrapping_mul(21).wrapping_add(extra));
        }
    }
    for b in samples {
        let expected = if b >= 1024 * 1024 * 1024 {
            format!("{:.2}GB", b as f64 / 1024.0 / 1024.0 / 1024.0)
        } else if b >= 1024 * 1024 {
            format!("{:.1}MB", b as f64 / 1024.0 / 1024.0)
        } else if b >= 1024 {
            format!("{:.1}KB", b as f64 / 1024.0)
        } else {
            format!("{b}B")
        };
        assert_eq!(human_bytes(b), expected, "for {b}");
    }
}

const PATHS: [&str; 22] = [
    "", "/", "//", ".", "./", "..", "/a", "/a/", "//a//", "a", "a/", "a/b", "./a", "./a/b/",
    "/a/./b", "/a/b/.", "/a/b/..", "a/./", "/.", "a//b", "./.", ".//a",
];

#[test]
fn paths_behave_like_std() {
    for s in PATHS {
        let own = FilePath::new(s);
        assert_eq!(own.display(), Path::new(s).display().to_string());
        assert_eq!(own.is_absolute(), Path::new(s).is_absolute());
        assert_eq!(
            own.parent().map(|p| p.display()),
            Path::new(s).parent().map(|p| p.display().to_string()),
            "parent of {s:?}"
        );
        for tail in PATHS {
            assert_eq!(
                own.join(&FilePath::new(tail)).display(),
                Path::new(s).join(tail).display().to_string(),
                "{s:?} joined with {tail:?}"
            );
        }
    }
}

#[test]
fn texts_are_shown_as_themselves() {
    for s in ["", "/tmp/file with spaces", "/é/\u{1f600}"] {
        assert_eq!(FilePath::new(s).display(), s);
    }
}

#[test]
fn times_are_shown_by_the_local_clock() {
    let shown = |secs, offset| format_system_time(Timestamp::new(secs, offset).unwrap());
    assert_eq!(shown(0, 0), "1970-01-01 00:00:00");
    assert_eq!(shown(-1, 0), "1969-12-31 23:59:59");
    assert_eq!(shown(1_700_000_000, 0), "2023-11-14 22:13:20");
    assert_eq!(shown(1_700_000_000, 7 * 3600), "2023-11-15 05:13:20");
    assert_eq!(shown(951_782_400, 0), "2000-02-29 00:00:00");
    assert_eq!(shown(4_107_542_400, 0), "2100-03-01 00:00:00");
    assert_eq!(shown(253_402_300_800, 0), "+10000-01-01 00:00:00");
    assert_eq!(shown(-62_167_219_200, 0), "0000-01-01 00:00:00");
    assert_eq!(shown(-62_167_219_201, 0), "-0001-12-31 23:59:59");
    assert_eq!(shown(FIRST_SECOND, -86399), "-262144-12-31 00:00:01");
    assert_eq!(shown(LAST_SECOND, 86399), "+262143-01-01 23:59:58");
}

#[test]
fn moments_without_a_date_are_refused() {
    assert!(Timestamp::new(FIRST_SECOND - 1, 0).is_none());
    assert!(Timestamp::new(LAST_SECOND + 1, 0).is_none());
    assert!(Timestamp::new(0, 86400).is_none());
    assert!(Timestamp::new(0, -86400).is_none());
    assert!(Timestamp::new(LAST_SECOND, -86399).is_some());
}

#[test]
fn joined_lines_are_found_again() {
    let lines: Vec<String> = ["net", "", "├── interfaces", "end"]
        .iter()
        .map(|s| s.to_string())
        .collect();
    assert_eq!(split_lines(&join_texts(&lines, "\n")), lines);
}

#[test]
fn joined_pieces_are_found_again() {
    let pieces: Vec<String> = ["a", "", "b c", ""].iter().map(|s| s.to_string()).collect();
    assert_eq!(split_on(&join_texts(&pieces, ":"), ':'), pieces);
}

#[test]
fn wide_numbers_are_written_in_decimal() {
    for n in [0, 9, 10, u64::MAX as u128 + 1, u128::MAX] {
        assert_eq!(wide_text(n), n.to_string());
    }
}
