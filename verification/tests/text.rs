use gi::text::{
    self, after_prefix, chars_of, concat3, contains, copies, ends_with, is_before, is_blank,
    is_white_space, join, number, parse_number, piece, same, split, split_first, split_lines,
    split_n, starts_with, strip, trim, up_to_last, words,
};

const SAMPLES: [&str; 18] = [
    "",
    " ",
    "a",
    "a b",
    "  a b\t\n",
    "\u{a0}x\u{3000}",
    "a/b/c",
    "/a//b/",
    "line\nline\r\n\r\nlast",
    "ends\n",
    "\n",
    "\r\n",
    "cr\rinside\r",
    "äöü → ß",
    "aaa",
    "[[x]]",
    "1,2,,3",
    "+12",
];

#[test]
fn white_space_is_that_of_unicode() {
    for n in 0..=0x10ffffu32 {
        if let Some(c) = char::from_u32(n) {
            assert_eq!(is_white_space(c), c.is_whitespace(), "{:x}", n);
        }
    }
}

#[test]
fn trims_and_tells_blank() {
    for s in SAMPLES {
        assert_eq!(trim(s), s.trim());
        assert_eq!(is_blank(s), s.trim().is_empty());
    }
    assert_eq!(trim("  a b\t\n"), "a b");
    assert_eq!(trim("\u{a0}x\u{3000}"), "x");
}

#[test]
fn splits_at_a_character() {
    for s in SAMPLES {
        for c in ['/', ' ', ',', '\n', 'x'] {
            let want: Vec<&str> = s.split(c).collect();
            assert_eq!(split(s, c), want);
            for n in 1..4 {
                let want: Vec<&str> = s.splitn(n, c).collect();
                assert_eq!(split_n(s, c, n), want);
            }
            let first = s.split_once(c).map(|(a, b)| (a.to_string(), b.to_string()));
            assert_eq!(split_first(s, c), first);
        }
    }
    assert_eq!(split("a//b", '/'), vec!["a", "", "b"]);
}

#[test]
fn splits_into_lines() {
    for s in SAMPLES {
        let want: Vec<&str> = s.lines().collect();
        assert_eq!(split_lines(s), want);
    }
    assert_eq!(split_lines("a\r\nb\n\nc"), vec!["a", "b", "", "c"]);
}

#[test]
fn joining_the_parts_gives_the_text_back() {
    for s in SAMPLES {
        assert_eq!(join(&split(s, '/'), "/"), s);
    }
    assert_eq!(join(&words(&["a", "b", "c"]), "\n  "), "a\n  b\n  c");
    assert_eq!(join(&Vec::new(), ", "), "");
}

#[test]
fn finds_beginnings_ends_and_middles() {
    for s in SAMPLES {
        for p in ["", "a", "a/", "/", "\n", "aa", "[", "]]", "zz", "1,2"] {
            assert_eq!(starts_with(s, p), s.starts_with(p));
            assert_eq!(ends_with(s, p), s.ends_with(p));
            assert_eq!(contains(s, p), s.contains(p));
            assert_eq!(after_prefix(s, p), s.strip_prefix(p).map(|r| r.to_string()));
        }
    }
}

#[test]
fn strips_brackets() {
    for s in SAMPLES {
        assert_eq!(strip(s, '[', ']'), s.trim_start_matches('[').trim_end_matches(']'));
    }
    assert_eq!(strip("[[x]]", '[', ']'), "x");
}

#[test]
fn takes_what_stands_before_the_last_slash() {
    assert_eq!(up_to_last("a/b/c", '/'), "a/b");
    assert_eq!(up_to_last("abc", '/'), "");
    assert_eq!(up_to_last("/a", '/'), "");
}

#[test]
fn writes_numbers_and_reads_them_back() {
    for n in [0usize, 1, 9, 10, 99, 100, 12345, usize::MAX] {
        assert_eq!(number(n), n.to_string());
        assert_eq!(parse_number(&number(n)), Some(n));
    }
    for s in ["", "+", "-1", "+7", "007", "1a", " 1", "18446744073709551616", "٣"] {
        assert_eq!(parse_number(s), s.parse::<usize>().ok(), "{}", s);
    }
}

#[test]
fn orders_like_the_standard_library() {
    for a in SAMPLES {
        for b in SAMPLES {
            let x: Vec<char> = chars_of(a);
            let y: Vec<char> = chars_of(b);
            assert_eq!(is_before(&x, &y), a < b);
            assert_eq!(same(a, b), a == b);
        }
    }
}

#[test]
fn puts_texts_together() {
    assert_eq!(text::concat("a", "b"), "ab");
    assert_eq!(concat3("a", "/", "b"), "a/b");
    assert_eq!(copies(&words(&["x", ""])), vec!["x", ""]);
    assert_eq!(piece(&chars_of("äbc"), 1, 3), "bc");
}
