use pwatch::text;

fn chars(s: &str) -> Vec<char> {
    s.chars().collect()
}

fn strings(parts: Vec<&[char]>) -> Vec<String> {
    parts.iter().map(|p| p.iter().collect()).collect()
}

const SAMPLES: [&str; 16] = [
    "",
    " ",
    "a",
    " a b ",
    "\t\u{a0}x\u{3000}y\u{2009}",
    "a\nb\n",
    "a\r\nb\r\r\nc\r",
    "\n\n",
    "\r\n",
    "one two  three",
    "/usr/lib/libc.so.6",
    "//a//./b/.",
    "..",
    "a/..",
    "./",
    "\u{200b}zero width\u{feff}",
];

#[test]
fn white_space_agrees_with_char() {
    for c in '\0'..=char::MAX {
        assert_eq!(text::white_space(c), c.is_whitespace(), "{:?}", c);
    }
}

#[test]
fn trim_agrees_with_str() {
    for s in SAMPLES {
        let trimmed: String = text::trim(&chars(s)).iter().collect();
        assert_eq!(trimmed, s.trim());
    }
}

#[test]
fn words_agree_with_str() {
    for s in SAMPLES {
        let c = chars(s);
        let expected: Vec<String> = s.split_whitespace().map(|w| w.to_string()).collect();
        assert_eq!(strings(text::split_words(&c)), expected);
    }
}

#[test]
fn lines_agree_with_str() {
    for s in SAMPLES {
        let c = chars(s);
        let expected: Vec<String> = s.lines().map(|w| w.to_string()).collect();
        assert_eq!(strings(text::split_lines(&c)), expected);
    }
}

#[test]
fn pieces_agree_with_str() {
    for s in SAMPLES {
        let c = chars(s);
        let expected: Vec<String> = s.split('/').map(|w| w.to_string()).collect();
        assert_eq!(strings(text::split_chars(&c, '/')), expected);
    }
    assert_eq!(text::split_bytes(b"a\0\0b\0", 0), vec![&b"a"[..], &b""[..], &b"b"[..], &b""[..]]);
}

#[test]
fn cut_once_agrees_with_str() {
    for s in ["", "+", "a+b", "a+b+c", "ab"] {
        let c = chars(s);
        let cut = text::cut_once(&c, '+').map(|(l, r)| {
            (l.iter().collect::<String>(), r.iter().collect::<String>())
        });
        let expected = s.split_once('+').map(|(l, r)| (l.to_string(), r.to_string()));
        assert_eq!(cut, expected);
    }
}

#[test]
fn lower_case_agrees_with_str() {
    for s in ["", "LibC.SO", "\u{c4}\u{d6}Z[@", "abz"] {
        let lower: String = text::to_lower(&chars(s)).iter().collect();
        assert_eq!(lower, s.to_ascii_lowercase());
        let again: String = text::to_lower(&chars(&lower)).iter().collect();
        assert_eq!(again, lower);
    }
}

#[test]
fn prefixes_suffixes_and_substrings() {
    let s = chars("libfoo.so");
    assert_eq!(text::after_prefix(&s, &chars("lib")), Some(&chars("foo.so")[..]));
    assert_eq!(text::after_prefix(&s, &chars("")), Some(&s[..]));
    assert_eq!(text::after_prefix(&s, &chars("foo")), None);
    assert_eq!(text::after_prefix(&chars("li"), &chars("lib")), None);
    assert!(text::has_suffix(&s, &chars(".so")));
    assert!(!text::has_suffix(&s, &chars(".a")));
    assert!(!text::has_suffix(&chars("so"), &chars(".so")));
    for needle in ["", "lib", "foo", "so", "libfoo.so", "libfoo.so.6", "xyz"] {
        assert_eq!(text::has_text(&s, &chars(needle)), "libfoo.so".contains(needle));
    }
}

#[test]
fn file_names_agree_with_path() {
    for s in SAMPLES {
        let c = chars(s);
        let name = text::last_component(&c).map(|n| n.iter().collect::<String>());
        let expected = std::path::Path::new(s).file_name().map(|n| n.to_str().unwrap().to_string());
        assert_eq!(name, expected, "{:?}", s);
    }
    for s in ["/a/b (deleted)", "[heap]", "/", "/..", "/a/./", "a/.b", "...", "a//"] {
        let c = chars(s);
        let name = text::last_component(&c).map(|n| n.iter().collect::<String>());
        let expected = std::path::Path::new(s).file_name().map(|n| n.to_str().unwrap().to_string());
        assert_eq!(name, expected, "{:?}", s);
    }
}

#[test]
fn strings_are_built_from_characters() {
    assert_eq!(text::string_of(&chars("h\u{e9}llo")), "h\u{e9}llo");
    assert_eq!(text::concat("a\u{20ac}", "b"), "a\u{20ac}b");
    assert_eq!(text::chars_of("a\u{20ac}"), vec!['a', '\u{20ac}']);
    let a = chars("x");
    let b = chars("y z");
    let parts: Vec<&[char]> = vec![&a, &b, &a];
    assert_eq!(text::join_from(&parts, 0, ' '), "x y z x");
    assert_eq!(text::join_from(&parts, 2, ' '), "x");
    assert_eq!(text::join_from(&parts, 3, ' '), "");
}
