use hyprresume::collections::StringMap;
use hyprresume::paths::{extension, file_name, file_stem, join_path};
use hyprresume::text;
use std::path::Path;

const SAMPLES: [&str; 22] = [
    "", " ", "a", "a b", "  a  b ", "a,b,,c", ",", "aaa", "abab", "a\nb\r\nc\n", "\n", "\r\n",
    "x=\"y\"", "\"\"", "ünï côdé", "0x0xab", "a::b::c", "::", "\u{3000}wide\u{3000}", "tab\tend",
    "-12", "trail\r",
];

#[test]
fn searching_agrees_with_std() {
    for s in SAMPLES {
        for pat in ["a", "b", ",", "::", "ab", " ", "0x", "zz", "ï"] {
            let find = s.find(pat).map(|i| s[..i].chars().count());
            let rfind = s.rfind(pat).map(|i| s[..i].chars().count());
            assert_eq!(text::find(s, pat), find, "{s:?} {pat:?}");
            assert_eq!(text::rfind(s, pat), rfind, "{s:?} {pat:?}");
            assert_eq!(text::contains(s, pat), s.contains(pat));
            assert_eq!(text::starts_with(s, pat), s.starts_with(pat));
            assert_eq!(text::ends_with(s, pat), s.ends_with(pat));
            assert_eq!(text::strip_prefix(s, pat), s.strip_prefix(pat));
            assert_eq!(text::strip_suffix(s, pat), s.strip_suffix(pat));
            assert_eq!(text::split_once(s, pat), s.split_once(pat));
            assert_eq!(text::rsplit_once(s, pat), s.rsplit_once(pat));
            assert_eq!(
                text::trim_start_matches(s, pat),
                s.trim_start_matches(pat),
                "{s:?} {pat:?}"
            );
            assert_eq!(text::split(s, pat), s.split(pat).collect::<Vec<_>>());
        }
    }
}

#[test]
fn trimming_and_splitting_agree_with_std() {
    for s in SAMPLES {
        assert_eq!(text::trim(s), s.trim(), "{s:?}");
        assert_eq!(text::trim_matches(s, '"'), s.trim_matches('"'), "{s:?}");
        assert_eq!(
            text::split_whitespace(s),
            s.split_whitespace().collect::<Vec<_>>(),
            "{s:?}"
        );
        assert_eq!(text::lines(s), s.lines().collect::<Vec<_>>(), "{s:?}");
        assert_eq!(text::is_empty(s), s.is_empty());
        assert_eq!(text::chars_of(s), s.chars().collect::<Vec<_>>());
        assert_eq!(text::replace(s, 'a', "bc"), s.replace('a', "bc"));
        assert_eq!(text::pad_right(s, 6), format!("{s:<6}"));
        assert_eq!(
            text::is_all_digits(s),
            s.chars().all(|c| c.is_ascii_digit())
        );
        for t in SAMPLES {
            assert_eq!(text::str_eq(s, t), s == t);
            assert_eq!(text::is_before(s, t), s < t, "{s:?} {t:?}");
            assert_eq!(
                text::eq_ignore_ascii_case(s, t),
                s.eq_ignore_ascii_case(t)
            );
        }
    }
    assert!(text::eq_ignore_ascii_case("TrUe", "tRuE"));
    assert!(!text::eq_ignore_ascii_case("Ü", "ü"));
    assert!(text::is_all_digits("0123456789"));
}

#[test]
fn whitespace_agrees_with_std() {
    for c in '\0'..=char::MAX {
        assert_eq!(text::is_whitespace(c), c.is_whitespace(), "{c:?}");
    }
}

#[test]
fn joining_agrees_with_std() {
    assert_eq!(text::join(&vec![], ", "), "");
    assert_eq!(text::join(&vec!["a"], ", "), "a");
    assert_eq!(text::join(&vec!["a", "", "b"], ", "), "a, , b");
}

#[test]
fn numbers_agree_with_std() {
    for n in [0, 1, -1, 9, 10, -10, 12345, i64::MAX, i64::MIN] {
        assert_eq!(text::int_to_string(n), n.to_string());
    }
    for n in [0, 7, 10, 99, 100, usize::MAX] {
        assert_eq!(text::count_to_string(n), n.to_string());
    }
    let numbers = [
        "0", "-0", "+5", "-5", "007", "", "-", "+", "1a", " 1", "1 ", "--1",
        "9223372036854775807", "9223372036854775808", "-9223372036854775808",
        "-9223372036854775809", "99999999999999999999", "１",
    ];
    for s in numbers {
        assert_eq!(text::parse_i64(s), s.parse::<i64>().ok(), "{s:?}");
    }
}

#[test]
fn lists_of_texts() {
    let mut v: Vec<String> = vec![];
    for s in ["b", "a", "10", "2", "a", "c"] {
        if !text::contains_text(&v, s) {
            text::insert_in_order(&mut v, s);
        }
    }
    assert_eq!(v, vec!["10", "2", "a", "b", "c"]);
}

#[test]
fn paths_agree_with_std() {
    let paths = [
        "", "/", "a", "/a", "a/", "a//", "/a/b.desktop", "a/..", "..", ".", "a/.", "a/./", "./a",
        "//a//b", ".hidden", "a.b.c", "a.", "/usr/bin/env", "dir.d/file",
    ];
    for path in paths {
        let name = Path::new(path).file_name().map(|n| n.to_str().unwrap());
        assert_eq!(file_name(path), name, "{path:?}");
        if let Some(name) = name {
            let p = Path::new(name);
            assert_eq!(Some(file_stem(name)), p.file_stem().unwrap().to_str());
            assert_eq!(extension(name), p.extension().map(|e| e.to_str().unwrap()));
        }
        for rest in ["x", "x/y", "/x", ""] {
            let joined = Path::new(path).join(rest);
            assert_eq!(
                join_path(path, rest),
                joined.to_str().unwrap(),
                "{path:?} {rest:?}"
            );
        }
    }
}

#[test]
fn maps_keep_one_value_for_a_key() {
    let mut map: StringMap<i32> = StringMap::new();
    assert!(map.is_empty());
    map.insert("a".to_string(), 1);
    map.insert("b".to_string(), 2);
    map.insert("a".to_string(), 3);
    assert_eq!(map.len(), 2);
    assert_eq!(map.get("a"), Some(&3));
    assert!(map.contains_key("b"));
    assert!(!map.contains_key("c"));
    let mut keys: Vec<String> = (0..map.len()).map(|i| map.entry(i).0.clone()).collect();
    keys.sort();
    assert_eq!(keys, vec!["a", "b"]);
    assert_eq!(map.remove("a"), Some(3));
    assert_eq!(map.remove("a"), None);
    assert_eq!(map.get("a"), None);
    assert_eq!(map.len(), 1);
}
