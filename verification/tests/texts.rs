//! Text and paths, held against the standard library.

use fpp_phases::path::{file_name, join, parent, strip_prefix};
use fpp_phases::text::{
    is_less, is_whitespace, joined, same_text, split_content, to_decimal, trimmed, TextLines,
};
use std::path::Path;

/// All texts over the letters of up to `len` letters.
fn words(letters: &[char], len: usize) -> Vec<String> {
    let mut all = vec![String::new()];
    let mut last = vec![String::new()];
    for _ in 0..len {
        let mut next = vec![];
        for word in &last {
            for c in letters {
                let mut longer = word.clone();
                longer.push(*c);
                next.push(longer);
            }
        }
        all.extend(next.iter().cloned());
        last = next;
    }
    all
}

#[test]
fn whitespace_is_that_of_unicode() {
    for c in '\0'..=char::MAX {
        assert_eq!(is_whitespace(c), c.is_whitespace(), "{:?}", c);
    }
}

#[test]
fn trimming_drops_whitespace_around_the_text() {
    for word in words(&['a', ' ', '\n', '\u{3000}'], 6) {
        assert_eq!(trimmed(&word), word.trim());
    }
}

#[test]
fn lines_end_with_a_line_feed() {
    for word in words(&['a', ' ', '\r', '\n'], 7) {
        let lines = TextLines::split(&word);
        let expected: Vec<&str> = word.lines().collect();
        assert_eq!(lines.len(), expected.len(), "{:?}", word);
        for (i, line) in expected.iter().enumerate() {
            let text: String = lines.trimmed_line(i).into_iter().collect();
            assert_eq!(text, line.trim(), "{:?}", word);
            assert_eq!(lines.is_blank(i), line.trim().is_empty());
            assert_eq!(lines.begins_with(i, &vec!['a']), line.trim_start().starts_with('a'));
            assert_eq!(lines.is_text(i, &vec!['a', 'a']), line.trim() == "aa");
        }
    }
}

#[test]
fn content_is_what_is_not_blank() {
    for word in words(&['a', '\t', '\r', '\n'], 7) {
        let content: Vec<String> =
            split_content(&word).into_iter().map(|l| l.into_iter().collect()).collect();
        let expected: Vec<&str> = word.lines().map(str::trim).filter(|l| !l.is_empty()).collect();
        assert_eq!(content, expected, "{:?}", word);
    }
}

#[test]
fn braces_are_counted_by_line() {
    let lines = TextLines::split("{{}\n}a}\n{}\nno\n");
    assert_eq!(lines.braces(0), (1, true));
    assert_eq!(lines.braces(1), (-2, false));
    assert_eq!(lines.braces(2), (0, true));
    assert_eq!(lines.braces(3), (0, false));
}

#[test]
fn numbers_are_written_in_decimal() {
    for n in [0, 1, 9, 10, 11, 99, 100, 1234567890, i128::MAX, -1, -9, -10, -100, i128::MIN] {
        assert_eq!(to_decimal(n), n.to_string());
    }
}

#[test]
fn parts_are_joined_with_separators() {
    let parts = |list: &[&str]| list.iter().map(|s| s.to_string()).collect::<Vec<String>>();
    assert_eq!(joined(&parts(&[]), ", "), "");
    assert_eq!(joined(&parts(&["a"]), ", "), "a");
    assert_eq!(joined(&parts(&["a", "", "b"]), ", "), "a, , b");
}

#[test]
fn order_is_that_of_strings() {
    let all = words(&['a', 'b', '\u{e9}', '\u{1f600}'], 3);
    for a in &all {
        for b in &all {
            assert_eq!(is_less(a, b), a < b);
            assert_eq!(same_text(a, b), a == b);
        }
    }
}

#[test]
fn prefixes_are_stripped_by_component() {
    let all = words(&['/', '.', 'a'], 5);
    for path in &all {
        for base in &all {
            let expected = Path::new(path).strip_prefix(base).ok().map(|p| p.to_str().unwrap());
            assert_eq!(strip_prefix(path, base).as_deref(), expected, "{} {}", path, base);
        }
    }
}

#[test]
fn paths_are_joined_with_one_separator() {
    let all = words(&['/', '.', 'a'], 4);
    for base in &all {
        for path in &all {
            let expected = Path::new(base).join(path);
            assert_eq!(join(base, path), expected.to_str().unwrap(), "{} {}", base, path);
        }
    }
}

#[test]
fn parents_and_names_are_those_of_paths() {
    for path in words(&['/', '.', 'a', '\u{e9}'], 7) {
        let std_path = Path::new(&path);
        assert_eq!(parent(&path).as_deref(), std_path.parent().map(|p| p.to_str().unwrap()), "{}", path);
        assert_eq!(
            file_name(&path).as_deref(),
            std_path.file_name().map(|n| n.to_str().unwrap()),
            "{}",
            path
        );
    }
}

#[test]
fn joining_undoes_stripping() {
    let rest = strip_prefix("/a//b/./c/", "/a/b").unwrap();
    assert_eq!(rest, "c");
    assert_eq!(join("/a/b", &rest), "/a/b/c");
    assert_eq!(parent("/a/b/c").as_deref(), Some("/a/b"));
    assert_eq!(strip_prefix("/ab", "/a"), None);
}

#[test]
fn parent_undoes_joining_a_name() {
    for base in ["/a/b", "/", "a", "a/./b"] {
        let whole = join(base, "locs.fpp");
        assert_eq!(file_name(&whole).as_deref(), Some("locs.fpp"));
        let up = parent(&whole).unwrap();
        assert_eq!(Path::new(&up), Path::new(base));
    }
}
