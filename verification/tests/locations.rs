//! The locations file of a build cache.

use fpp_phases::locations::{map_source_to_build, parse_fprime_locations};

fn pair(source: &str, build: &str) -> (String, String) {
    (source.to_string(), build.to_string())
}

#[test]
fn parses_fprime_locations_pairs() {
    let pairs = parse_fprime_locations(
        "/proj\n/proj/build-fprime-automatic-native\n/fprime\n/proj/build-fprime-automatic-native/F-Prime\n",
    );
    assert_eq!(pairs.len(), 2);
    assert_eq!(
        map_source_to_build(&pairs, "/proj/Ref/Top"),
        Some("/proj/build-fprime-automatic-native/Ref/Top".to_string())
    );
    assert_eq!(
        map_source_to_build(&pairs, "/fprime/Svc/Top"),
        Some("/proj/build-fprime-automatic-native/F-Prime/Svc/Top".to_string())
    );
    assert_eq!(map_source_to_build(&pairs, "/elsewhere"), None);
}

#[test]
fn longest_source_root_wins() {
    let pairs = vec![pair("/a", "/b1"), pair("/a/lib", "/b2")];
    assert_eq!(
        map_source_to_build(&pairs, "/a/lib/x"),
        Some("/b2/x".to_string())
    );
}

#[test]
fn order_of_the_pairs_does_not_matter() {
    let pairs = vec![pair("/a/lib", "/b2"), pair("/a", "/b1")];
    assert_eq!(map_source_to_build(&pairs, "/a/lib/x"), Some("/b2/x".to_string()));
    assert_eq!(map_source_to_build(&pairs, "/a/library/x"), Some("/b1/library/x".to_string()));
}

#[test]
fn last_of_equally_long_roots_wins() {
    let pairs = vec![pair("/a", "/b1"), pair("/a", "/b2"), pair("/c", "/b3")];
    assert_eq!(map_source_to_build(&pairs, "/a/x"), Some("/b2/x".to_string()));
}

#[test]
fn length_of_a_root_is_in_bytes() {
    // Three letters of two bytes each, against a root with a separator more.
    let pairs = vec![pair("/\u{e9}\u{e9}", "/b1"), pair("/\u{e9}\u{e9}/", "/b2")];
    assert_eq!(map_source_to_build(&pairs, "/\u{e9}\u{e9}/x"), Some("/b2/x".to_string()));
}

#[test]
fn source_root_itself_is_mapped() {
    let pairs = vec![pair("/a/", "/b")];
    assert_eq!(map_source_to_build(&pairs, "/a"), Some("/b/".to_string()));
    assert_eq!(map_source_to_build(&[], "/a"), None);
}

#[test]
fn odd_last_line_is_left_out() {
    let pairs = parse_fprime_locations("  /a \r\n\n\t/b\n/c");
    assert_eq!(pairs, vec![pair("/a", "/b")]);
    assert!(parse_fprime_locations("").is_empty());
    assert!(parse_fprime_locations("/a\n").is_empty());
}
