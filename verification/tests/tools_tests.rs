use justext::tools::component_start;
use justext::tools::contains_char;
use justext::tools::contains_sub;
use justext::tools::heading_path;
use justext::tools::http_body;
use justext::tools::implode;
use justext::tools::matches_at;
use justext::tools::normalize_ws;
use justext::tools::replace_a_to_b;
use justext::tools::str_eq;
use justext::tools::wrap_text;

#[test]
fn replace_basic() {
    let mut s = String::from("a&nbsp;b&nbsp;c");
    replace_a_to_b(&mut s, "&nbsp;", " ");
    assert_eq!(s, "a b c");
}

#[test]
fn replace_no_rescan() {
    let mut s = String::from("aaaa");
    replace_a_to_b(&mut s, "aa", "b");
    assert_eq!(s, "bb");
    let mut t = String::from("ab");
    replace_a_to_b(&mut t, "b", "ab");
    assert_eq!(t, "aab");
}

#[test]
fn replace_absent_pattern() {
    let mut s = String::from("hello");
    replace_a_to_b(&mut s, "xyz", "!");
    assert_eq!(s, "hello");
}

#[test]
fn implode_joins_with_delimiter() {
    let items = vec![
        String::from("body"),
        String::from("div"),
        String::from("p"),
    ];
    assert_eq!(implode(&items, "."), "body.div.p");
    assert_eq!(implode(&vec![], "."), "");
    assert_eq!(implode(&vec![String::from("x")], "."), "x");
}

#[test]
fn wrap_breaks_at_first_space_past_width() {
    assert_eq!(wrap_text("aaa bbb ccc", 3), "aaa\nbbb\nccc");
    assert_eq!(wrap_text("short line", 80), "short line");
    assert_eq!(wrap_text("ab\ncd ef", 2), "ab\ncd\nef");
}

#[test]
fn normalize_collapses_whitespace() {
    assert_eq!(normalize_ws("a  \t\n  b", false), "a b");
    assert_eq!(normalize_ws("a&nbsp;b", false), "a b");
}

#[test]
fn normalize_preformatted_keeps_line_breaks() {
    assert_eq!(normalize_ws("a \t \n  b", true), "a \n b");
}

#[test]
fn string_search_helpers() {
    assert!(matches_at("abcdef", 2, "cde"));
    assert!(!matches_at("abcdef", 2, "cdf"));
    assert!(contains_sub("say &copy now", "&copy"));
    assert!(!contains_sub("say copy now", "&copy"));
    assert!(contains_char("a\u{a9}b", '\u{a9}'));
    assert!(!contains_char("ab", '\u{a9}'));
    assert!(str_eq("same", "same"));
    assert!(!str_eq("same", "sane"));
}

#[test]
fn path_patterns() {
    assert!(heading_path("h1.div"));
    assert!(heading_path("body.h2"));
    assert!(!heading_path("body.ha"));
    assert!(!heading_path("html"));
    assert!(component_start("li.p", "li"));
    assert!(component_start("body.ul.li", "li"));
    assert!(!component_start("body.client", "li"));
    assert!(component_start("body.list", "li"));
    assert!(component_start("body.select", "select"));
    assert!(!component_start("body.div", "select"));
}

#[test]
fn http_body_splits_at_first_blank_line() {
    let response = "HTTP/1.1 200 OK\r\nContent-Type: text/html\r\n\r\n<html>x</html>";
    assert_eq!(http_body(response), Some(String::from("<html>x</html>")));
    assert_eq!(http_body("no header end"), None);
    assert_eq!(http_body("a\r\n\r\nb\r\n\r\nc"), Some(String::from("b\r\n\r\nc")));
}
