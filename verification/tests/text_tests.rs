use rustyink::text::{
    chars_of, concat2, concat3, contains, decimal_chars, find_chars, join, same_text,
    signed_decimal_chars, split_chars, string_of, strip_prefix_chars, strip_suffix_chars,
};

fn parts(s: &str, sep: char) -> Vec<String> {
    split_chars(&chars_of(s), sep).iter().map(string_of).collect()
}

#[test]
fn chars_round_trip() {
    let text = "héllo ✔";
    assert_eq!(string_of(&chars_of(text)), text);
    assert_eq!(chars_of("").len(), 0);
}

#[test]
fn strip_prefix_takes_off_a_beginning_only() {
    let strip = |s: &str, p: &str| string_of(&strip_prefix_chars(&chars_of(s), &chars_of(p)));
    assert_eq!(strip("/site/pages/blog/page.md", "/site/pages"), "/blog/page.md");
    assert_eq!(strip("/a/pages/x/pages/y", "/a/pages"), "/x/pages/y");
    assert_eq!(strip("/other/blog", "/site/pages"), "/other/blog");
    assert_eq!(strip("abc", ""), "abc");
    assert_eq!(strip("ab", "abc"), "ab");
    assert_eq!(strip("abc", "abc"), "");
}

#[test]
fn strip_suffix_takes_off_an_end_only() {
    let strip = |s: &str, p: &str| string_of(&strip_suffix_chars(&chars_of(s), &chars_of(p)));
    assert_eq!(strip("homepage.md", ".md"), "homepage");
    assert_eq!(strip("a.md.md", ".md"), "a.md");
    assert_eq!(strip("a.md/b", ".md"), "a.md/b");
    assert_eq!(strip(".md", ".md"), "");
    assert_eq!(strip("md", ".md"), "md");
    assert_eq!(strip("abc", ""), "abc");
}

#[test]
fn split_keeps_empty_pieces() {
    assert_eq!(parts("/a//b/", '/'), vec!["", "a", "", "b", ""]);
    assert_eq!(parts("", '/'), vec![""]);
    assert_eq!(parts("abc", '/'), vec!["abc"]);
    assert_eq!(parts("/", '/'), vec!["", ""]);
}

#[test]
fn join_puts_the_separator_between_neighbours() {
    let items = vec!["a".to_string(), "b".to_string(), "c".to_string()];
    assert_eq!(join(&items, ", "), "a, b, c");
    assert_eq!(join(&vec!["only".to_string()], "/"), "only");
    assert_eq!(join(&Vec::new(), "/"), "");
    assert_eq!(join(&vec!["".to_string(), "".to_string()], "/"), "/");
}

#[test]
fn find_gives_the_first_occurrence_from_a_position() {
    let s = chars_of("---a---b---");
    let pat = chars_of("---");
    assert_eq!(find_chars(&s, &pat, 0), Some(0));
    assert_eq!(find_chars(&s, &pat, 1), Some(4));
    assert_eq!(find_chars(&s, &pat, 5), Some(8));
    assert_eq!(find_chars(&s, &pat, 9), None);
    assert_eq!(find_chars(&s, &pat, 100), None);
    assert_eq!(find_chars(&chars_of("ab"), &pat, 0), None);
}

#[test]
fn contains_and_same_text() {
    assert!(contains("blog/index.html", "index"));
    assert!(!contains("blog/post", "index"));
    assert!(contains("abc", ""));
    assert!(same_text("abc", "abc"));
    assert!(!same_text("abc", "abd"));
    assert!(!same_text("abc", "ab"));
}

#[test]
fn integers_in_decimal() {
    for n in [0u64, 7, 10, 99, 100, 1234567890, u64::MAX] {
        assert_eq!(string_of(&decimal_chars(n)), n.to_string());
    }
    for i in [0i64, 5, -5, -10, i64::MAX, i64::MIN, i64::MIN + 1] {
        assert_eq!(string_of(&signed_decimal_chars(i)), i.to_string());
    }
}

#[test]
fn concat_appends_in_order() {
    assert_eq!(concat2("ab", "cd"), "abcd");
    assert_eq!(concat3("a", "", "c"), "ac");
}
