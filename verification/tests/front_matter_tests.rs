use rustyink::front_matter::{get_markdown_and_metadata, get_metadata, split_front_matter};

#[test]
fn splits_metadata_and_body_at_the_delimiters() {
    let source = split_front_matter("---\ntitle: Hi\n---\n# Hello\n");
    assert_eq!(source.metadata.as_deref(), Some("\ntitle: Hi\n"));
    assert_eq!(source.markdown, "\n# Hello\n");
}

#[test]
fn metadata_ends_at_the_first_closing_delimiter() {
    let source = split_front_matter("---a---b---c");
    assert_eq!(source.metadata.as_deref(), Some("a"));
    assert_eq!(source.markdown, "b---c");
}

#[test]
fn no_block_without_an_opening_delimiter() {
    let text = "# Title\n\n--- not at the start ---\n";
    let source = split_front_matter(text);
    assert_eq!(source.metadata, None);
    assert_eq!(source.markdown, text);
}

#[test]
fn no_block_without_a_closing_delimiter() {
    let source = split_front_matter("---\ntitle: Hi\n");
    assert_eq!(source.metadata, None);
    assert_eq!(source.markdown, "---\ntitle: Hi\n");
    assert_eq!(split_front_matter("----").metadata, None);
    assert_eq!(split_front_matter("-----").metadata, None);
    assert_eq!(split_front_matter("").metadata, None);
}

#[test]
fn empty_block() {
    let source = split_front_matter("------");
    assert_eq!(source.metadata.as_deref(), Some(""));
    assert_eq!(source.markdown, "");
}

#[test]
fn metadata_alone_agrees_with_the_split() {
    assert_eq!(get_metadata("---\na: 1\n---\nbody").as_deref(), Some("\na: 1\n"));
    assert_eq!(get_metadata("body"), None);
}

#[test]
fn markdown_without_front_matter_is_rendered_whole() {
    let (metadata, html) = get_markdown_and_metadata("# Title\n\nSome *text*.\n");
    assert_eq!(metadata, None);
    assert_eq!(html, "<h1>Title</h1>\n<p>Some <em>text</em>.</p>\n");
}

#[test]
fn markdown_behind_front_matter_is_rendered_without_the_block() {
    let (metadata, html) = get_markdown_and_metadata("---\ntitle: Hi\n---\nHello **you**\n");
    assert_eq!(metadata.as_deref(), Some("\ntitle: Hi\n"));
    assert_eq!(html, "<p>Hello <strong>you</strong></p>\n");
    assert!(!html.contains("---"));
    assert!(!html.contains("title"));
}

#[test]
fn extensions_are_switched_on() {
    let (_, html) = get_markdown_and_metadata("~~gone~~\n\n| a | b |\n|---|---|\n| 1 | 2 |\n");
    assert!(html.contains("<del>gone</del>"));
    assert!(html.contains("<table>"));
}

#[test]
fn malformed_markdown_still_renders() {
    let (metadata, html) = get_markdown_and_metadata("**unclosed [link](\n<div>\n");
    assert_eq!(metadata, None);
    assert!(!html.is_empty());
}
