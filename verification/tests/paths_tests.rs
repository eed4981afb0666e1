use rustyink::paths::{
    actual_url_path, address_of, amp_html_path, is_listed, output_html_path, page_url_path,
    slugify, slugify_segment, OUTPUT_DIR, PAGES_DIR, PUBLIC_DIR, THEME_DIR,
};
use rustyink::text::string_of;

#[test]
fn directory_names() {
    assert_eq!(PAGES_DIR, "pages");
    assert_eq!(PUBLIC_DIR, "public");
    assert_eq!(THEME_DIR, "theme");
    assert_eq!(OUTPUT_DIR, "_site");
}

#[test]
fn slugify_lowercases_and_hyphenates() {
    assert_eq!(slugify("Hello World"), "hello-world");
    assert_eq!(slugify("My First Post!"), "my-first-post");
    assert_eq!(slugify("Æúű--cool?"), "aeuu-cool");
    assert_eq!(slugify(""), "");
}

#[test]
fn slugify_is_idempotent() {
    for segment in ["Hello World", "a  b", "post-1", "Ünïcödé text", "--x--", "2023_01_02"] {
        let once = slugify(segment);
        assert_eq!(slugify(&once), once);
        let kept = slugify_segment(segment);
        assert_eq!(slugify_segment(&kept), kept);
    }
}

#[test]
fn index_segments_are_never_slugified() {
    assert_eq!(slugify_segment("index.html"), "index.html");
    assert_eq!(slugify_segment("My Index"), "my-index");
    assert_eq!(slugify_segment("my index page"), "my index page");
    assert_eq!(slugify_segment("About Us"), "about-us");
    assert_eq!(slugify_segment("_site"), "site");
    assert_eq!(slugify_segment(""), "");
}

#[test]
fn listed_url_path_of_an_index_page() {
    assert_eq!(page_url_path("/site/pages/page.md", "/site/pages"), "/");
    assert_eq!(page_url_path("/site/pages/about/page.md", "/site/pages"), "/about/");
    assert_eq!(page_url_path("/site/pages/Blog Posts/page.md", "/site/pages"), "/blog-posts/");
}

#[test]
fn listed_url_path_of_a_named_page_is_slugified() {
    assert_eq!(page_url_path("/site/pages/blog/My Post.md", "/site/pages"), "/blog/my-post");
    assert_eq!(page_url_path("/site/pages/Blog/Post 1.md", "/site/pages"), "/blog/post-1");
    assert_eq!(page_url_path("/site/pages/homepage.md", "/site/pages"), "/homepage");
}

#[test]
fn output_file_of_an_index_page() {
    assert_eq!(output_html_path("/site/pages/page.md", "/site/pages", "_site"), "_site/index.html");
    assert_eq!(
        output_html_path("/site/pages/about/page.md", "/site/pages", "_site"),
        "_site/about/index.html"
    );
}

#[test]
fn directories_above_an_index_page_are_slugified() {
    assert_eq!(
        output_html_path("/site/pages/Blog Posts/page.md", "/site/pages", "_site"),
        "_site/blog-posts/index.html"
    );
    assert_eq!(
        output_html_path("/site/pages/My Docs/Getting Started/page.md", "/site/pages", "_site"),
        "_site/my-docs/getting-started/index.html"
    );
}

#[test]
fn only_a_file_named_page_md_is_an_index() {
    assert_eq!(
        output_html_path("/site/pages/homepage.md", "/site/pages", "_site"),
        "_site/homepage/index.html"
    );
    assert_eq!(
        output_html_path("/site/pages/blog/frontpage.md", "/site/pages", "_site"),
        "_site/blog/frontpage/index.html"
    );
    assert_eq!(
        output_html_path("/site/pages/page.md.d/x.md", "/site/pages", "_site"),
        "_site/page-md-d/x/index.html"
    );
}

#[test]
fn output_file_of_a_named_page_is_a_directory_with_an_index() {
    assert_eq!(
        output_html_path("/site/pages/blog/My Post.md", "/site/pages", "_site"),
        "_site/blog/my-post/index.html"
    );
}

#[test]
fn a_page_and_its_slug_go_to_the_same_file() {
    let one = output_html_path("/site/pages/blog/Hello World.md", "/site/pages", "_site");
    let two = output_html_path("/site/pages/blog/hello-world.md", "/site/pages", "_site");
    assert_eq!(one, "_site/blog/hello-world/index.html");
    assert_eq!(two, one);
    let (segments, index) = address_of("/site/pages/My Blog/Hello World.md", "/site/pages");
    assert!(!index);
    for segment in &segments {
        let text = string_of(segment);
        assert_eq!(slugify_segment(&text), text);
    }
}

#[test]
fn the_pages_directory_is_taken_off_at_the_beginning_only() {
    assert_eq!(
        output_html_path("/pages/notes/pages/page.md", "/pages", "_site"),
        "_site/notes/pages/index.html"
    );
    assert_eq!(page_url_path("/pages/notes/pages/x.md", "/pages"), "/notes/pages/x");
}

#[test]
fn url_path_and_amp_file_of_a_page() {
    assert_eq!(actual_url_path("/site/pages/blog/My Post.md", "/site/pages"), "/blog/my-post/");
    assert_eq!(actual_url_path("/site/pages/page.md", "/site/pages"), "/");
    assert_eq!(actual_url_path("/site/pages/about/page.md", "/site/pages"), "/about/");
    assert_eq!(amp_html_path("_site/about/index.html"), "_site/about/amp/index.html");
    assert_eq!(
        amp_html_path("_site/index.html/index.html"),
        "_site/index.html/amp/index.html"
    );
}

#[test]
fn the_root_page_is_listed_only_with_metadata() {
    assert!(!is_listed("/", ""));
    assert!(is_listed("/", "title: Home"));
    assert!(is_listed("/about/", ""));
    assert!(is_listed("/about/", "title: About"));
}
