use rustyink::seo::{
    generate_open_graph_tags, generate_robots_txt, generate_sitemap_entries, open_graph_tags,
    sitemap_entries, ChangeFreq, SeoError,
};
use rustyink::settings::{Settings, SiteSettings};

fn settings(base_url: Option<&str>, blocked: Option<bool>) -> Settings {
    let mut s = Settings::default();
    s.meta.title = "My Site".to_string();
    s.meta.description = "About things".to_string();
    s.meta.base_url = base_url.map(|b| b.to_string());
    s.site = blocked.map(|b| SiteSettings {
        block_search_indexing: Some(b),
        script_urls: None,
        style_urls: None,
    });
    s
}

fn pages(paths: &[&str]) -> Vec<(String, String)> {
    paths.iter().map(|p| (p.to_string(), String::new())).collect()
}

#[test]
fn robots_disallow_everything_when_blocked() {
    let expected = "User-agent: *\nDisallow: /";
    assert_eq!(generate_robots_txt(&settings(None, Some(true))).unwrap(), expected);
    assert_eq!(
        generate_robots_txt(&settings(Some("https://example.com"), Some(true))).unwrap(),
        expected
    );
}

#[test]
fn robots_allow_everything_and_name_the_sitemap() {
    assert_eq!(
        generate_robots_txt(&settings(Some("https://example.com"), Some(false))).unwrap(),
        "User-agent: *\nAllow: /\nSitemap: https://example.com/sitemap.xml"
    );
    assert_eq!(
        generate_robots_txt(&settings(Some("https://example.com"), None)).unwrap(),
        "User-agent: *\nAllow: /\nSitemap: https://example.com/sitemap.xml"
    );
}

#[test]
fn robots_need_a_base_url_when_not_blocked() {
    let error = generate_robots_txt(&settings(None, None)).unwrap_err();
    assert_eq!(error, SeoError::MissingSitemapBaseUrl);
    assert_eq!(error.message(), "No sitemap base url found in Settings.toml");
}

#[test]
fn sitemap_has_one_entry_per_page() {
    let entries = generate_sitemap_entries(
        &settings(Some("https://example.com"), Some(false)),
        &pages(&["/", "/about/", "/blog/post-1/"]),
    )
    .unwrap();
    let locations: Vec<&str> = entries.iter().map(|e| e.loc.as_str()).collect();
    assert_eq!(
        locations,
        vec![
            "https://example.com/",
            "https://example.com/about/",
            "https://example.com/blog/post-1/"
        ]
    );
    for entry in &entries {
        assert_eq!(entry.changefreq, ChangeFreq::Weekly);
        assert_eq!(entry.priority_tenths, 8);
    }
}

#[test]
fn sitemap_needs_a_base_url_that_is_not_empty() {
    let none = generate_sitemap_entries(&settings(None, None), &pages(&["/"]));
    assert_eq!(none.unwrap_err(), SeoError::MissingSitemapBaseUrl);
    let empty = generate_sitemap_entries(&settings(Some(""), None), &pages(&["/"]));
    assert_eq!(empty.unwrap_err(), SeoError::MissingSitemapBaseUrl);
}

#[test]
fn sitemap_leaves_out_what_is_no_url() {
    let entries =
        generate_sitemap_entries(&settings(Some("not a url"), None), &pages(&["/", "/a/"])).unwrap();
    assert!(entries.is_empty());
    let entries = generate_sitemap_entries(&settings(Some("https://example.com"), None), &pages(&[])).unwrap();
    assert!(entries.is_empty());
}

#[test]
fn sitemap_entries_keep_the_order_of_what_parsed() {
    let parsed = vec![Some("https://a/".to_string()), None, Some("https://b/".to_string())];
    let entries = sitemap_entries(&parsed);
    assert_eq!(entries.len(), 2);
    assert_eq!(entries[0].loc, "https://a/");
    assert_eq!(entries[1].loc, "https://b/");
}

#[test]
fn sitemap_locations_are_normalised_by_the_url_parser() {
    let entries =
        generate_sitemap_entries(&settings(Some("HTTPS://Example.COM"), None), &pages(&["/a b/"])).unwrap();
    assert_eq!(entries[0].loc, "https://example.com/a%20b/");
}

#[test]
fn open_graph_tags_of_a_plain_page() {
    let tags =
        generate_open_graph_tags(&settings(Some("https://example.com"), None), "/about/", false, false)
            .unwrap();
    let expected = [
        "<meta property=\"title\" content=\"My Site\" />",
        "<meta name=\"description\" content=\"About things\" />",
        "<meta property=\"og:title\" content=\"My Site\" />",
        "<meta property=\"og:description\" content=\"About things\" />",
        "<meta property=\"og:type\" content=\"website\" />",
        "<meta property=\"og:title\" content=\"My Site\" />",
        "<meta property=\"og:description\" content=\"About things\" />",
        "<meta name=\"twitter:title\" content=\"My Site\" />",
        "<meta name=\"twitter:description\" content=\"About things\" />",
        "<meta property=\"og:url\" content=\"https://example.com\" />",
        "<meta name=\"twitter:url\" content=\"https://example.com\" />",
    ]
    .join("\n");
    assert_eq!(tags, expected);
}

#[test]
fn open_graph_tags_link_a_page_and_its_amp_variant() {
    let s = settings(Some("https://example.com"), None);
    let page = generate_open_graph_tags(&s, "/about/", true, false).unwrap();
    assert!(page.contains("\n<link rel=\"amphtml\" href=\"https://example.com/about/amp\">\n"));
    assert!(!page.contains("canonical"));
    let amp = generate_open_graph_tags(&s, "/about/", true, true).unwrap();
    assert!(amp.contains("\n<link rel=\"canonical\" href=\"https://example.com/about/\">\n"));
    assert!(!amp.contains("amphtml"));
    let neither = generate_open_graph_tags(&s, "/about/", false, true).unwrap();
    assert!(!neither.contains("<link"));
}

#[test]
fn open_graph_tags_with_an_image() {
    let mut s = settings(Some("https://example.com"), None);
    s.meta.og_image_url = Some("https://example.com/og.png".to_string());
    let tags = generate_open_graph_tags(&s, "/", false, false).unwrap();
    assert!(tags.ends_with(
        "<meta property=\"og:image\" content=\"https://example.com/og.png\" />\n<meta name=\"twitter:image\" content=\"https://example.com/og.png\" />\n<meta name=\"twitter:card\" content=\"summary_large_image\" />"
    ));
    assert_eq!(tags.lines().count(), 14);
}

#[test]
fn open_graph_tags_without_a_base_url_leave_out_what_needs_one() {
    let expected = [
        "<meta property=\"title\" content=\"My Site\" />",
        "<meta name=\"description\" content=\"About things\" />",
        "<meta property=\"og:title\" content=\"My Site\" />",
        "<meta property=\"og:description\" content=\"About things\" />",
        "<meta property=\"og:type\" content=\"website\" />",
        "<meta property=\"og:title\" content=\"My Site\" />",
        "<meta property=\"og:description\" content=\"About things\" />",
        "<meta name=\"twitter:title\" content=\"My Site\" />",
        "<meta name=\"twitter:description\" content=\"About things\" />",
    ]
    .join("\n");
    for (is_amp, is_amp_template) in [(false, false), (true, false), (true, true), (false, true)] {
        let tags = generate_open_graph_tags(&settings(None, None), "/a/", is_amp, is_amp_template);
        assert_eq!(tags.unwrap(), expected);
    }
    assert_eq!(open_graph_tags(&settings(None, None), "/a/", true, false), expected);
    let mut with_image = settings(None, None);
    with_image.meta.og_image_url = Some("https://x/og.png".to_string());
    let tags = open_graph_tags(&with_image, "/", false, false);
    assert!(tags.contains("og:image") && !tags.contains("og:url") && !tags.contains("twitter:url"));
}
