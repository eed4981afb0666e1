use rustyink::cache::Cache;
use rustyink::data::{same_data, Data};
use rustyink::settings::Settings;
use rustyink::worker::{MinifyError, PageFile, Worker, WEBSOCKET_CLIENT_JS};
use rustyink::yaml::parse_string_to_yaml;

fn worker(is_dev: bool) -> Worker {
    Worker::dev(
        "/site/pages".to_string(),
        "/site/public".to_string(),
        "/site/theme".to_string(),
        "/site/Settings.toml".to_string(),
        None,
        is_dev,
    )
}

fn sources(list: &[(&str, &str)]) -> Vec<(String, String)> {
    list.iter().map(|(f, t)| (f.to_string(), t.to_string())).collect()
}

#[test]
fn workers_write_to_the_output_directory() {
    let cache = Cache::new("/tmp/cache".to_string());
    let dev = Worker::dev("p".to_string(), "q".to_string(), "t".to_string(), "c".to_string(), Some(cache), true);
    assert_eq!(dev.get_output_dir(), "_site");
    assert!(dev.is_dev);
    assert_eq!(dev.cache.as_ref().map(|c| c.cache_dir.as_str()), Some("/tmp/cache"));
    let prod = Worker::prod("p".to_string(), "q".to_string(), "t".to_string(), "c".to_string());
    assert_eq!(prod.get_output_dir(), "_site");
    assert_eq!(
        (prod.pages_dir.as_str(), prod.public_dir.as_str(), prod.theme_dir.as_str(), prod.config_file.as_str()),
        ("p", "q", "t", "c")
    );
    assert!(!prod.is_dev);
    assert!(prod.cache.is_none());
}

#[test]
fn listed_pages_carry_url_path_and_metadata() {
    let pages = worker(false).listed_pages(&sources(&[
        ("/site/pages/page.md", "---\ntitle: Home\n---\nHi"),
        ("/site/pages/about/page.md", "About"),
        ("/site/pages/blog/First Post.md", "---\nt: 1\n---\n"),
    ]));
    assert_eq!(
        pages,
        vec![
            ("/".to_string(), "\ntitle: Home\n".to_string()),
            ("/about/".to_string(), String::new()),
            ("/blog/first-post".to_string(), "\nt: 1\n".to_string()),
        ]
    );
}

#[test]
fn a_root_page_without_metadata_is_not_listed() {
    let pages = worker(false).listed_pages(&sources(&[
        ("/site/pages/page.md", "Hi"),
        ("/site/pages/about/page.md", "About"),
    ]));
    assert_eq!(pages, vec![("/about/".to_string(), String::new())]);
    assert!(worker(false).listed_pages(&Vec::new()).is_empty());
}

#[test]
fn site_directory_of_the_listed_pages() {
    let w = worker(false);
    let pages = w.listed_pages(&sources(&[
        ("/site/pages/page.md", "---\ntitle: Home\n---\nHi"),
        ("/site/pages/blog/First Post.md", "---\nt: 1\n---\n"),
    ]));
    let tree = w.generate_site_directory(&pages).unwrap();
    let expected = parse_string_to_yaml("_self: {title: Home}\nblog: {first-post: {t: 1}}\n").unwrap();
    assert!(same_data(&tree, &expected));
    assert!(matches!(tree, Data::Mapping(_)));
}

#[test]
fn page_targets() {
    let w = worker(false);
    let target = w.page_target("/site/pages/blog/First Post.md");
    assert_eq!(target.html_file, "_site/blog/first-post/index.html");
    assert_eq!(target.url_path, "/blog/first-post/");
    let root = w.page_target("/site/pages/page.md");
    assert_eq!(root.html_file, "_site/index.html");
    assert_eq!(root.url_path, "/");
    let home = w.page_target("/site/pages/homepage.md");
    assert_eq!(home.html_file, "_site/homepage/index.html");
    assert_eq!(home.url_path, "/homepage/");
    let posts = w.page_target("/site/pages/Blog Posts/page.md");
    assert_eq!(posts.html_file, "_site/blog-posts/index.html");
    assert_eq!(posts.url_path, "/blog-posts/");
}

#[test]
fn development_pages_get_the_reload_script() {
    let expected_script = "\n    <script type=\"module\">\n        const socket = new WebSocket(\"ws://localhost:3001\");\n\n        socket.onopen = function (event) {\n            console.log(\"✔ Connected to dev server\");\n        };\n\n        socket.onmessage = function (event) {\n            if (event.data === \"RELOAD\") {\n                window.location.reload();\n            }\n        };\n    </script>\n";
    assert_eq!(WEBSOCKET_CLIENT_JS, expected_script);
    match worker(true).page_file("<p>x</p>").unwrap() {
        PageFile::Text(text) => assert_eq!(text, format!("<p>x</p>\n{}", expected_script)),
        other => panic!("expected text, got {:?}", other),
    }
}

#[test]
fn production_pages_are_minified() {
    let html = "<html>\n  <body>\n    <p>  a   b  </p>\n  </body>\n</html>\n";
    match worker(false).page_file(html).unwrap() {
        PageFile::Bytes(bytes) => {
            let text = String::from_utf8(bytes).unwrap();
            assert!(text.len() < html.len());
            assert!(text.contains("<p>"));
            assert!(!text.contains("\n    "));
        }
        other => panic!("expected bytes, got {:?}", other),
    }
}

#[test]
fn a_page_that_cannot_be_minified_is_an_error() {
    assert_eq!(worker(false).page_file("<style>}</style>").unwrap_err(), MinifyError);
    assert!(worker(true).page_file("<style>}</style>").is_ok());
}

#[test]
fn amp_variants_only_in_production_and_only_when_not_empty() {
    assert!(worker(false).renders_amp());
    assert!(!worker(true).renders_amp());
    let w = worker(false);
    assert_eq!(w.amp_target("_site/a/index.html", ""), None);
    assert_eq!(
        w.amp_target("_site/a/index.html", "<html amp>").as_deref(),
        Some("_site/a/amp/index.html")
    );
}

#[test]
fn robots_and_sitemap_are_never_overwritten() {
    let w = worker(false);
    let mut s = Settings::default();
    s.meta.base_url = Some("https://example.com".to_string());
    let pages = vec![("/".to_string(), "t: 1".to_string())];
    assert!(w.robots_file(true, &s).is_none());
    assert!(w.sitemap_file(true, &s, &pages).is_none());
    assert_eq!(
        w.robots_file(false, &s).as_deref(),
        Some("User-agent: *\nAllow: /\nSitemap: https://example.com/sitemap.xml")
    );
    let entries = w.sitemap_file(false, &s, &pages).unwrap();
    assert_eq!(entries.len(), 1);
    assert_eq!(entries[0].loc, "https://example.com/");
}

#[test]
fn robots_and_sitemap_are_skipped_without_a_base_url() {
    let w = worker(false);
    let s = Settings::default();
    assert!(w.robots_file(false, &s).is_none());
    assert!(w.sitemap_file(false, &s, &Vec::new()).is_none());
}
