use rustyink::base::{render_article, render_links, PageMetadata};
use rustyink::cache::Cache;
use rustyink::create::{contents_url, plan_item, GitHubContent, ThemeStep, REPO_NAME, REPO_OWNER};
use rustyink::data::{same_data, Data};
use rustyink::dev::{after_rebuild, on_watch_event, WatchAction, WatchEvent, RELOAD_MESSAGE};
use rustyink::logger::Logger;
use rustyink::resources::{
    assemble_remote_data, get_global_scripts, get_global_styles, get_remote_data, remote_sources,
    RemoteSource,
};
use rustyink::settings::{Link, Settings, SiteMeta, SiteSettings};
use rustyink::theme::{TemplateKind, Theme};
use rustyink::yaml::parse_string_to_yaml;

fn yaml(text: &str) -> Data {
    parse_string_to_yaml(text).unwrap()
}

#[test]
fn logger_lines() {
    let log = Logger::new();
    assert_eq!(log.info("built"), "- built");
    assert_eq!(log.activity("Building site"), "\n- Building site...");
    assert_eq!(log.success("done"), "✔ done");
    assert_eq!(log.error("no settings"), "- Error: no settings");
}

#[test]
fn site_data_is_handed_out_as_a_copy() {
    let mut s = Settings::default();
    assert!(s.get_data_yaml().is_none());
    s.data = Some(yaml("a: {b: 1}"));
    assert!(same_data(&s.get_data_yaml().unwrap(), &yaml("a: {b: 1}")));
}

#[test]
fn default_settings() {
    let s = Settings::default();
    assert_eq!((s.dev.port, s.dev.ws_port), (3000, 3001));
    assert!(s.site.is_none());
    assert_eq!(s.meta.title, "RustyInk");
    assert_eq!(s.meta.description, "A blazing fast static site generator");
    assert_eq!(s.meta.get_base_url(), None);
    assert_eq!(s.meta.get_og_image_url(), None);
    assert_eq!(s.navigation.links.len(), 1);
    assert_eq!((s.navigation.links[0].label.as_str(), s.navigation.links[0].url.as_str()), ("Home", "/"));
    assert!(s.data.is_none() && s.remote_data.is_none());
}

#[test]
fn site_settings_default_to_nothing_blocked_and_no_urls() {
    let site = Settings::default().get_site_settings();
    assert_eq!(site.block_search_indexing, Some(false));
    assert!(!site.is_search_engine_blocked());
    assert!(site.get_script_urls().is_empty());
    assert!(site.get_style_urls().is_empty());
}

#[test]
fn site_settings_getters() {
    let site = SiteSettings {
        block_search_indexing: Some(true),
        script_urls: Some(vec!["https://x/a.js".to_string()]),
        style_urls: None,
    };
    assert!(site.is_search_engine_blocked());
    assert_eq!(site.get_script_urls(), vec!["https://x/a.js".to_string()]);
    assert!(site.get_style_urls().is_empty());
    let unset = SiteSettings { block_search_indexing: None, script_urls: None, style_urls: None };
    assert!(!unset.is_search_engine_blocked());
    let mut s = Settings::default();
    s.site = Some(site);
    let copy = s.get_site_settings();
    assert_eq!(copy.block_search_indexing, Some(true));
    assert_eq!(copy.script_urls, Some(vec!["https://x/a.js".to_string()]));
    assert_eq!(copy.style_urls, None);
}

#[test]
fn site_meta_getters() {
    let meta = SiteMeta {
        title: "t".to_string(),
        description: "d".to_string(),
        og_image_url: Some("https://x/i.png".to_string()),
        base_url: Some("https://x".to_string()),
    };
    assert_eq!(meta.get_og_image_url().as_deref(), Some("https://x/i.png"));
    assert_eq!(meta.get_base_url().as_deref(), Some("https://x"));
}

#[test]
fn theme_templates_are_found_by_name() {
    let theme = Theme {
        templates: vec![
            ("app".to_string(), "A".to_string()),
            ("post".to_string(), "P".to_string()),
            ("app".to_string(), "second".to_string()),
        ],
        global_css: None,
    };
    assert_eq!(theme.get_template("app").as_deref(), Some("A"));
    assert_eq!(theme.get_template("post").as_deref(), Some("P"));
    assert_eq!(theme.get_template("amp"), None);
    assert!(!theme.has_amp());
    assert_eq!(TemplateKind::App.template_name(), "app");
    assert_eq!(TemplateKind::Amp.template_name(), "amp");
}

#[test]
fn cache_files_are_named_by_the_md5_of_the_key() {
    let cache = Cache::new("/tmp/cache".to_string());
    let path = cache.get_cache_file_path("https://example.com/a.css");
    assert!(path.starts_with("/tmp/cache/") && path.ends_with(".txt"));
    assert_eq!(path.len(), "/tmp/cache/".len() + 32 + ".txt".len());
    assert_eq!(cache.get_cache_file_path(""), "/tmp/cache/d41d8cd98f00b204e9800998ecf8427e.txt");
    assert_eq!(cache.get_cache_file_path("abc"), "/tmp/cache/900150983cd24fb0d6963f7d28e17f72.txt");
    assert_ne!(cache.get_cache_file_path("a"), cache.get_cache_file_path("b"));
}

#[test]
fn global_styles_put_downloads_before_the_local_sheet() {
    let theme = Theme { templates: Vec::new(), global_css: Some("body{}".to_string()) };
    let downloaded = vec![Some("a{}".to_string()), None, Some("b{}".to_string())];
    assert_eq!(get_global_styles(&theme, &downloaded), "<style>a{}\n\nb{}body{}</style>");
    let bare = Theme { templates: Vec::new(), global_css: None };
    assert_eq!(get_global_styles(&bare, &Vec::new()), "<style></style>");
}

#[test]
fn global_scripts_join_the_downloads() {
    let downloaded = vec![Some("a();".to_string()), Some("b();".to_string())];
    assert_eq!(get_global_scripts(&downloaded), "<script type=\"text/javascript\">a();\nb();</script>");
    assert_eq!(get_global_scripts(&vec![None]), "<script type=\"text/javascript\"></script>");
}

#[test]
fn remote_sources_come_from_the_settings_table() {
    let mut s = Settings::default();
    assert!(remote_sources(&s).is_none());
    s.remote_data = Some(yaml("posts: https://x/posts.json\ncount: 3\n"));
    let sources = remote_sources(&s).unwrap();
    assert_eq!(sources.len(), 2);
    assert!(same_data(&sources[0].key, &Data::Text("posts".to_string())));
    assert_eq!(sources[0].url.as_deref(), Some("https://x/posts.json"));
    assert!(same_data(&sources[1].key, &Data::Text("count".to_string())));
    assert_eq!(sources[1].url, None);
    s.remote_data = Some(Data::Text("nothing".to_string()));
    assert!(remote_sources(&s).is_none());
}

#[test]
fn remote_data_holds_null_for_what_could_not_be_had() {
    let sources = Some(vec![
        RemoteSource { key: Data::Text("a".to_string()), url: Some("https://x/a".to_string()) },
        RemoteSource { key: Data::Text("b".to_string()), url: None },
        RemoteSource { key: Data::Text("c".to_string()), url: Some("https://x/c".to_string()) },
        RemoteSource { key: Data::Text("d".to_string()), url: Some("https://x/d".to_string()) },
    ]);
    let bodies = vec![Some("{\"n\": 1}".to_string()), None, Some("not json".to_string())];
    let data = get_remote_data(&sources, &bodies);
    assert!(same_data(&data, &yaml("a: {n: 1}\nb: ~\nc: ~\nd: ~\n")));
    let handed_in = vec![Some("1".to_string()), Some("2".to_string()), Some("3".to_string()), Some("4".to_string())];
    let data = get_remote_data(&sources, &handed_in);
    assert!(same_data(&data, &yaml("a: 1\nb: ~\nc: 3\nd: 4\n")));
    assert!(same_data(&get_remote_data(&None, &bodies), &Data::Null));
}

#[test]
fn a_later_remote_source_takes_the_place_of_an_earlier_one_of_its_name() {
    let sources = vec![
        RemoteSource { key: Data::Text("a".to_string()), url: None },
        RemoteSource { key: Data::Text("b".to_string()), url: None },
        RemoteSource { key: Data::Text("a".to_string()), url: None },
    ];
    let values = vec![Data::Bool(true), Data::Bool(false), Data::Text("last".to_string())];
    assert!(same_data(&assemble_remote_data(&sources, &values), &yaml("a: last\nb: false\n")));
}

#[test]
fn links_as_list_items() {
    let links = vec![
        Link { label: "Home".to_string(), url: "/".to_string() },
        Link { label: "Blog".to_string(), url: "/blog/".to_string() },
    ];
    assert_eq!(
        render_links(&links),
        "<li><a href=\"/\">Home</a></li><li><a href=\"/blog/\">Blog</a></li>"
    );
    assert_eq!(render_links(&Vec::new()), "");
}

#[test]
fn article_without_metadata() {
    assert_eq!(render_article("<p>x</p>", None), "<article>\n    <p>x</p>\n    </article>");
}

#[test]
fn article_with_full_metadata() {
    let metadata = PageMetadata {
        title: "T".to_string(),
        author: Some("Me".to_string()),
        author_url: Some("https://me".to_string()),
        published: Some("2023-01-02".to_string()),
        footnote: Some("note".to_string()),
    };
    let expected = "<article>\n            <header>\n              <h2>T</h2>\n              <p><small><a target=\"_blank\" rel=\"noopener noreferrer\" href=\"https://me\">// Written by Me</a></small></p><p><small><time datetime=\"2023-01-02\">// 2023-01-02</time></small></p>\n            </header>\n    <p>x</p>\n            <footer><small>note</small></footer>\n    </article>\n    ";
    assert_eq!(render_article("<p>x</p>", Some(metadata)), expected);
}

#[test]
fn article_with_bare_metadata() {
    let metadata =
        PageMetadata { title: "T".to_string(), author: None, author_url: None, published: None, footnote: None };
    let expected = "<article>\n            <header>\n              <h2>T</h2>\n              <p><small></small></p><p><small></small></p>\n            </header>\n    b\n            <footer><small></small></footer>\n    </article>\n    ";
    assert_eq!(render_article("b", Some(metadata)), expected);
    let named = PageMetadata {
        title: "T".to_string(),
        author: Some("Me".to_string()),
        author_url: None,
        published: None,
        footnote: None,
    };
    assert!(render_article("b", Some(named)).contains("<p><small>// Written by Me</small></p>"));
}

#[test]
fn theme_entries_are_downloaded_listed_or_skipped() {
    assert_eq!((REPO_OWNER, REPO_NAME), ("arjunkomath", "rustyink-themes"));
    assert_eq!(
        contents_url(REPO_OWNER, REPO_NAME, "pico/partials"),
        "https://api.github.com/repos/arjunkomath/rustyink-themes/contents/pico/partials"
    );
    let file = GitHubContent {
        name: "app.hbs".to_string(),
        path: "pico/theme/app.hbs".to_string(),
        kind: "file".to_string(),
    };
    assert!(file.is_file() && !file.is_dir());
    match plan_item(&file, "/home/me/site", "pico", "o", "r", "pico/theme") {
        ThemeStep::Download { from, to } => {
            assert_eq!(from, "https://raw.githubusercontent.com/o/r/master/pico/theme/app.hbs");
            assert_eq!(to, "/home/me/site/theme/app.hbs");
        }
        other => panic!("expected a download, got {:?}", other),
    }
    let twice = GitHubContent {
        name: "pico.css".to_string(),
        path: "pico/theme/pico.css".to_string(),
        kind: "file".to_string(),
    };
    assert!(matches!(
        plan_item(&twice, "/p", "pico", "o", "r", "pico/theme"),
        ThemeStep::Download { to, .. } if to == "/p/theme/pico.css"
    ));
    let dir = GitHubContent { name: "theme".to_string(), path: "pico/theme".to_string(), kind: "dir".to_string() };
    assert!(dir.is_dir() && !dir.is_file());
    assert!(matches!(
        plan_item(&dir, "/home/me/site", "pico", "o", "r", "pico"),
        ThemeStep::Descend { folder } if folder == "pico/theme"
    ));
    let link =
        GitHubContent { name: "x".to_string(), path: "pico/x".to_string(), kind: "symlink".to_string() };
    assert!(matches!(plan_item(&link, "/p", "pico", "o", "r", "pico"), ThemeStep::Skip));
}

#[test]
fn the_watch_loop_rebuilds_and_reloads() {
    assert_eq!(RELOAD_MESSAGE, "RELOAD");
    assert!(matches!(on_watch_event(WatchEvent::Changed), WatchAction::Rebuild));
    assert!(matches!(
        on_watch_event(WatchEvent::Failed("gone".to_string())),
        WatchAction::Report(m) if m == "gone"
    ));
    assert!(matches!(after_rebuild(None), WatchAction::Broadcast(m) if m == "RELOAD"));
    assert!(matches!(
        after_rebuild(Some("no settings".to_string())),
        WatchAction::Report(m) if m == "Build failed -> no settings"
    ));
}
