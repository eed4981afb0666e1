use rustyink::data::{same_data, Data};
use rustyink::render::{
    begin_all, render_body, render_outer, Body, Render, RenderAction, RenderError, RenderEvent,
    RenderState, Resources,
};
use rustyink::settings::{Link, Settings};
use rustyink::theme::{TemplateKind, Theme};
use rustyink::yaml::parse_string_to_yaml;

fn yaml(text: &str) -> Data {
    parse_string_to_yaml(text).unwrap()
}

fn theme(names: &[&str]) -> Theme {
    Theme {
        templates: names.iter().map(|n| (n.to_string(), format!("<{}>", n))).collect(),
        global_css: None,
    }
}

fn settings() -> Settings {
    let mut s = Settings::default();
    s.meta.title = "Site".to_string();
    s.meta.description = "Words".to_string();
    s.meta.base_url = Some("https://example.com".to_string());
    s.navigation.links = vec![
        Link { label: "Home".to_string(), url: "/".to_string() },
        Link { label: "Blog".to_string(), url: "/blog/".to_string() },
    ];
    s
}

fn resources() -> Resources {
    Resources {
        styles: "<style></style>".to_string(),
        scripts: "<script type=\"text/javascript\"></script>".to_string(),
        remote_data: Data::Null,
    }
}

fn field<'a>(context: &'a Data, key: &str) -> &'a Data {
    context.get(key).unwrap()
}

#[test]
fn body_without_template_is_ready() {
    let out = render_body(&theme(&["app"]), &settings(), "<p>x</p>", &yaml("title: T"), &Data::Null, &Data::Null);
    assert!(matches!(out, Ok(Body::Ready(content)) if content == "<p>x</p>"));
}

#[test]
fn body_with_template_asks_for_its_expansion() {
    let mut s = settings();
    s.data = Some(yaml("author: {name: Me, mail: me@x}\nlang: en\n"));
    let metadata = yaml("template: post\nauthor: {name: You}\n");
    let tree = yaml("blog: {_self: {title: Blog}}");
    let remote = yaml("feed: [1, 2]");
    let out = render_body(&theme(&["app", "post"]), &s, "<p>x</p>", &metadata, &tree, &remote).unwrap();
    match out {
        Body::Expand(expansion) => {
            assert_eq!(expansion.template, "<post>");
            let expected = Data::Mapping(vec![
                (Data::Text("body".to_string()), Data::Text("<p>x</p>".to_string())),
                (Data::Text("root".to_string()), tree),
                (
                    Data::Text("data".to_string()),
                    yaml("author: {name: You, mail: me@x}\nlang: en\ntemplate: post\n"),
                ),
                (Data::Text("remote_data".to_string()), remote),
            ]);
            assert!(same_data(&expansion.context, &expected));
        }
        other => panic!("expected an expansion, got {:?}", other),
    }
}

#[test]
fn body_without_site_data_sees_the_metadata_alone() {
    let metadata = yaml("template: post\nx: 1\n");
    let out = render_body(&theme(&["post"]), &settings(), "b", &metadata, &Data::Null, &Data::Null).unwrap();
    match out {
        Body::Expand(expansion) => assert!(same_data(field(&expansion.context, "data"), &metadata)),
        other => panic!("expected an expansion, got {:?}", other),
    }
}

#[test]
fn body_fails_on_a_template_that_is_no_text() {
    let out = render_body(&theme(&["post"]), &settings(), "b", &yaml("template: [a]"), &Data::Null, &Data::Null);
    assert!(matches!(out, Err(RenderError::TemplateNotText)));
}

#[test]
fn body_fails_on_a_template_that_the_theme_lacks() {
    let out = render_body(&theme(&["app"]), &settings(), "b", &yaml("template: post"), &Data::Null, &Data::Null);
    assert!(matches!(out, Err(RenderError::MissingTemplate(name)) if name == "post"));
}

#[test]
fn outer_context_holds_everything_in_order() {
    let mut s = settings();
    s.data = Some(yaml("k: v"));
    let metadata = Some(yaml("title: T"));
    let out = render_outer(&theme(&["app"]), &s, &resources(), TemplateKind::App, "/a/", "<p>c</p>", &metadata)
        .unwrap();
    assert_eq!(out.template, "<app>");
    let keys: Vec<String> = match &out.context {
        Data::Mapping(entries) => entries
            .iter()
            .map(|(k, _)| match k {
                Data::Text(t) => t.clone(),
                other => panic!("unexpected key {:?}", other),
            })
            .collect(),
        other => panic!("expected a mapping, got {:?}", other),
    };
    assert_eq!(
        keys,
        vec![
            "title",
            "description",
            "open_graph_tags",
            "styles",
            "scripts",
            "links",
            "content",
            "page_metadata",
            "data",
            "remote_data"
        ]
    );
    assert_eq!(field(&out.context, "title").as_str(), Some("Site"));
    assert_eq!(field(&out.context, "description").as_str(), Some("Words"));
    assert_eq!(field(&out.context, "content").as_str(), Some("<p>c</p>"));
    assert_eq!(field(&out.context, "styles").as_str(), Some("<style></style>"));
    assert!(same_data(field(&out.context, "page_metadata"), &yaml("title: T")));
    assert!(same_data(field(&out.context, "data"), &yaml("k: v")));
    assert!(same_data(field(&out.context, "remote_data"), &Data::Null));
    assert!(same_data(
        field(&out.context, "links"),
        &yaml("- {label: Home, url: /}\n- {label: Blog, url: /blog/}\n")
    ));
    let tags = field(&out.context, "open_graph_tags").as_str().unwrap();
    assert!(tags.starts_with("<meta property=\"title\" content=\"Site\" />\n"));
    assert!(!tags.contains("amphtml"));
}

#[test]
fn outer_context_without_metadata_and_data_holds_null() {
    let out = render_outer(&theme(&["app"]), &settings(), &resources(), TemplateKind::App, "/", "c", &None)
        .unwrap();
    assert!(same_data(field(&out.context, "page_metadata"), &Data::Null));
    assert!(same_data(field(&out.context, "data"), &Data::Null));
}

#[test]
fn pages_of_a_theme_with_amp_link_to_their_variant() {
    let t = theme(&["app", "amp"]);
    let page = render_outer(&t, &settings(), &resources(), TemplateKind::App, "/a/", "c", &None).unwrap();
    let tags = field(&page.context, "open_graph_tags").as_str().unwrap().to_string();
    assert!(tags.contains("<link rel=\"amphtml\" href=\"https://example.com/a/amp\">"));
    let amp = render_outer(&t, &settings(), &resources(), TemplateKind::Amp, "/a/", "c", &None).unwrap();
    assert_eq!(amp.template, "<amp>");
    let tags = field(&amp.context, "open_graph_tags").as_str().unwrap().to_string();
    assert!(tags.contains("<link rel=\"canonical\" href=\"https://example.com/a/\">"));
}

#[test]
fn outer_fails_without_its_template() {
    let missing = render_outer(&theme(&["post"]), &settings(), &resources(), TemplateKind::App, "/", "c", &None);
    assert!(matches!(missing, Err(RenderError::MissingTemplate(name)) if name == "app"));
}

#[test]
fn pages_render_without_a_base_url() {
    let (t, mut s) = (theme(&["app", "amp"]), settings());
    s.meta.base_url = None;
    let out = render_outer(&t, &s, &resources(), TemplateKind::App, "/a/", "c", &None).unwrap();
    let tags = field(&out.context, "open_graph_tags").as_str().unwrap().to_string();
    assert!(tags.starts_with("<meta property=\"title\" content=\"Site\" />\n"));
    assert!(!tags.contains("og:url") && !tags.contains("twitter:url") && !tags.contains("<link"));
    let page = Render::new("pages/a.md", "# Hi\n".to_string(), &t, &s);
    let (state, action) =
        page.render_page(&resources(), TemplateKind::App, "/a/", &Data::Null, RenderState::Start, RenderEvent::Begin);
    assert!(matches!(state, RenderState::AwaitPage));
    assert!(matches!(action, RenderAction::Expand(_)));
}

#[test]
fn a_page_without_front_matter_goes_straight_to_the_outer_template() {
    let (t, s) = (theme(&["app"]), settings());
    let page = Render::new("pages/a.md", "# Hi\n".to_string(), &t, &s);
    assert_eq!(page.get_metadata(), None);
    let (state, action) =
        page.render_page(&resources(), TemplateKind::App, "/a/", &Data::Null, RenderState::Start, RenderEvent::Begin);
    assert!(matches!(state, RenderState::AwaitPage));
    match action {
        RenderAction::Expand(expansion) => {
            assert_eq!(expansion.template, "<app>");
            assert_eq!(field(&expansion.context, "content").as_str(), Some("<h1>Hi</h1>\n"));
            assert!(same_data(field(&expansion.context, "page_metadata"), &Data::Null));
        }
        other => panic!("expected an expansion, got {:?}", other),
    }
    let (state, action) = page.render_page(
        &resources(),
        TemplateKind::App,
        "/a/",
        &Data::Null,
        state,
        RenderEvent::Expanded("<html>done</html>".to_string()),
    );
    assert!(matches!(state, RenderState::Done));
    assert!(matches!(action, RenderAction::Finish(html) if html == "<html>done</html>"));
}

#[test]
fn a_page_with_a_template_is_expanded_twice() {
    let (t, s) = (theme(&["app", "post"]), settings());
    let page = Render::new("pages/a.md", "---\ntemplate: post\n---\nBody\n".to_string(), &t, &s);
    assert_eq!(page.get_metadata().as_deref(), Some("\ntemplate: post\n"));
    let tree = yaml("a: {_self: {template: post}}");
    let (state, action) =
        page.render_page(&resources(), TemplateKind::App, "/a/", &tree, RenderState::Start, RenderEvent::Begin);
    assert!(matches!(&state, RenderState::AwaitBody(m) if same_data(m, &yaml("template: post"))));
    match action {
        RenderAction::Expand(expansion) => {
            assert_eq!(expansion.template, "<post>");
            assert_eq!(field(&expansion.context, "body").as_str(), Some("<p>Body</p>\n"));
            assert!(same_data(field(&expansion.context, "root"), &tree));
        }
        other => panic!("expected an expansion, got {:?}", other),
    }
    let (state, action) = page.render_page(
        &resources(),
        TemplateKind::App,
        "/a/",
        &tree,
        state,
        RenderEvent::Expanded("<article>Body</article>".to_string()),
    );
    assert!(matches!(state, RenderState::AwaitPage));
    match action {
        RenderAction::Expand(expansion) => {
            assert_eq!(expansion.template, "<app>");
            assert_eq!(field(&expansion.context, "content").as_str(), Some("<article>Body</article>"));
            assert!(same_data(field(&expansion.context, "page_metadata"), &yaml("template: post")));
        }
        other => panic!("expected an expansion, got {:?}", other),
    }
}

#[test]
fn a_page_with_metadata_but_no_template_keeps_its_body() {
    let (t, s) = (theme(&["app"]), settings());
    let page = Render::new("pages/a.md", "---\ntitle: T\n---\nBody\n".to_string(), &t, &s);
    let (state, action) =
        page.render_page(&resources(), TemplateKind::App, "/a/", &Data::Null, RenderState::Start, RenderEvent::Begin);
    assert!(matches!(state, RenderState::AwaitPage));
    match action {
        RenderAction::Expand(expansion) => {
            assert_eq!(field(&expansion.context, "content").as_str(), Some("<p>Body</p>\n"));
            assert!(same_data(field(&expansion.context, "page_metadata"), &yaml("title: T")));
        }
        other => panic!("expected an expansion, got {:?}", other),
    }
}

#[test]
fn front_matter_that_is_no_yaml_fails_the_page() {
    let (t, s) = (theme(&["app"]), settings());
    let page = Render::new("pages/a.md", "---\na: [1\n---\nBody\n".to_string(), &t, &s);
    let (state, action) =
        page.render_page(&resources(), TemplateKind::App, "/a/", &Data::Null, RenderState::Start, RenderEvent::Begin);
    assert!(matches!(state, RenderState::Done));
    assert!(matches!(action, RenderAction::Fail(RenderError::Metadata(message)) if !message.is_empty()));
}

#[test]
fn a_failed_expansion_fails_the_page() {
    let (t, s) = (theme(&["app", "post"]), settings());
    let page = Render::new("pages/a.md", "x".to_string(), &t, &s);
    let (state, action) = page.render_page(
        &resources(),
        TemplateKind::App,
        "/a/",
        &Data::Null,
        RenderState::AwaitPage,
        RenderEvent::Failed("bad helper".to_string()),
    );
    assert!(matches!(state, RenderState::Done));
    assert!(matches!(action, RenderAction::Fail(RenderError::Expansion(m)) if m == "bad helper"));
    let (state, action) = page.render_page(
        &resources(),
        TemplateKind::App,
        "/a/",
        &Data::Null,
        RenderState::AwaitBody(Data::Null),
        RenderEvent::Failed("bad body".to_string()),
    );
    assert!(matches!(state, RenderState::Done));
    assert!(matches!(action, RenderAction::Fail(RenderError::Expansion(m)) if m == "bad body"));
}

#[test]
fn failure_messages_name_the_page() {
    let file = "pages/a.md";
    assert_eq!(
        RenderError::Metadata("bad yaml".to_string()).message(file),
        "Failed to parse metadata: pages/a.md: bad yaml"
    );
    assert_eq!(
        RenderError::TemplateNotText.message(file),
        "Failed to get template from metadata: pages/a.md"
    );
    assert_eq!(
        RenderError::MissingTemplate("post".to_string()).message(file),
        "Failed to get template: pages/a.md: post"
    );
    assert_eq!(
        RenderError::Expansion("no helper".to_string()).message(file),
        "Failed to render page: pages/a.md: no helper"
    );
    assert_eq!(RenderError::OutOfTurn.message(file), "Failed to render page: pages/a.md");
}

#[test]
fn events_out_of_turn_fail_the_page() {
    let (t, s) = (theme(&["app"]), settings());
    let page = Render::new("pages/a.md", "x".to_string(), &t, &s);
    for (state, event) in [
        (RenderState::Start, RenderEvent::Expanded("x".to_string())),
        (RenderState::Done, RenderEvent::Begin),
        (RenderState::AwaitPage, RenderEvent::Begin),
        (RenderState::AwaitBody(Data::Null), RenderEvent::Begin),
    ] {
        let (state, action) = page.render_page(&resources(), TemplateKind::App, "/", &Data::Null, state, event);
        assert!(matches!(state, RenderState::Done));
        assert!(matches!(action, RenderAction::Fail(RenderError::OutOfTurn)));
    }
}

#[test]
fn amp_without_template_gives_an_empty_page() {
    let (t, s) = (theme(&["app", "post"]), settings());
    for source in ["# Hi\n", "---\ntemplate: post\n---\nBody\n", "---\na: [1\n---\n"] {
        let page = Render::new("pages/a.md", source.to_string(), &t, &s);
        let (state, action) = page.render_page(
            &resources(),
            TemplateKind::Amp,
            "/a/",
            &Data::Null,
            RenderState::Start,
            RenderEvent::Begin,
        );
        assert!(matches!(state, RenderState::Done));
        assert!(matches!(action, RenderAction::Finish(html) if html.is_empty()));
    }
}

#[test]
fn one_missing_template_fails_one_page_of_ten() {
    let (t, s) = (theme(&["app", "post"]), settings());
    let mut pages = Vec::new();
    for i in 0..10 {
        let template = if i == 3 { "nowhere" } else { "post" };
        let source = format!("---\ntemplate: {}\n---\nPage {}\n", template, i);
        pages.push((Render::new(&format!("pages/p{}.md", i), source, &t, &s), format!("/p{}/", i)));
    }
    let steps = begin_all(&pages, &resources(), TemplateKind::App, &Data::Null);
    assert_eq!(steps.len(), 10);
    for (i, (state, action)) in steps.iter().enumerate() {
        if i == 3 {
            assert!(matches!(state, RenderState::Done));
            assert!(matches!(action, RenderAction::Fail(RenderError::MissingTemplate(n)) if n == "nowhere"));
        } else {
            assert!(matches!(state, RenderState::AwaitBody(_)));
            match action {
                RenderAction::Expand(expansion) => {
                    assert_eq!(expansion.template, "<post>");
                    assert_eq!(
                        field(&expansion.context, "body").as_str().unwrap(),
                        format!("<p>Page {}</p>\n", i)
                    );
                }
                other => panic!("expected an expansion, got {:?}", other),
            }
        }
    }
}
