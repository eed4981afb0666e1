use vstd::prelude::*;
use vstd::string::*;
use crate::data::{
    entries_of, field, lemma_view, merge_into, merged, nodes_of, or_null, text_of, Data, Node,
};
use crate::front_matter::{
    get_markdown_and_metadata, get_metadata, markdown_html, markdown_of, metadata_of,
};
use crate::seo::{open_graph_tags, page_tag_list};
use crate::settings::{Link, Settings};
use crate::text::opt_text;
use crate::text::{concat2, joined};
use crate::theme::{template_text, TemplateKind, Theme};
use crate::yaml::{parse_string_to_yaml, yaml_document};

verus! {

/// A template and the data to expand it with.
#[derive(Debug)]
pub struct Expansion {
    pub template: String,
    pub context: Data,
}

/// Why a page could not be rendered.
#[derive(Debug)]
pub enum RenderError {
    /// The front matter is no YAML document; the parser's message.
    Metadata(String),
    /// The front matter names a template, but not by a text.
    TemplateNotText,
    /// The theme has no template of this name.
    MissingTemplate(String),
    /// The template engine failed; its message.
    Expansion(String),
    /// An event came that the page was not waiting for.
    OutOfTurn,
}

/// The message of a failure, for the page of source file `file`.
pub open spec fn failure_message(error: RenderError, file: Seq<char>) -> Seq<char> {
    match error {
        RenderError::Metadata(message) => "Failed to parse metadata: "@ + file + ": "@ + message@,
        RenderError::TemplateNotText => "Failed to get template from metadata: "@ + file,
        RenderError::MissingTemplate(name) => "Failed to get template: "@ + file + ": "@ + name@,
        RenderError::Expansion(message) => "Failed to render page: "@ + file + ": "@ + message@,
        RenderError::OutOfTurn => "Failed to render page: "@ + file,
    }
}

impl RenderError {
    /// The message shown to the user for the page of source file `file`.
    pub fn message(&self, file: &str) -> (out: String)
        ensures
            out@ == failure_message(*self, file@),
    {
        match self {
            RenderError::Metadata(message) => {
                let mut out = concat2("Failed to parse metadata: ", file);
                out.append(": ");
                out.append(message.as_str());
                out
            },
            RenderError::TemplateNotText => concat2("Failed to get template from metadata: ", file),
            RenderError::MissingTemplate(name) => {
                let mut out = concat2("Failed to get template: ", file);
                out.append(": ");
                out.append(name.as_str());
                out
            },
            RenderError::Expansion(message) => {
                let mut out = concat2("Failed to render page: ", file);
                out.append(": ");
                out.append(message.as_str());
                out
            },
            RenderError::OutOfTurn => concat2("Failed to render page: ", file),
        }
    }
}

/// What every page of a build shares besides the theme and the settings.
#[derive(Debug)]
pub struct Resources {
    /// The inline style block.
    pub styles: String,
    /// The inline script block.
    pub scripts: String,
    /// The remote data.
    pub remote_data: Data,
}

/// An entry of a context under a text key.
pub open spec fn entry(key: Seq<char>, value: Node) -> (Node, Node) {
    (Node::Text(key), value)
}

/// The content of an optional value, null where there is none.
pub open spec fn opt_node(value: Option<Data>) -> Node {
    match value {
        Some(data) => data@,
        None => Node::Null,
    }
}

/// The data of a page: its own metadata merged into the site's data, so
/// that the page wins wherever both speak; its metadata alone where the site
/// has no data.
pub open spec fn page_data(site_data: Option<Data>, metadata: Node) -> Node {
    match site_data {
        Some(data) => merged(data@, metadata),
        None => metadata,
    }
}

/// The context of a page's own template: the rendered body, the site tree,
/// the page's data and the remote data.
pub open spec fn page_context(body: Seq<char>, root: Node, data: Node, remote_data: Node) -> Node {
    Node::Mapping(
        seq![
            entry("body"@, Node::Text(body)),
            entry("root"@, root),
            entry("data"@, data),
            entry("remote_data"@, remote_data),
        ],
    )
}

/// A navigation link as templates see it.
pub open spec fn link_node(link: Link) -> Node {
    Node::Mapping(
        seq![entry("label"@, Node::Text(link.label@)), entry("url"@, Node::Text(link.url@))],
    )
}

/// The navigation links as templates see them, in order.
pub open spec fn link_nodes(links: Seq<Link>) -> Seq<Node> {
    Seq::new(links.len(), |i: int| link_node(links[i]))
}

/// The context of the outer template.
pub open spec fn app_context(
    settings: Settings,
    open_graph_tags: Seq<char>,
    resources: Resources,
    content: Seq<char>,
    page_metadata: Option<Node>,
) -> Node {
    Node::Mapping(
        seq![
            entry("title"@, Node::Text(settings.meta.title@)),
            entry("description"@, Node::Text(settings.meta.description@)),
            entry("open_graph_tags"@, Node::Text(open_graph_tags)),
            entry("styles"@, Node::Text(resources.styles@)),
            entry("scripts"@, Node::Text(resources.scripts@)),
            entry("links"@, Node::Sequence(link_nodes(settings.navigation.links@))),
            entry("content"@, Node::Text(content)),
            entry("page_metadata"@, or_null(page_metadata)),
            entry("data"@, opt_node(settings.data)),
            entry("remote_data"@, resources.remote_data@),
        ],
    )
}

/// An entry under a text key.
fn keyed(key: &str, value: Data) -> (out: (Data, Data))
    ensures
        (out.0@, out.1@) == entry(key@, value@),
{
    (Data::Text(key.to_owned()), value)
}

/// A text value.
fn text_data(text: &str) -> (out: Data)
    ensures
        out@ == Node::Text(text@),
{
    Data::Text(text.to_owned())
}

/// A copy of an optional value, null in place of none.
fn copy_or_null(value: &Option<Data>) -> (out: Data)
    ensures
        out@ == opt_node(*value),
{
    match value {
        Some(data) => data.deep_clone(),
        None => Data::Null,
    }
}

/// The navigation links as a value.
fn links_data(links: &Vec<Link>) -> (out: Data)
    ensures
        out@ == Node::Sequence(link_nodes(links@)),
{
    let mut items: Vec<Data> = Vec::new();
    let mut i: usize = 0;
    while i < links.len()
        invariant
            i <= links.len(),
            nodes_of(items@) == link_nodes(links@).take(i as int),
        decreases links.len() - i,
    {
        let mut fields: Vec<(Data, Data)> = Vec::new();
        fields.push(keyed("label", text_data(links[i].label.as_str())));
        fields.push(keyed("url", text_data(links[i].url.as_str())));
        let item = Data::Mapping(fields);
        proof {
            lemma_view(item);
            assert(entries_of(fields@) =~= link_node(links@[i as int])->Mapping_0);
        }
        let ghost before = items@;
        items.push(item);
        assert(nodes_of(items@) == nodes_of(before).push(item@));
        i += 1;
    }
    assert(link_nodes(links@).take(links.len() as int) == link_nodes(links@));
    let out = Data::Sequence(items);
    proof {
        lemma_view(out);
    }
    out
}

/// The content of a page: ready, or still to be expanded from the page's own
/// template.
#[derive(Debug)]
pub enum Body {
    Ready(String),
    Expand(Expansion),
}

/// Why a page could not be rendered, without the messages of the parser.
pub enum Failure {
    Metadata,
    TemplateNotText,
    MissingTemplate(Seq<char>),
    Expansion(Seq<char>),
    OutOfTurn,
}

/// What is to be done next for a page.
pub enum Plan {
    /// Expand this template with this context.
    Expand(Seq<char>, Node),
    /// This text is ready.
    Content(Seq<char>),
    /// The page failed.
    Fail(Failure),
}

impl RenderError {
    /// The failure that this error reports.
    pub open spec fn failure(self) -> Failure {
        match self {
            RenderError::Metadata(_) => Failure::Metadata,
            RenderError::TemplateNotText => Failure::TemplateNotText,
            RenderError::MissingTemplate(name) => Failure::MissingTemplate(name@),
            RenderError::Expansion(message) => Failure::Expansion(message@),
            RenderError::OutOfTurn => Failure::OutOfTurn,
        }
    }
}

/// What a body step asks for.
pub open spec fn body_view(out: Result<Body, RenderError>) -> Plan {
    match out {
        Ok(Body::Ready(content)) => Plan::Content(content@),
        Ok(Body::Expand(expansion)) => Plan::Expand(expansion.template@, expansion.context@),
        Err(e) => Plan::Fail(e.failure()),
    }
}

/// What becomes of a rendered body under the page's metadata: the body
/// itself where the metadata names no template; else the expansion of the
/// named template, which the metadata must name by a text and the theme
/// must have.
pub open spec fn body_plan(
    theme: Theme,
    settings: Settings,
    body: Seq<char>,
    metadata: Node,
    site_directory: Node,
    remote_data: Node,
) -> Plan {
    match field(metadata, "template"@) {
        None => Plan::Content(body),
        Some(named) => match text_of(named) {
            None => Plan::Fail(Failure::TemplateNotText),
            Some(name) => match template_text(theme.templates@, name) {
                None => Plan::Fail(Failure::MissingTemplate(name)),
                Some(text) => Plan::Expand(
                    text,
                    page_context(
                        body,
                        site_directory,
                        page_data(settings.data, metadata),
                        remote_data,
                    ),
                ),
            },
        },
    }
}

/// The content of a page from its rendered body: the body itself where the
/// metadata names no template, else a request to expand the named template
/// of the theme with the page's context. A template that is named by
/// something other than a text, or that the theme lacks, fails the page.
pub fn render_body(
    theme: &Theme,
    settings: &Settings,
    body: &str,
    metadata: &Data,
    site_directory: &Data,
    remote_data: &Data,
) -> (out: Result<Body, RenderError>)
    ensures
        body_view(out) == body_plan(
            *theme,
            *settings,
            body@,
            metadata@,
            site_directory@,
            remote_data@,
        ),
{
    let named = match metadata.get("template") {
        Some(named) => named,
        None => {
            return Ok(Body::Ready(body.to_owned()));
        },
    };
    let name = match named.as_str() {
        Some(name) => name,
        None => {
            return Err(RenderError::TemplateNotText);
        },
    };
    let template = match theme.get_template(name) {
        Some(template) => template,
        None => {
            return Err(RenderError::MissingTemplate(name.to_owned()));
        },
    };
    let data = match &settings.data {
        Some(site_data) => merge_into(site_data.deep_clone(), metadata),
        None => metadata.deep_clone(),
    };
    let mut fields: Vec<(Data, Data)> = Vec::new();
    fields.push(keyed("body", text_data(body)));
    fields.push(keyed("root", site_directory.deep_clone()));
    fields.push(keyed("data", data));
    fields.push(keyed("remote_data", remote_data.deep_clone()));
    let context = Data::Mapping(fields);
    proof {
        lemma_view(context);
        assert(entries_of(fields@) =~= page_context(
            body@,
            site_directory@,
            page_data(settings.data, metadata@),
            remote_data@,
        )->Mapping_0);
    }
    Ok(Body::Expand(Expansion { template, context }))
}

/// The meta tag block of a page under this theme: pages of a theme with an
/// AMP template link to their AMP variant, the variant links back.
pub open spec fn page_tags(theme: Theme, settings: Settings, kind: TemplateKind, url_path: Seq<char>) -> Seq<
    char,
> {
    joined(
        page_tag_list(
            settings,
            url_path,
            template_text(theme.templates@, "amp"@) is Some,
            kind == TemplateKind::Amp,
        ),
        "\n"@,
    )
}

/// What an outer step asks for.
pub open spec fn outer_view(out: Result<Expansion, RenderError>) -> Plan {
    match out {
        Ok(expansion) => Plan::Expand(expansion.template@, expansion.context@),
        Err(e) => Plan::Fail(e.failure()),
    }
}

/// What the outer template is asked to do for a page's content: the theme
/// must have the template.
pub open spec fn outer_plan(
    theme: Theme,
    settings: Settings,
    resources: Resources,
    kind: TemplateKind,
    url_path: Seq<char>,
    content: Seq<char>,
    page_metadata: Option<Node>,
) -> Plan {
    match template_text(theme.templates@, kind.name()) {
        None => Plan::Fail(Failure::MissingTemplate(kind.name())),
        Some(text) => Plan::Expand(
            text,
            app_context(
                settings,
                page_tags(theme, settings, kind, url_path),
                resources,
                content,
                page_metadata,
            ),
        ),
    }
}

/// The content of an optional value.
pub open spec fn opt_view(value: Option<Data>) -> Option<Node> {
    match value {
        Some(data) => Some(data@),
        None => None,
    }
}

/// The request to expand the outer template around a page's content.
pub fn render_outer(
    theme: &Theme,
    settings: &Settings,
    resources: &Resources,
    kind: TemplateKind,
    url_path: &str,
    content: &str,
    page_metadata: &Option<Data>,
) -> (out: Result<Expansion, RenderError>)
    ensures
        outer_view(out) == outer_plan(
            *theme,
            *settings,
            *resources,
            kind,
            url_path@,
            content@,
            opt_view(*page_metadata),
        ),
{
    let template = match theme.get_template(kind.template_name()) {
        Some(template) => template,
        None => {
            return Err(RenderError::MissingTemplate(kind.template_name().to_owned()));
        },
    };
    let is_amp_template = match kind {
        TemplateKind::Amp => true,
        TemplateKind::App => false,
    };
    let tags = open_graph_tags(settings, url_path, theme.has_amp(), is_amp_template);
    let mut fields: Vec<(Data, Data)> = Vec::new();
    fields.push(keyed("title", text_data(settings.meta.title.as_str())));
    fields.push(keyed("description", text_data(settings.meta.description.as_str())));
    fields.push(keyed("open_graph_tags", text_data(tags.as_str())));
    fields.push(keyed("styles", text_data(resources.styles.as_str())));
    fields.push(keyed("scripts", text_data(resources.scripts.as_str())));
    fields.push(keyed("links", links_data(&settings.navigation.links)));
    fields.push(keyed("content", text_data(content)));
    fields.push(keyed("page_metadata", copy_or_null(page_metadata)));
    fields.push(keyed("data", copy_or_null(&settings.data)));
    fields.push(keyed("remote_data", resources.remote_data.deep_clone()));
    let context = Data::Mapping(fields);
    proof {
        lemma_view(context);
        assert(entries_of(fields@) =~= app_context(
            *settings,
            page_tags(*theme, *settings, kind, url_path@),
            *resources,
            content@,
            opt_view(*page_metadata),
        )->Mapping_0);
    }
    Ok(Expansion { template, context })
}

/// Where the rendering of a page stands.
#[derive(Debug)]
pub enum RenderState {
    /// Nothing was done yet.
    Start,
    /// The page's own template is being expanded; the page has this
    /// metadata.
    AwaitBody(Data),
    /// The outer template is being expanded.
    AwaitPage,
    /// The page is rendered, or has failed.
    Done,
}

/// What happened since the last step.
#[derive(Debug)]
pub enum RenderEvent {
    /// The rendering begins.
    Begin,
    /// The template engine expanded the template that was asked for.
    Expanded(String),
    /// The template engine failed with this message.
    Failed(String),
}

/// What the caller is to do next.
#[derive(Debug)]
pub enum RenderAction {
    /// Expand this template with this context and report the outcome.
    Expand(Expansion),
    /// The page is rendered: this is its HTML. An empty text says that there
    /// is nothing to write.
    Finish(String),
    /// The page failed; other pages are not concerned.
    Fail(RenderError),
}

/// Where the rendering of a page stands, by content.
pub enum Stage {
    Start,
    AwaitBody(Node),
    AwaitPage,
    Done,
}

/// What happened since the last step, by content.
pub enum Happened {
    Begin,
    Expanded(Seq<char>),
    Failed(Seq<char>),
}

impl RenderState {
    pub open spec fn stage(self) -> Stage {
        match self {
            RenderState::Start => Stage::Start,
            RenderState::AwaitBody(metadata) => Stage::AwaitBody(metadata@),
            RenderState::AwaitPage => Stage::AwaitPage,
            RenderState::Done => Stage::Done,
        }
    }
}

impl RenderEvent {
    pub open spec fn happened(self) -> Happened {
        match self {
            RenderEvent::Begin => Happened::Begin,
            RenderEvent::Expanded(text) => Happened::Expanded(text@),
            RenderEvent::Failed(message) => Happened::Failed(message@),
        }
    }
}

impl RenderAction {
    pub open spec fn plan(self) -> Plan {
        match self {
            RenderAction::Expand(expansion) => Plan::Expand(
                expansion.template@,
                expansion.context@,
            ),
            RenderAction::Finish(html) => Plan::Content(html@),
            RenderAction::Fail(e) => Plan::Fail(e.failure()),
        }
    }
}

/// One page of a build: its source and what it is rendered with.
pub struct Render<'a> {
    /// The path of the source file.
    pub file: String,
    /// The text of the source file.
    pub source: String,
    pub theme: &'a Theme,
    pub settings: &'a Settings,
}

/// The step that follows a plan for the outer template: waiting for its
/// expansion, or done with a failure.
pub open spec fn after_outer(plan: Plan) -> (Stage, Plan) {
    match plan {
        Plan::Expand(_, _) => (Stage::AwaitPage, plan),
        _ => (Stage::Done, plan),
    }
}

impl<'a> Render<'a> {
    /// The step that follows a page's content: the request for the outer
    /// template.
    pub open spec fn outer_step(
        self,
        resources: Resources,
        kind: TemplateKind,
        url_path: Seq<char>,
        content: Seq<char>,
        page_metadata: Option<Node>,
    ) -> (Stage, Plan) {
        after_outer(
            outer_plan(
                *self.theme,
                *self.settings,
                resources,
                kind,
                url_path,
                content,
                page_metadata,
            ),
        )
    }

    /// The first step for a page with metadata `metadata`.
    pub open spec fn body_step(
        self,
        resources: Resources,
        kind: TemplateKind,
        url_path: Seq<char>,
        site_directory: Node,
        body: Seq<char>,
        metadata: Node,
    ) -> (Stage, Plan) {
        match body_plan(
            *self.theme,
            *self.settings,
            body,
            metadata,
            site_directory,
            resources.remote_data@,
        ) {
            Plan::Content(content) => self.outer_step(
                resources,
                kind,
                url_path,
                content,
                Some(metadata),
            ),
            Plan::Expand(template, context) => (
                Stage::AwaitBody(metadata),
                Plan::Expand(template, context),
            ),
            Plan::Fail(failure) => (Stage::Done, Plan::Fail(failure)),
        }
    }

    /// The first step: an AMP variant under a theme without AMP template is
    /// done at once, with nothing to write. Else the source is split and its
    /// body rendered; without metadata the body is the content, with
    /// metadata that is no YAML the page fails.
    pub open spec fn first_step(
        self,
        resources: Resources,
        kind: TemplateKind,
        url_path: Seq<char>,
        site_directory: Node,
    ) -> (Stage, Plan) {
        let body = markdown_html(markdown_of(self.source@));
        if kind == TemplateKind::Amp && template_text(self.theme.templates@, "amp"@) is None {
            (Stage::Done, Plan::Content(Seq::empty()))
        } else {
            match metadata_of(self.source@) {
                None => self.outer_step(resources, kind, url_path, body, None),
                Some(raw) => match yaml_document(raw) {
                    None => (Stage::Done, Plan::Fail(Failure::Metadata)),
                    Some(metadata) => self.body_step(
                        resources,
                        kind,
                        url_path,
                        site_directory,
                        body,
                        metadata,
                    ),
                },
            }
        }
    }

    /// The next stage and what is to be done, from the stage and what
    /// happened.
    pub open spec fn next_step(
        self,
        resources: Resources,
        kind: TemplateKind,
        url_path: Seq<char>,
        site_directory: Node,
        stage: Stage,
        happened: Happened,
    ) -> (Stage, Plan) {
        match (stage, happened) {
            (Stage::Start, Happened::Begin) => self.first_step(
                resources,
                kind,
                url_path,
                site_directory,
            ),
            (Stage::AwaitBody(metadata), Happened::Expanded(content)) => self.outer_step(
                resources,
                kind,
                url_path,
                content,
                Some(metadata),
            ),
            (Stage::AwaitBody(_), Happened::Failed(message)) => (
                Stage::Done,
                Plan::Fail(Failure::Expansion(message)),
            ),
            (Stage::AwaitPage, Happened::Expanded(html)) => (Stage::Done, Plan::Content(html)),
            (Stage::AwaitPage, Happened::Failed(message)) => (
                Stage::Done,
                Plan::Fail(Failure::Expansion(message)),
            ),
            _ => (Stage::Done, Plan::Fail(Failure::OutOfTurn)),
        }
    }

    /// A page of the source file `file`, whose text is `source`.
    pub fn new(file: &str, source: String, theme: &'a Theme, settings: &'a Settings) -> (out: Self)
        ensures
            out.file@ == file@,
            out.source == source,
            out.theme == theme,
            out.settings == settings,
    {
        Render { file: file.to_owned(), source, theme, settings }
    }

    /// The raw metadata of the page.
    pub fn get_metadata(&self) -> (out: Option<String>)
        ensures
            opt_text(out) == metadata_of(self.source@),
    {
        get_metadata(self.source.as_str())
    }

    fn request_outer(
        &self,
        resources: &Resources,
        kind: TemplateKind,
        url_path: &str,
        content: &str,
        page_metadata: &Option<Data>,
    ) -> (out: (RenderState, RenderAction))
        ensures
            (out.0.stage(), out.1.plan()) == self.outer_step(
                *resources,
                kind,
                url_path@,
                content@,
                opt_view(*page_metadata),
            ),
    {
        match render_outer(
            self.theme,
            self.settings,
            resources,
            kind,
            url_path,
            content,
            page_metadata,
        ) {
            Ok(expansion) => (RenderState::AwaitPage, RenderAction::Expand(expansion)),
            Err(e) => (RenderState::Done, RenderAction::Fail(e)),
        }
    }

    fn begin(
        &self,
        resources: &Resources,
        kind: TemplateKind,
        url_path: &str,
        site_directory: &Data,
    ) -> (out: (RenderState, RenderAction))
        ensures
            (out.0.stage(), out.1.plan()) == self.first_step(
                *resources,
                kind,
                url_path@,
                site_directory@,
            ),
    {
        let amp = match kind {
            TemplateKind::Amp => true,
            TemplateKind::App => false,
        };
        if amp && !self.theme.has_amp() {
            let nothing = String::new();
            return (RenderState::Done, RenderAction::Finish(nothing));
        }
        let (raw, body) = get_markdown_and_metadata(self.source.as_str());
        let raw = match raw {
            Some(raw) => raw,
            None => {
                return self.request_outer(resources, kind, url_path, body.as_str(), &None);
            },
        };
        let metadata = match parse_string_to_yaml(raw.as_str()) {
            Ok(metadata) => metadata,
            Err(e) => {
                return (RenderState::Done, RenderAction::Fail(RenderError::Metadata(e.message)));
            },
        };
        match render_body(
            self.theme,
            self.settings,
            body.as_str(),
            &metadata,
            site_directory,
            &resources.remote_data,
        ) {
            Ok(Body::Ready(content)) => {
                let page_metadata = Some(metadata);
                self.request_outer(resources, kind, url_path, content.as_str(), &page_metadata)
            },
            Ok(Body::Expand(expansion)) => (
                RenderState::AwaitBody(metadata),
                RenderAction::Expand(expansion),
            ),
            Err(e) => (RenderState::Done, RenderAction::Fail(e)),
        }
    }

    /// One step of rendering the page with the outer template `kind`: from
    /// where the rendering stands and what happened, where it stands next
    /// and what the caller is to do ([`Render::next_step`]).
    pub fn render_page(
        &self,
        resources: &Resources,
        kind: TemplateKind,
        url_path: &str,
        site_directory: &Data,
        state: RenderState,
        event: RenderEvent,
    ) -> (out: (RenderState, RenderAction))
        ensures
            (out.0.stage(), out.1.plan()) == self.next_step(
                *resources,
                kind,
                url_path@,
                site_directory@,
                state.stage(),
                event.happened(),
            ),
    {
        match state {
            RenderState::Start => match event {
                RenderEvent::Begin => self.begin(resources, kind, url_path, site_directory),
                _ => (RenderState::Done, RenderAction::Fail(RenderError::OutOfTurn)),
            },
            RenderState::AwaitBody(metadata) => match event {
                RenderEvent::Expanded(content) => {
                    let page_metadata = Some(metadata);
                    self.request_outer(resources, kind, url_path, content.as_str(), &page_metadata)
                },
                RenderEvent::Failed(message) => (
                    RenderState::Done,
                    RenderAction::Fail(RenderError::Expansion(message)),
                ),
                _ => (RenderState::Done, RenderAction::Fail(RenderError::OutOfTurn)),
            },
            RenderState::AwaitPage => match event {
                RenderEvent::Expanded(html) => (RenderState::Done, RenderAction::Finish(html)),
                RenderEvent::Failed(message) => (
                    RenderState::Done,
                    RenderAction::Fail(RenderError::Expansion(message)),
                ),
                _ => (RenderState::Done, RenderAction::Fail(RenderError::OutOfTurn)),
            },
            RenderState::Done => (RenderState::Done, RenderAction::Fail(RenderError::OutOfTurn)),
        }
    }
}

/// Under a theme without AMP template the AMP variant of every page is
/// done at the first step, with an empty text and nothing to expand.
pub proof fn lemma_amp_needs_template(
    page: Render,
    resources: Resources,
    url_path: Seq<char>,
    site_directory: Node,
)
    requires
        template_text(page.theme.templates@, "amp"@) is None,
    ensures
        page.next_step(
            resources,
            TemplateKind::Amp,
            url_path,
            site_directory,
            Stage::Start,
            Happened::Begin,
        ) == (Stage::Done, Plan::Content(Seq::<char>::empty())),
{
}

/// A page whose front matter names a template that the theme lacks fails at
/// its first step, with the name of the template.
pub proof fn lemma_missing_template_fails(
    page: Render,
    resources: Resources,
    url_path: Seq<char>,
    site_directory: Node,
    metadata: Node,
    name: Seq<char>,
)
    requires
        metadata_of(page.source@) matches Some(raw) && yaml_document(raw) == Some(metadata),
        field(metadata, "template"@) matches Some(named) && text_of(named) == Some(name),
        template_text(page.theme.templates@, name) is None,
    ensures
        page.next_step(
            resources,
            TemplateKind::App,
            url_path,
            site_directory,
            Stage::Start,
            Happened::Begin,
        ) == (Stage::Done, Plan::Fail(Failure::MissingTemplate(name))),
{
}

/// The first step of every page of a build. What is to be done for a page
/// depends on that page alone: a page that fails leaves the others as they
/// are.
pub fn begin_all<'a>(
    pages: &Vec<(Render<'a>, String)>,
    resources: &Resources,
    kind: TemplateKind,
    site_directory: &Data,
) -> (out: Vec<(RenderState, RenderAction)>)
    ensures
        out.len() == pages.len(),
        forall|i: int|
            0 <= i < pages.len() ==> ((#[trigger] out[i]).0.stage(), out[i].1.plan())
                == pages[i].0.first_step(*resources, kind, pages[i].1@, site_directory@),
{
    let mut out: Vec<(RenderState, RenderAction)> = Vec::new();
    let mut i: usize = 0;
    while i < pages.len()
        invariant
            i <= pages.len(),
            out.len() == i,
            forall|j: int|
                0 <= j < i ==> ((#[trigger] out[j]).0.stage(), out[j].1.plan())
                    == pages[j].0.first_step(*resources, kind, pages[j].1@, site_directory@),
        decreases pages.len() - i,
    {
        let step = pages[i].0.render_page(
            resources,
            kind,
            pages[i].1.as_str(),
            site_directory,
            RenderState::Start,
            RenderEvent::Begin,
        );
        out.push(step);
        i += 1;
    }
    out
}

} // verus!
