use vstd::prelude::*;
use vstd::string::*;
use crate::data::{
    entries_of, find_key, lemma_found, lemma_missing, lemma_view, nodes_of, or_null, upsert, Data,
    Node,
};
use crate::json::{json_document, parse_json};
use crate::settings::Settings;
use crate::text::opt_text;
use crate::text::{join, joined, views_of};
use crate::theme::Theme;

verus! {

/// What each download brought: its text, nothing where it failed.
pub open spec fn fetched_texts(fetched: Seq<Option<String>>) -> Seq<Seq<char>> {
    Seq::new(
        fetched.len(),
        |i: int|
            match fetched[i] {
                Some(text) => text@,
                None => Seq::empty(),
            },
    )
}

/// The inline style block: the downloaded stylesheets, one per line, then
/// the theme's own stylesheet.
pub open spec fn style_tag(downloaded: Seq<Seq<char>>, local: Seq<char>) -> Seq<char> {
    "<style>"@ + joined(downloaded, "\n"@) + local + "</style>"@
}

/// The inline script block: the downloaded scripts, one per line.
pub open spec fn script_tag(downloaded: Seq<Seq<char>>) -> Seq<char> {
    "<script type=\"text/javascript\">"@ + joined(downloaded, "\n"@) + "</script>"@
}

/// The text of each download, an empty text for one that failed.
fn texts_or_empty(fetched: &Vec<Option<String>>) -> (out: Vec<String>)
    ensures
        views_of(out@) == fetched_texts(fetched@),
{
    let mut out: Vec<String> = Vec::new();
    let mut i: usize = 0;
    while i < fetched.len()
        invariant
            i <= fetched.len(),
            views_of(out@) == fetched_texts(fetched@).take(i as int),
        decreases fetched.len() - i,
    {
        let text = match &fetched[i] {
            Some(text) => text.clone(),
            None => String::new(),
        };
        let ghost before = out@;
        out.push(text);
        assert(views_of(out@) == views_of(before).push(text@));
        i += 1;
    }
    assert(fetched_texts(fetched@).take(fetched.len() as int) == fetched_texts(fetched@));
    out
}

/// The local stylesheet of a theme, empty where it has none.
pub open spec fn local_css(theme: Theme) -> Seq<char> {
    match theme.global_css {
        Some(css) => css@,
        None => Seq::empty(),
    }
}

/// The inline style block of every page: what the configured stylesheet
/// URLs brought, a failed download counting as empty, before the theme's own
/// stylesheet.
pub fn get_global_styles(theme: &Theme, downloaded: &Vec<Option<String>>) -> (tag: String)
    ensures
        tag@ == style_tag(fetched_texts(downloaded@), local_css(*theme)),
{
    let texts = texts_or_empty(downloaded);
    let mut tag = "<style>".to_owned();
    tag.append(join(&texts, "\n").as_str());
    match &theme.global_css {
        Some(css) => {
            tag.append(css.as_str());
        },
        None => {
            assert(tag@ + Seq::<char>::empty() == tag@);
        },
    }
    tag.append("</style>");
    tag
}

/// The inline script block of every page: what the configured script URLs
/// brought, a failed download counting as empty.
pub fn get_global_scripts(downloaded: &Vec<Option<String>>) -> (tag: String)
    ensures
        tag@ == script_tag(fetched_texts(downloaded@)),
{
    let texts = texts_or_empty(downloaded);
    let mut tag = "<script type=\"text/javascript\">".to_owned();
    tag.append(join(&texts, "\n").as_str());
    tag.append("</script>");
    tag
}

/// One named source of remote data.
#[derive(Debug)]
pub struct RemoteSource {
    /// The name under which templates find the data.
    pub key: Data,
    /// Where to fetch it; none where the configured value is no text.
    pub url: Option<String>,
}

/// The URL of a source: the configured value where it is a text.
pub open spec fn source_url(configured: Node) -> Option<Seq<char>> {
    match configured {
        Node::Text(url) => Some(url),
        _ => None,
    }
}

/// The sources that a configuration names: one per entry of its remote-data
/// table, in order; none where it has no such table.
pub open spec fn sources_of(remote_data: Option<Data>) -> Option<Seq<(Node, Option<Seq<char>>)>> {
    match remote_data {
        Some(Data::Mapping(entries)) => Some(
            Seq::new(
                entries@.len(),
                |i: int| (entries@[i].0@, source_url(entries@[i].1@)),
            ),
        ),
        _ => None,
    }
}

/// The name and the URL of each source.
pub open spec fn sources_view(sources: Seq<RemoteSource>) -> Seq<(Node, Option<Seq<char>>)> {
    Seq::new(sources.len(), |i: int| (sources[i].key@, opt_text(sources[i].url)))
}

/// The sources of remote data that the configuration names.
pub fn remote_sources(settings: &Settings) -> (out: Option<Vec<RemoteSource>>)
    ensures
        match out {
            Some(sources) => sources_of(settings.remote_data) == Some(sources_view(sources@)),
            None => sources_of(settings.remote_data) is None,
        },
{
    match &settings.remote_data {
        Some(Data::Mapping(entries)) => {
            let mut sources: Vec<RemoteSource> = Vec::new();
            let mut i: usize = 0;
            while i < entries.len()
                invariant
                    i <= entries.len(),
                    settings.remote_data == Some(Data::Mapping(*entries)),
                    sources_view(sources@) == sources_of(settings.remote_data)->0.take(i as int),
                decreases entries.len() - i,
            {
                let url = match &entries[i].1 {
                    Data::Text(url) => Some(url.clone()),
                    _ => None,
                };
                let key = entries[i].0.deep_clone();
                let ghost before = sources@;
                sources.push(RemoteSource { key, url });
                assert(sources_view(sources@) == sources_view(before).push((key@, opt_text(url))));
                i += 1;
            }
            assert(sources_of(settings.remote_data)->0.take(entries.len() as int) == sources_of(
                settings.remote_data,
            )->0);
            Some(sources)
        },
        _ => None,
    }
}

/// The entries of the remote data after the first `n` sources went in, each
/// stored under its name; a later source of the same name takes the place
/// of an earlier one. A source without a value holds null.
pub open spec fn remote_entries(names: Seq<Node>, values: Seq<Node>, n: nat) -> Seq<(Node, Node)>
    decreases n,
{
    if n == 0 || n > names.len() {
        Seq::empty()
    } else {
        upsert(
            remote_entries(names, values, (n - 1) as nat),
            names[n - 1],
            if n - 1 < values.len() {
                values[n - 1]
            } else {
                Node::Null
            },
        )
    }
}

/// The name of each source.
pub open spec fn source_names(sources: Seq<RemoteSource>) -> Seq<Node> {
    Seq::new(sources.len(), |i: int| sources[i].key@)
}

/// The remote data as templates see it: a mapping from each source's name
/// to its value.
pub fn assemble_remote_data(sources: &Vec<RemoteSource>, values: &Vec<Data>) -> (out: Data)
    ensures
        out@ == Node::Mapping(
            remote_entries(source_names(sources@), nodes_of(values@), sources.len() as nat),
        ),
{
    let mut entries: Vec<(Data, Data)> = Vec::new();
    let mut i: usize = 0;
    assert(entries_of(entries@) =~= Seq::empty());
    while i < sources.len()
        invariant
            i <= sources.len(),
            entries_of(entries@) == remote_entries(
                source_names(sources@),
                nodes_of(values@),
                i as nat,
            ),
        decreases sources.len() - i,
    {
        let value = if i < values.len() {
            values[i].deep_clone()
        } else {
            Data::Null
        };
        let ghost so_far = entries_of(entries@);
        let ghost name = sources@[i as int].key@;
        match find_key(&entries, &sources[i].key) {
            Some(at) => {
                proof {
                    lemma_found(so_far, name, at as int, value@);
                }
                let (own_key, _) = entries.remove(at);
                entries.insert(at, (own_key, value));
                assert(entries_of(entries@) =~= so_far.update(at as int, (name, value@)));
            },
            None => {
                proof {
                    lemma_missing(so_far, name, value@);
                }
                let key = sources[i].key.deep_clone();
                entries.push((key, value));
                assert(entries_of(entries@) =~= so_far.push((name, value@)));
            },
        }
        i += 1;
    }
    let out = Data::Mapping(entries);
    proof {
        lemma_view(out);
    }
    out
}

/// What a fetched body holds: the JSON document that it is, null where it is
/// none or where nothing was fetched.
pub open spec fn remote_value(body: Option<String>) -> Node {
    match body {
        Some(text) => or_null(json_document(text@)),
        None => Node::Null,
    }
}

/// The value of each source: null for a source without URL, whatever was
/// handed in for it, and for a source for which nothing was handed in; else
/// what the body fetched for it holds.
pub open spec fn source_values(sources: Seq<RemoteSource>, bodies: Seq<Option<String>>) -> Seq<
    Node,
> {
    Seq::new(
        sources.len(),
        |i: int|
            if sources[i].url is Some && i < bodies.len() {
                remote_value(bodies[i])
            } else {
                Node::Null
            },
    )
}

/// The remote data of a build: null where the configuration names no
/// sources, else a mapping from each source's name to the JSON document that
/// was fetched for it. A source without URL holds null, and so does one that
/// could not be fetched or whose body is no JSON.
pub fn get_remote_data(sources: &Option<Vec<RemoteSource>>, bodies: &Vec<Option<String>>) -> (out:
    Data)
    ensures
        out@ == match *sources {
            Some(named) => Node::Mapping(
                remote_entries(
                    source_names(named@),
                    source_values(named@, bodies@),
                    named.len() as nat,
                ),
            ),
            None => Node::Null,
        },
{
    match sources {
        Some(named) => {
            let mut values: Vec<Data> = Vec::new();
            let mut i: usize = 0;
            while i < named.len()
                invariant
                    i <= named.len(),
                    nodes_of(values@) == source_values(named@, bodies@).take(i as int),
                decreases named.len() - i,
            {
                let value = if named[i].url.is_some() && i < bodies.len() {
                    match &bodies[i] {
                        Some(text) => match parse_json(text.as_str()) {
                            Some(value) => value,
                            None => Data::Null,
                        },
                        None => Data::Null,
                    }
                } else {
                    Data::Null
                };
                let ghost before = values@;
                values.push(value);
                assert(nodes_of(values@) == nodes_of(before).push(value@));
                i += 1;
            }
            assert(source_values(named@, bodies@).take(named.len() as int) == source_values(
                named@,
                bodies@,
            ));
            assemble_remote_data(named, &values)
        },
        None => Data::Null,
    }
}

} // verus!
