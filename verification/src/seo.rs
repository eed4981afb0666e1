use vstd::prelude::*;
use vstd::string::*;
use crate::settings::Settings;
use crate::text::opt_text;
use crate::text::{concat2, concat3, join, joined, views_of};

verus! {

/// Why a search-engine artifact could not be produced.
#[derive(Debug, Clone, Copy, PartialEq, Eq, Structural)]
pub enum SeoError {
    /// The sitemap needs a base URL and the configuration names none, or an
    /// empty one.
    MissingSitemapBaseUrl,
}

impl SeoError {
    /// The message shown to the user.
    pub fn message(&self) -> (out: String)
        ensures
            out@ == "No sitemap base url found in Settings.toml"@,
    {
        "No sitemap base url found in Settings.toml".to_owned()
    }
}

/// How often a page is expected to change.
#[derive(Debug, Clone, Copy, PartialEq, Eq, Structural)]
pub enum ChangeFreq {
    Always,
    Hourly,
    Daily,
    Weekly,
    Monthly,
    Yearly,
    Never,
}

/// One entry of the sitemap. The priority is held in tenths: 8 stands for 0.8.
#[derive(Debug)]
pub struct UrlEntry {
    pub loc: String,
    pub changefreq: ChangeFreq,
    pub priority_tenths: u8,
}

/// The content of robots.txt: everything disallowed where search engines are
/// blocked, else everything allowed and the sitemap under the base URL; none
/// where that needs a base URL and there is none.
pub open spec fn robots_txt(blocked: bool, base_url: Option<Seq<char>>) -> Option<Seq<char>> {
    if blocked {
        Some("User-agent: *\nDisallow: /"@)
    } else {
        match base_url {
            Some(base) => Some("User-agent: *\nAllow: /\nSitemap: "@ + base + "/sitemap.xml"@),
            None => None,
        }
    }
}

/// Whether the configuration blocks search engines.
pub open spec fn blocks_search(settings: Settings) -> bool {
    settings.site matches Some(site) && site.block_search_indexing == Some(true)
}

/// The content of robots.txt for this configuration.
pub fn generate_robots_txt(settings: &Settings) -> (out: Result<String, SeoError>)
    ensures
        match out {
            Ok(text) => robots_txt(blocks_search(*settings), opt_text(settings.meta.base_url))
                == Some(text@),
            Err(e) => e == SeoError::MissingSitemapBaseUrl && robots_txt(
                blocks_search(*settings),
                opt_text(settings.meta.base_url),
            ) is None,
        },
{
    let blocked = settings.get_site_settings().is_search_engine_blocked();
    if blocked {
        Ok("User-agent: *\nDisallow: /".to_owned())
    } else {
        match settings.meta.get_base_url() {
            Some(base) => Ok(
                concat3("User-agent: *\nAllow: /\nSitemap: ", base.as_str(), "/sitemap.xml"),
            ),
            None => Err(SeoError::MissingSitemapBaseUrl),
        }
    }
}

/// What `url::Url::parse` makes of `input`: the URL in its serialised form, or
/// none where `input` is no absolute URL.
pub uninterp spec fn url_text(input: Seq<char>) -> Option<Seq<char>>;

/// Calls `url::Url::parse` and hands back the parsed URL as text
/// ([`url_text`]), none where parsing fails. Nothing else is claimed of the
/// parser.
#[verifier::external_body]
fn parse_url(input: &str) -> (out: Option<String>)
    ensures
        opt_text(out) == url_text(input@),
{
    url::Url::parse(input).ok().map(String::from)
}

/// The candidates that parsed, in order.
pub open spec fn kept_locations(parsed: Seq<Option<Seq<char>>>) -> Seq<Seq<char>>
    decreases parsed.len(),
{
    if parsed.len() == 0 {
        Seq::empty()
    } else {
        let rest = kept_locations(parsed.drop_last());
        match parsed.last() {
            Some(url) => rest.push(url),
            None => rest,
        }
    }
}

/// The characters of each optional string of `items`.
pub open spec fn opt_texts_of(items: Seq<Option<String>>) -> Seq<Option<Seq<char>>> {
    Seq::new(items.len(), |i: int| opt_text(items[i]))
}

/// The locations of `entries`, in order.
pub open spec fn locations_of(entries: Seq<UrlEntry>) -> Seq<Seq<char>> {
    Seq::new(entries.len(), |i: int| entries[i].loc@)
}

/// Every entry changes weekly and has priority 0.8.
pub open spec fn all_weekly(entries: Seq<UrlEntry>) -> bool {
    forall|i: int|
        0 <= i < entries.len() ==> (#[trigger] entries[i]).changefreq == ChangeFreq::Weekly
            && entries[i].priority_tenths == 8
}

/// One sitemap entry for each candidate that parsed as a URL, in order, each
/// changing weekly with priority 0.8.
pub fn sitemap_entries(parsed: &Vec<Option<String>>) -> (entries: Vec<UrlEntry>)
    ensures
        locations_of(entries@) == kept_locations(opt_texts_of(parsed@)),
        all_weekly(entries@),
{
    let mut entries: Vec<UrlEntry> = Vec::new();
    let mut i: usize = 0;
    while i < parsed.len()
        invariant
            i <= parsed.len(),
            locations_of(entries@) == kept_locations(opt_texts_of(parsed@).take(i as int)),
            all_weekly(entries@),
        decreases parsed.len() - i,
    {
        proof {
            let next = opt_texts_of(parsed@).take(i + 1);
            assert(next.drop_last() == opt_texts_of(parsed@).take(i as int));
            assert(next.last() == opt_text(parsed@[i as int]));
        }
        match &parsed[i] {
            Some(url) => {
                let ghost before = entries@;
                entries.push(
                    UrlEntry {
                        loc: url.clone(),
                        changefreq: ChangeFreq::Weekly,
                        priority_tenths: 8,
                    },
                );
                assert(locations_of(entries@) == locations_of(before).push(url@));
            },
            None => {},
        }
        i += 1;
    }
    assert(opt_texts_of(parsed@).take(parsed.len() as int) == opt_texts_of(parsed@));
    entries
}

/// What the URL parser makes of each page's address under `base`.
pub open spec fn parsed_locations(base: Seq<char>, pages: Seq<(String, String)>) -> Seq<
    Option<Seq<char>>,
> {
    Seq::new(pages.len(), |i: int| url_text(base + pages[i].0@))
}

/// The sitemap of the site: one entry for each page whose address under the
/// base URL is a URL, in the order of `all_url_paths`. It needs a base URL
/// that is not empty.
pub fn generate_sitemap_entries(settings: &Settings, all_url_paths: &Vec<(String, String)>) -> (out:
    Result<Vec<UrlEntry>, SeoError>)
    ensures
        match out {
            Ok(entries) => {
                &&& settings.meta.base_url matches Some(base) && base@.len() > 0
                    && locations_of(entries@) == kept_locations(
                    parsed_locations(base@, all_url_paths@),
                )
                &&& all_weekly(entries@)
            },
            Err(e) => {
                &&& e == SeoError::MissingSitemapBaseUrl
                &&& settings.meta.base_url matches Some(base) ==> base@.len() == 0
            },
        },
{
    let base = match settings.meta.get_base_url() {
        Some(base) => base,
        None => {
            return Err(SeoError::MissingSitemapBaseUrl);
        },
    };
    if base.as_str().is_empty() {
        return Err(SeoError::MissingSitemapBaseUrl);
    }
    let mut parsed: Vec<Option<String>> = Vec::new();
    let mut i: usize = 0;
    while i < all_url_paths.len()
        invariant
            i <= all_url_paths.len(),
            opt_texts_of(parsed@) == parsed_locations(base@, all_url_paths@).take(i as int),
        decreases all_url_paths.len() - i,
    {
        let candidate = concat2(base.as_str(), all_url_paths[i].0.as_str());
        let ghost before = parsed@;
        let url = parse_url(candidate.as_str());
        parsed.push(url);
        assert(opt_texts_of(parsed@) == opt_texts_of(before).push(opt_text(url)));
        i += 1;
    }
    assert(parsed_locations(base@, all_url_paths@).take(all_url_paths.len() as int)
        == parsed_locations(base@, all_url_paths@));
    Ok(sitemap_entries(&parsed))
}

/// The link between a page and its AMP variant: a page that has an AMP
/// variant points to it, the AMP variant points back to the page. Without a
/// base URL there is no address to point to, and no link.
pub open spec fn amp_link(
    base_url: Option<Seq<char>>,
    url_path: Seq<char>,
    is_amp: bool,
    is_amp_template: bool,
) -> Seq<Seq<char>> {
    match base_url {
        Some(base) => if is_amp && !is_amp_template {
            seq!["<link rel=\"amphtml\" href=\""@ + (base + url_path) + "amp\">"@]
        } else if is_amp && is_amp_template {
            seq!["<link rel=\"canonical\" href=\""@ + (base + url_path) + "\">"@]
        } else {
            Seq::empty()
        },
        None => Seq::empty(),
    }
}

/// The tags that name the site's address, where it has one.
pub open spec fn url_tags(base_url: Option<Seq<char>>) -> Seq<Seq<char>> {
    match base_url {
        Some(base) => seq![
            "<meta property=\"og:url\" content=\""@ + base + "\" />"@,
            "<meta name=\"twitter:url\" content=\""@ + base + "\" />"@,
        ],
        None => Seq::empty(),
    }
}

/// The image tags, where an Open Graph image is configured.
pub open spec fn image_tags(og_image_url: Option<Seq<char>>) -> Seq<Seq<char>> {
    match og_image_url {
        Some(url) => seq![
            "<meta property=\"og:image\" content=\""@ + url + "\" />"@,
            "<meta name=\"twitter:image\" content=\""@ + url + "\" />"@,
            "<meta name=\"twitter:card\" content=\"summary_large_image\" />"@,
        ],
        None => Seq::empty(),
    }
}

/// The meta tags of a page, one per element: title and description in
/// every flavour, the link to or from the AMP variant and the site's
/// address where a base URL is configured, the image where one is.
pub open spec fn open_graph_tag_list(
    title: Seq<char>,
    description: Seq<char>,
    base_url: Option<Seq<char>>,
    og_image_url: Option<Seq<char>>,
    url_path: Seq<char>,
    is_amp: bool,
    is_amp_template: bool,
) -> Seq<Seq<char>> {
    seq![
        "<meta property=\"title\" content=\""@ + title + "\" />"@,
        "<meta name=\"description\" content=\""@ + description + "\" />"@,
        "<meta property=\"og:title\" content=\""@ + title + "\" />"@,
        "<meta property=\"og:description\" content=\""@ + description + "\" />"@,
    ] + amp_link(base_url, url_path, is_amp, is_amp_template) + seq![
        "<meta property=\"og:type\" content=\"website\" />"@,
        "<meta property=\"og:title\" content=\""@ + title + "\" />"@,
        "<meta property=\"og:description\" content=\""@ + description + "\" />"@,
        "<meta name=\"twitter:title\" content=\""@ + title + "\" />"@,
        "<meta name=\"twitter:description\" content=\""@ + description + "\" />"@,
    ] + url_tags(base_url) + image_tags(og_image_url)
}

/// The meta tags of a page under this configuration.
pub open spec fn page_tag_list(
    settings: Settings,
    url_path: Seq<char>,
    is_amp: bool,
    is_amp_template: bool,
) -> Seq<Seq<char>> {
    open_graph_tag_list(
        settings.meta.title@,
        settings.meta.description@,
        opt_text(settings.meta.base_url),
        opt_text(settings.meta.og_image_url),
        url_path,
        is_amp,
        is_amp_template,
    )
}

/// The meta tag block of a page: the tags of [`open_graph_tag_list`], one per
/// line. A configuration without base URL gets the block without the tags
/// that need one; the block is never refused.
pub fn generate_open_graph_tags(
    settings: &Settings,
    url_path: &str,
    is_amp: bool,
    is_amp_template: bool,
) -> (out: Result<String, SeoError>)
    ensures
        out matches Ok(text) && text@ == joined(
            page_tag_list(*settings, url_path@, is_amp, is_amp_template),
            "\n"@,
        ),
{
    Ok(open_graph_tags(settings, url_path, is_amp, is_amp_template))
}

/// The meta tag block of a page, one tag per line.
pub fn open_graph_tags(
    settings: &Settings,
    url_path: &str,
    is_amp: bool,
    is_amp_template: bool,
) -> (text: String)
    ensures
        text@ == joined(page_tag_list(*settings, url_path@, is_amp, is_amp_template), "\n"@),
{
    let title = settings.meta.title.as_str();
    let description = settings.meta.description.as_str();
    let base_url = settings.meta.get_base_url();
    let mut tags: Vec<String> = Vec::new();
    tags.push(concat3("<meta property=\"title\" content=\"", title, "\" />"));
    tags.push(concat3("<meta name=\"description\" content=\"", description, "\" />"));
    tags.push(concat3("<meta property=\"og:title\" content=\"", title, "\" />"));
    tags.push(concat3("<meta property=\"og:description\" content=\"", description, "\" />"));
    match &base_url {
        Some(base) => {
            if is_amp && !is_amp_template {
                let target = concat2(base.as_str(), url_path);
                tags.push(concat3("<link rel=\"amphtml\" href=\"", target.as_str(), "amp\">"));
            } else if is_amp_template && is_amp {
                let target = concat2(base.as_str(), url_path);
                tags.push(concat3("<link rel=\"canonical\" href=\"", target.as_str(), "\">"));
            }
        },
        None => {},
    }
    tags.push("<meta property=\"og:type\" content=\"website\" />".to_owned());
    tags.push(concat3("<meta property=\"og:title\" content=\"", title, "\" />"));
    tags.push(concat3("<meta property=\"og:description\" content=\"", description, "\" />"));
    tags.push(concat3("<meta name=\"twitter:title\" content=\"", title, "\" />"));
    tags.push(concat3("<meta name=\"twitter:description\" content=\"", description, "\" />"));
    match &base_url {
        Some(base) => {
            tags.push(concat3("<meta property=\"og:url\" content=\"", base.as_str(), "\" />"));
            tags.push(concat3("<meta name=\"twitter:url\" content=\"", base.as_str(), "\" />"));
        },
        None => {},
    }
    match settings.meta.get_og_image_url() {
        Some(image) => {
            tags.push(concat3("<meta property=\"og:image\" content=\"", image.as_str(), "\" />"));
            tags.push(concat3("<meta name=\"twitter:image\" content=\"", image.as_str(), "\" />"));
            tags.push("<meta name=\"twitter:card\" content=\"summary_large_image\" />".to_owned());
        },
        None => {},
    }
    assert(views_of(tags@) =~= page_tag_list(*settings, url_path@, is_amp, is_amp_template));
    join(&tags, "\n")
}

} // verus!
