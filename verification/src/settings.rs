use vstd::prelude::*;
use crate::text::views_of;
use crate::data::Data;

verus! {

/// The strings of an optional list, none at all where the list is absent.
pub open spec fn opt_texts(o: Option<Vec<String>>) -> Seq<Seq<char>> {
    match o {
        Some(v) => views_of(v@),
        None => Seq::empty(),
    }
}

/// The strings of an optional list, telling an absent list from an empty one.
pub open spec fn opt_list(o: Option<Vec<String>>) -> Option<Seq<Seq<char>>> {
    match o {
        Some(v) => Some(views_of(v@)),
        None => None,
    }
}

/// A copy of `items`.
pub fn clone_strings(items: &Vec<String>) -> (out: Vec<String>)
    ensures
        out@ == items@,
{
    let mut out: Vec<String> = Vec::new();
    let mut i: usize = 0;
    while i < items.len()
        invariant
            i <= items.len(),
            out@ == items@.take(i as int),
        decreases items.len() - i,
    {
        out.push(items[i].clone());
        i += 1;
    }
    out
}

/// A copy of `item`.
pub fn clone_opt_string(item: &Option<String>) -> (out: Option<String>)
    ensures
        out == *item,
{
    match item {
        Some(s) => Some(s.clone()),
        None => None,
    }
}

/// Ports of the development server and of its reload socket.
#[derive(Debug, Clone, Copy, PartialEq, Eq, Structural)]
pub struct DevSettings {
    pub port: u16,
    pub ws_port: u16,
}

/// Optional site-wide switches and external resources.
#[derive(Debug, Clone)]
pub struct SiteSettings {
    pub block_search_indexing: Option<bool>,
    pub script_urls: Option<Vec<String>>,
    pub style_urls: Option<Vec<String>>,
}

impl SiteSettings {
    /// Search engines are blocked only where the switch is present and set.
    pub fn is_search_engine_blocked(&self) -> (blocked: bool)
        ensures
            blocked == (self.block_search_indexing == Some(true)),
    {
        match self.block_search_indexing {
            Some(true) => true,
            _ => false,
        }
    }

    /// The configured script URLs, none where the list is absent.
    pub fn get_script_urls(&self) -> (urls: Vec<String>)
        ensures
            views_of(urls@) == opt_texts(self.script_urls),
    {
        match &self.script_urls {
            Some(urls) => clone_strings(urls),
            None => Vec::new(),
        }
    }

    /// The configured stylesheet URLs, none where the list is absent.
    pub fn get_style_urls(&self) -> (urls: Vec<String>)
        ensures
            views_of(urls@) == opt_texts(self.style_urls),
    {
        match &self.style_urls {
            Some(urls) => clone_strings(urls),
            None => Vec::new(),
        }
    }
}

/// Title, description and addresses of the site.
#[derive(Debug, Clone)]
pub struct SiteMeta {
    pub title: String,
    pub description: String,
    pub og_image_url: Option<String>,
    pub base_url: Option<String>,
}

impl SiteMeta {
    /// The Open Graph image URL, if one is configured.
    pub fn get_og_image_url(&self) -> (url: Option<String>)
        ensures
            url == self.og_image_url,
    {
        clone_opt_string(&self.og_image_url)
    }

    /// The base URL of the site, if one is configured.
    pub fn get_base_url(&self) -> (url: Option<String>)
        ensures
            url == self.base_url,
    {
        clone_opt_string(&self.base_url)
    }
}

/// One navigation entry.
#[derive(Debug, Clone)]
pub struct Link {
    pub label: String,
    pub url: String,
}

/// The navigation entries, in the order in which they are shown.
#[derive(Debug, Clone)]
pub struct NavigationSettings {
    pub links: Vec<Link>,
}

/// The site-wide configuration of one build.
#[derive(Debug)]
pub struct Settings {
    pub dev: DevSettings,
    pub site: Option<SiteSettings>,
    pub meta: SiteMeta,
    pub navigation: NavigationSettings,
    pub data: Option<Data>,
    pub remote_data: Option<Data>,
}

/// The switches that hold where the configuration has no site section:
/// nothing blocked, no scripts, no stylesheets.
pub open spec fn is_default_site(site: SiteSettings) -> bool {
    &&& site.block_search_indexing == Some(false)
    &&& site.script_urls matches Some(s) && s@.len() == 0
    &&& site.style_urls matches Some(s) && s@.len() == 0
}

impl Settings {
    /// The configuration of a freshly created project.
    pub fn default() -> (s: Settings)
        ensures
            s.dev == (DevSettings { port: 3000, ws_port: 3001 }),
            s.site is None,
            s.meta.title@ == "RustyInk"@,
            s.meta.description@ == "A blazing fast static site generator"@,
            s.meta.og_image_url is None,
            s.meta.base_url is None,
            s.navigation.links@.len() == 1,
            s.navigation.links@[0].label@ == "Home"@,
            s.navigation.links@[0].url@ == "/"@,
            s.data is None,
            s.remote_data is None,
    {
        let mut links: Vec<Link> = Vec::new();
        links.push(Link { label: "Home".to_owned(), url: "/".to_owned() });
        Settings {
            dev: DevSettings { port: 3000, ws_port: 3001 },
            site: None,
            meta: SiteMeta {
                title: "RustyInk".to_owned(),
                description: "A blazing fast static site generator".to_owned(),
                og_image_url: None,
                base_url: None,
            },
            navigation: NavigationSettings { links },
            data: None,
            remote_data: None,
        }
    }

    /// The site's data as templates and page metadata see it, where the
    /// configuration has any.
    pub fn get_data_yaml(&self) -> (out: Option<Data>)
        ensures
            match out {
                Some(data) => self.data matches Some(own) && data@ == own@,
                None => self.data is None,
            },
    {
        match &self.data {
            Some(data) => Some(data.deep_clone()),
            None => None,
        }
    }

    /// The site section, or its defaults where the configuration has none.
    pub fn get_site_settings(&self) -> (site: SiteSettings)
        ensures
            match self.site {
                Some(own) => {
                    &&& site.block_search_indexing == own.block_search_indexing
                    &&& opt_list(site.script_urls) == opt_list(own.script_urls)
                    &&& opt_list(site.style_urls) == opt_list(own.style_urls)
                },
                None => is_default_site(site),
            },
    {
        match &self.site {
            Some(site) => SiteSettings {
                block_search_indexing: site.block_search_indexing,
                script_urls: match &site.script_urls {
                    Some(urls) => Some(clone_strings(urls)),
                    None => None,
                },
                style_urls: match &site.style_urls {
                    Some(urls) => Some(clone_strings(urls)),
                    None => None,
                },
            },
            None => SiteSettings {
                block_search_indexing: Some(false),
                script_urls: Some(Vec::new()),
                style_urls: Some(Vec::new()),
            },
        }
    }
}

} // verus!
