use vstd::prelude::*;
use vstd::string::*;
use crate::cache::Cache;
use crate::data::Data;
use crate::front_matter::{get_metadata, metadata_of};
use crate::paths::{
    actual_url_path, amp_file, amp_html_path, is_listed, listed, listed_url_path, output_file,
    output_html_path, output_segments, page_segments, page_url_path, served_url_path, OUTPUT_DIR,
};
use crate::seo::{
    all_weekly, blocks_search, generate_robots_txt, generate_sitemap_entries, kept_locations,
    locations_of, parsed_locations, robots_txt, UrlEntry,
};
use crate::settings::Settings;
use crate::text::opt_text;
use crate::site_directory::{generate_site_directory, parsed_pages, tree_outcome, SiteTreeError};
use crate::text::concat3;

verus! {

/// The script that pages get in development mode: it reloads the page when
/// the development server says so.
pub const WEBSOCKET_CLIENT_JS: &'static str =
    "\n    <script type=\"module\">\n        const socket = new WebSocket(\"ws://localhost:3001\");\n\n        socket.onopen = function (event) {\n            console.log(\"\u{2714} Connected to dev server\");\n        };\n\n        socket.onmessage = function (event) {\n            if (event.data === \"RELOAD\") {\n                window.location.reload();\n            }\n        };\n    </script>\n";

/// The directories and switches of one build.
#[derive(Debug)]
pub struct Worker {
    pub pages_dir: String,
    pub public_dir: String,
    pub theme_dir: String,
    pub output_dir: String,
    pub config_file: String,
    pub cache: Option<Cache>,
    pub is_dev: bool,
}

/// Where a page goes.
#[derive(Debug)]
pub struct PageTarget {
    /// The output file.
    pub html_file: String,
    /// The URL path under which the page is served.
    pub url_path: String,
}

/// What the minifier of `html_minifier` makes of `html` in one pass with its
/// default switches: the bytes of the minified page, none where it reports
/// an error.
pub uninterp spec fn minified_html(html: Seq<char>) -> Option<Seq<u8>>;

/// Feeds the text to a fresh `html_minifier::HTMLMinifier` with `digest` and
/// takes what `get_html` holds afterwards. The contract names that outcome
/// ([`minified_html`]) and claims nothing else of the minifier.
#[verifier::external_body]
fn minify_html(html: &str) -> (out: Option<Vec<u8>>)
    ensures
        match out {
            Some(bytes) => minified_html(html@) == Some(bytes@),
            None => minified_html(html@) is None,
        },
{
    let mut minifier = html_minifier::HTMLMinifier::new();
    minifier.digest(html).ok()?;
    Some(minifier.get_html().to_vec())
}

/// What is written for a rendered page.
#[derive(Debug)]
pub enum PageFile {
    /// In development mode: the page as text, with the reload script.
    Text(String),
    /// Else: the minified page.
    Bytes(Vec<u8>),
}

/// The page could not be minified.
#[derive(Debug, Clone, Copy, PartialEq, Eq, Structural)]
pub struct MinifyError;

/// The page of one source file as it is listed: its URL path and its raw
/// metadata, empty where it has none.
pub open spec fn listing(pages_dir: Seq<char>, source: (String, String)) -> (Seq<char>, Seq<char>) {
    (
        listed_url_path(source.0@, pages_dir),
        match metadata_of(source.1@) {
            Some(metadata) => metadata,
            None => Seq::empty(),
        },
    )
}

/// The listed pages of the first `n` source files, in order.
pub open spec fn listings(pages_dir: Seq<char>, sources: Seq<(String, String)>, n: nat) -> Seq<
    (Seq<char>, Seq<char>),
>
    decreases n,
{
    if n == 0 || n > sources.len() {
        Seq::empty()
    } else {
        let before = listings(pages_dir, sources, (n - 1) as nat);
        let page = listing(pages_dir, sources[n - 1]);
        if listed(page.0, page.1) {
            before.push(page)
        } else {
            before
        }
    }
}

/// The texts of each pair.
pub open spec fn pairs_of(pages: Seq<(String, String)>) -> Seq<(Seq<char>, Seq<char>)> {
    Seq::new(pages.len(), |i: int| (pages[i].0@, pages[i].1@))
}

impl Worker {
    /// A build in development mode, or with a cache.
    pub fn dev(
        pages_dir: String,
        public_dir: String,
        theme_dir: String,
        config_file: String,
        cache: Option<Cache>,
        is_dev: bool,
    ) -> (out: Worker)
        ensures
            out.pages_dir == pages_dir,
            out.public_dir == public_dir,
            out.theme_dir == theme_dir,
            out.config_file == config_file,
            out.output_dir@ == OUTPUT_DIR@,
            out.cache == cache,
            out.is_dev == is_dev,
    {
        Worker {
            pages_dir,
            public_dir,
            theme_dir,
            output_dir: OUTPUT_DIR.to_owned(),
            config_file,
            cache,
            is_dev,
        }
    }

    /// A production build: no cache, no reload script.
    pub fn prod(pages_dir: String, public_dir: String, theme_dir: String, config_file: String) -> (out:
        Worker)
        ensures
            out.pages_dir == pages_dir,
            out.public_dir == public_dir,
            out.theme_dir == theme_dir,
            out.config_file == config_file,
            out.output_dir@ == OUTPUT_DIR@,
            out.cache is None,
            !out.is_dev,
    {
        Worker {
            pages_dir,
            public_dir,
            theme_dir,
            output_dir: OUTPUT_DIR.to_owned(),
            config_file,
            cache: None,
            is_dev: false,
        }
    }

    /// The directory that the site is written to.
    pub fn get_output_dir(&self) -> (out: &str)
        ensures
            out@ == self.output_dir@,
    {
        self.output_dir.as_str()
    }

    /// The pages that take part in the site tree and the sitemap, from each
    /// source file's path and text: each with its URL path and its raw
    /// metadata, in the order of the files.
    pub fn listed_pages(&self, sources: &Vec<(String, String)>) -> (pages: Vec<(String, String)>)
        ensures
            pairs_of(pages@) == listings(self.pages_dir@, sources@, sources.len() as nat),
    {
        let mut pages: Vec<(String, String)> = Vec::new();
        let mut i: usize = 0;
        while i < sources.len()
            invariant
                i <= sources.len(),
                pairs_of(pages@) == listings(self.pages_dir@, sources@, i as nat),
            decreases sources.len() - i,
        {
            let url_path = page_url_path(sources[i].0.as_str(), self.pages_dir.as_str());
            let metadata = match get_metadata(sources[i].1.as_str()) {
                Some(metadata) => metadata,
                None => String::new(),
            };
            if is_listed(url_path.as_str(), metadata.as_str()) {
                let ghost before = pages@;
                pages.push((url_path, metadata));
                assert(pairs_of(pages@) == pairs_of(before).push((url_path@, metadata@)));
            }
            i += 1;
        }
        pages
    }

    /// The tree of the site, from each listed page's URL path and raw
    /// metadata.
    pub fn generate_site_directory(&self, url_paths: &Vec<(String, String)>) -> (out: Result<
        Data,
        SiteTreeError,
    >)
        ensures
            tree_outcome(parsed_pages(url_paths@), out),
    {
        generate_site_directory(url_paths)
    }

    /// Where the page of the source file `file` goes.
    pub fn page_target(&self, file: &str) -> (out: PageTarget)
        ensures
            out.html_file@ == output_file(file@, self.pages_dir@, self.output_dir@),
            out.url_path@ == served_url_path(file@, self.pages_dir@),
            output_segments(page_segments(file@, self.pages_dir@)) == page_segments(
                file@,
                self.pages_dir@,
            ),
    {
        let html_file = output_html_path(file, self.pages_dir.as_str(), self.output_dir.as_str());
        let url_path = actual_url_path(file, self.pages_dir.as_str());
        PageTarget { html_file, url_path }
    }

    /// What is written for a rendered page: in development mode the page
    /// with the reload script on a line of its own, else the minified page.
    pub fn page_file(&self, html: &str) -> (out: Result<PageFile, MinifyError>)
        ensures
            self.is_dev ==> (out matches Ok(PageFile::Text(text)) && text@ == html@ + "\n"@
                + WEBSOCKET_CLIENT_JS@),
            !self.is_dev ==> match out {
                Ok(PageFile::Bytes(bytes)) => minified_html(html@) == Some(bytes@),
                Ok(PageFile::Text(_)) => false,
                Err(_) => minified_html(html@) is None,
            },
    {
        if self.is_dev {
            Ok(PageFile::Text(concat3(html, "\n", WEBSOCKET_CLIENT_JS)))
        } else {
            match minify_html(html) {
                Some(bytes) => Ok(PageFile::Bytes(bytes)),
                None => Err(MinifyError),
            }
        }
    }

    /// Whether pages get an AMP variant in this build: not in development
    /// mode.
    pub fn renders_amp(&self) -> (out: bool)
        ensures
            out == !self.is_dev,
    {
        !self.is_dev
    }

    /// The file of a page's AMP variant; none where the variant is empty,
    /// which is then not written.
    pub fn amp_target(&self, html_file: &str, amp_html: &str) -> (out: Option<String>)
        ensures
            match out {
                Some(file) => amp_html@.len() > 0 && file@ == amp_file(html_file@),
                None => amp_html@.len() == 0,
            },
    {
        if amp_html.is_empty() {
            None
        } else {
            Some(amp_html_path(html_file))
        }
    }

    /// The content of robots.txt, where it is to be written: not where the
    /// file exists already, nor where it cannot be produced.
    pub fn robots_file(&self, present: bool, settings: &Settings) -> (out: Option<String>)
        ensures
            match out {
                Some(text) => !present && robots_txt(
                    blocks_search(*settings),
                    opt_text(settings.meta.base_url),
                ) == Some(text@),
                None => present || robots_txt(
                    blocks_search(*settings),
                    opt_text(settings.meta.base_url),
                ) is None,
            },
    {
        if present {
            None
        } else {
            match generate_robots_txt(settings) {
                Ok(text) => Some(text),
                Err(_) => None,
            }
        }
    }

    /// The entries of sitemap.xml, where it is to be written: not where the
    /// file exists already, nor without a base URL.
    pub fn sitemap_file(
        &self,
        present: bool,
        settings: &Settings,
        pages: &Vec<(String, String)>,
    ) -> (out: Option<Vec<UrlEntry>>)
        ensures
            match out {
                Some(entries) => {
                    &&& !present
                    &&& settings.meta.base_url matches Some(base) && base@.len() > 0
                        && locations_of(entries@) == kept_locations(
                        parsed_locations(base@, pages@),
                    )
                    &&& all_weekly(entries@)
                },
                None => present || (settings.meta.base_url matches Some(base) ==> base@.len()
                    == 0),
            },
    {
        if present {
            None
        } else {
            match generate_sitemap_entries(settings, pages) {
                Ok(entries) => Some(entries),
                Err(_) => None,
            }
        }
    }
}

} // verus!
