use vstd::prelude::*;
use vstd::string::*;
use crate::settings::Link;
use crate::text::opt_text;

verus! {

/// What a page says of itself in the plain article layout.
#[derive(Debug, Clone)]
pub struct PageMetadata {
    pub title: String,
    pub author: Option<String>,
    pub author_url: Option<String>,
    pub published: Option<String>,
    pub footnote: Option<String>,
}

/// One navigation link as a list item.
pub open spec fn link_item(link: Link) -> Seq<char> {
    "<li><a href=\""@ + link.url@ + "\">"@ + link.label@ + "</a></li>"@
}

/// The list items of the first `n` links, one after another.
pub open spec fn link_items(links: Seq<Link>, n: nat) -> Seq<char>
    decreases n,
{
    if n == 0 || n > links.len() {
        Seq::empty()
    } else {
        link_items(links, (n - 1) as nat) + link_item(links[n - 1])
    }
}

/// The navigation links as list items, in order.
pub fn render_links(links: &Vec<Link>) -> (out: String)
    ensures
        out@ == link_items(links@, links.len() as nat),
{
    let mut out = String::new();
    let mut i: usize = 0;
    while i < links.len()
        invariant
            i <= links.len(),
            out@ == link_items(links@, i as nat),
        decreases links.len() - i,
    {
        let ghost before = out@;
        out.append("<li><a href=\"");
        out.append(links[i].url.as_str());
        out.append("\">");
        out.append(links[i].label.as_str());
        out.append("</a></li>");
        assert(out@ =~= before + link_item(links@[i as int]));
        i += 1;
    }
    out
}

/// The line that names the author, empty without one.
pub open spec fn author_line(author: Option<Seq<char>>) -> Seq<char> {
    match author {
        Some(name) => "// Written by "@ + name,
        None => Seq::empty(),
    }
}

/// The author's line, as a link where the author has a URL.
pub open spec fn author_html(author: Option<Seq<char>>, author_url: Option<Seq<char>>) -> Seq<char> {
    match author_url {
        Some(url) => "<a target=\"_blank\" rel=\"noopener noreferrer\" href=\""@ + url + "\">"@
            + author_line(author) + "</a>"@,
        None => author_line(author),
    }
}

/// The date of publication, empty without one.
pub open spec fn published_html(published: Option<Seq<char>>) -> Seq<char> {
    match published {
        Some(date) => "<time datetime=\""@ + date + "\">// "@ + date + "</time>"@,
        None => Seq::empty(),
    }
}

/// The two small paragraphs under an article's title.
pub open spec fn header_extras(metadata: PageMetadata) -> Seq<char> {
    "<p><small>"@ + author_html(opt_text(metadata.author), opt_text(metadata.author_url))
        + "</small></p>"@ + "<p><small>"@ + published_html(opt_text(metadata.published))
        + "</small></p>"@
}

/// The footnote, empty without one.
pub open spec fn footnote_of(metadata: PageMetadata) -> Seq<char> {
    match metadata.footnote {
        Some(note) => note@,
        None => Seq::empty(),
    }
}

/// A page's body as an article: bare without metadata, else under a header
/// with title, author and date and over a footer with the footnote.
pub open spec fn article(body: Seq<char>, metadata: Option<PageMetadata>) -> Seq<char> {
    match metadata {
        Some(metadata) => "<article>\n            <header>\n              <h2>"@
            + metadata.title@ + "</h2>\n              "@ + header_extras(metadata)
            + "\n            </header>\n    "@ + body + "\n            <footer><small>"@
            + footnote_of(metadata) + "</small></footer>\n    </article>\n    "@,
        None => "<article>\n    "@ + body + "\n    </article>"@,
    }
}

/// The author's line of an article.
fn author_text(metadata: &PageMetadata) -> (out: String)
    ensures
        out@ == author_html(opt_text(metadata.author), opt_text(metadata.author_url)),
{
    let line = match &metadata.author {
        Some(name) => {
            let mut line = "// Written by ".to_owned();
            line.append(name.as_str());
            line
        },
        None => String::new(),
    };
    match &metadata.author_url {
        Some(url) => {
            let mut linked = "<a target=\"_blank\" rel=\"noopener noreferrer\" href=\"".to_owned();
            linked.append(url.as_str());
            linked.append("\">");
            linked.append(line.as_str());
            linked.append("</a>");
            linked
        },
        None => line,
    }
}

/// The date of publication of an article.
fn published_text(metadata: &PageMetadata) -> (out: String)
    ensures
        out@ == published_html(opt_text(metadata.published)),
{
    match &metadata.published {
        Some(date) => {
            let mut out = "<time datetime=\"".to_owned();
            out.append(date.as_str());
            out.append("\">// ");
            out.append(date.as_str());
            out.append("</time>");
            out
        },
        None => String::new(),
    }
}

/// The two small paragraphs under an article's title.
fn header_extras_text(metadata: &PageMetadata) -> (out: String)
    ensures
        out@ == header_extras(*metadata),
{
    let mut out = "<p><small>".to_owned();
    out.append(author_text(metadata).as_str());
    out.append("</small></p>");
    out.append("<p><small>");
    out.append(published_text(metadata).as_str());
    out.append("</small></p>");
    out
}

/// A page's body as an article.
pub fn render_article(body: &str, metadata: Option<PageMetadata>) -> (out: String)
    ensures
        out@ == article(body@, metadata),
{
    match metadata {
        Some(metadata) => {
            let footnote = match &metadata.footnote {
                Some(note) => note.clone(),
                None => String::new(),
            };
            let mut out = "<article>\n            <header>\n              <h2>".to_owned();
            out.append(metadata.title.as_str());
            out.append("</h2>\n              ");
            out.append(header_extras_text(&metadata).as_str());
            out.append("\n            </header>\n    ");
            out.append(body);
            out.append("\n            <footer><small>");
            out.append(footnote.as_str());
            out.append("</small></footer>\n    </article>\n    ");
            out
        },
        None => {
            let mut out = "<article>\n    ".to_owned();
            out.append(body);
            out.append("\n    </article>");
            out
        },
    }
}

} // verus!
