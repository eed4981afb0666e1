use vstd::prelude::*;
use vstd::string::*;
use crate::text::opt_text;
use crate::text::{
    chars_of, find_chars, is_first_match, matches_at, matches_at_chars, slice_chars, string_of,
};

verus! {

/// The line of three hyphens that opens and closes a front-matter block.
pub open spec fn delimiter() -> Seq<char> {
    seq!['-', '-', '-']
}

/// `text` opens with the delimiter and the delimiter closes the block at
/// position `close`: its first occurrence behind the opening one.
pub open spec fn closes_at(text: Seq<char>, close: int) -> bool {
    matches_at(text, delimiter(), 0) && is_first_match(text, delimiter(), 3, close)
}

/// `text` begins with a front-matter block.
pub open spec fn has_front_matter(text: Seq<char>) -> bool {
    exists|close: int| closes_at(text, close)
}

/// The two parts of a page's source: the raw metadata and the markdown body.
pub struct PageSource {
    /// The text strictly between the two delimiters, where the source begins
    /// with a front-matter block.
    pub metadata: Option<String>,
    /// What follows the closing delimiter; the whole source where there is no
    /// block.
    pub markdown: String,
}

impl PageSource {
    /// This is the split of `text` whose block closes at `close`.
    pub open spec fn splits_at(self, text: Seq<char>, close: int) -> bool {
        &&& closes_at(text, close)
        &&& self.metadata matches Some(metadata) && metadata@ == text.subrange(3, close)
        &&& self.markdown@ == text.skip(close + 3)
    }

    /// This is the split of `text`: at the closing delimiter where `text`
    /// begins with a block, else no metadata and the whole text as body.
    pub open spec fn is_split_of(self, text: Seq<char>) -> bool {
        if has_front_matter(text) {
            exists|close: int| self.splits_at(text, close)
        } else {
            self.metadata is None && self.markdown@ == text
        }
    }
}

/// Where the front-matter block of `text` closes.
pub open spec fn closing(text: Seq<char>) -> int {
    choose|close: int| closes_at(text, close)
}

/// The raw metadata of a page: the text strictly between the opening
/// delimiter and the first delimiter behind it; none where `text` does not
/// begin with a block.
pub open spec fn metadata_of(text: Seq<char>) -> Option<Seq<char>> {
    if has_front_matter(text) {
        Some(text.subrange(3, closing(text)))
    } else {
        None
    }
}

/// The markdown body of a page: what follows the closing delimiter; the
/// whole text where it does not begin with a block.
pub open spec fn markdown_of(text: Seq<char>) -> Seq<char> {
    if has_front_matter(text) {
        text.skip(closing(text) + 3)
    } else {
        text
    }
}

/// A text has one closing delimiter at most.
pub proof fn lemma_closing_unique(text: Seq<char>, i: int, j: int)
    requires
        closes_at(text, i),
        closes_at(text, j),
    ensures
        i == j,
{
    if i < j {
        assert(!matches_at(text, delimiter(), i));
    } else if j < i {
        assert(!matches_at(text, delimiter(), j));
    }
}

/// Splits a page's source into its front-matter block and its body.
pub fn split_front_matter(text: &str) -> (out: PageSource)
    ensures
        out.is_split_of(text@),
        opt_text(out.metadata) == metadata_of(text@),
        out.markdown@ == markdown_of(text@),
{
    let chars = chars_of(text);
    let mut mark: Vec<char> = Vec::new();
    mark.push('-');
    mark.push('-');
    mark.push('-');
    assert(mark@ == delimiter());
    if matches_at_chars(&chars, &mark, 0) {
        match find_chars(&chars, &mark, 3) {
            Some(close) => {
                assert(delimiter().len() == 3);
                assert(matches_at(chars@, delimiter(), close as int));
                assert(close + 3 <= chars.len());
                let metadata = slice_chars(&chars, 3, close);
                let body = slice_chars(&chars, close + 3, chars.len());
                let out = PageSource {
                    metadata: Some(string_of(&metadata)),
                    markdown: string_of(&body),
                };
                assert(out.splits_at(text@, close as int));
                proof {
                    lemma_closing_unique(text@, close as int, closing(text@));
                }
                out
            },
            None => {
                assert(!has_front_matter(text@));
                PageSource { metadata: None, markdown: text.to_owned() }
            },
        }
    } else {
        assert(!has_front_matter(text@));
        PageSource { metadata: None, markdown: text.to_owned() }
    }
}

/// The closing delimiter is where it is: two splits of one text agree.
pub proof fn lemma_split_unique(text: Seq<char>, a: PageSource, b: PageSource)
    requires
        a.is_split_of(text),
        b.is_split_of(text),
    ensures
        a.metadata is Some <==> b.metadata is Some,
        a.metadata is Some ==> a.metadata->0@ == b.metadata->0@,
        a.markdown@ == b.markdown@,
{
    if has_front_matter(text) {
        let i = choose|close: int| a.splits_at(text, close);
        let j = choose|close: int| b.splits_at(text, close);
        if i < j {
            assert(!matches_at(text, delimiter(), i));
        } else if j < i {
            assert(!matches_at(text, delimiter(), j));
        }
    }
}

/// The metadata block alone, without rendering the body.
pub fn get_metadata(text: &str) -> (out: Option<String>)
    ensures
        opt_text(out) == metadata_of(text@),
        match out {
            Some(metadata) => exists|close: int|
                closes_at(text@, close) && metadata@ == text@.subrange(3, close),
            None => !has_front_matter(text@),
        },
{
    split_front_matter(text).metadata
}

/// The HTML that `pulldown_cmark` renders for `markdown` as CommonMark with
/// every extension switched on.
pub uninterp spec fn markdown_html(markdown: Seq<char>) -> Seq<char>;

/// Runs `pulldown_cmark::Parser::new_ext` with `Options::all()` over the text
/// and collects what `pulldown_cmark::html::push_html` writes. The contract
/// names that HTML ([`markdown_html`]) and claims nothing else of it.
#[verifier::external_body]
fn markdown_to_html(markdown: &str) -> (html: String)
    ensures
        html@ == markdown_html(markdown@),
{
    let parser = pulldown_cmark::Parser::new_ext(markdown, pulldown_cmark::Options::all());
    let mut html = String::new();
    pulldown_cmark::html::push_html(&mut html, parser);
    html
}

/// A page's raw metadata and its body rendered to HTML. A source without a
/// front-matter block is rendered whole, exactly as it stands.
pub fn get_markdown_and_metadata(text: &str) -> (out: (Option<String>, String))
    ensures
        opt_text(out.0) == metadata_of(text@),
        out.1@ == markdown_html(markdown_of(text@)),
        !has_front_matter(text@) ==> out.0 is None && out.1@ == markdown_html(text@),
{
    let source = split_front_matter(text);
    let html = markdown_to_html(source.markdown.as_str());
    (source.metadata, html)
}

} // verus!
