use vstd::prelude::*;
use vstd::string::*;
use crate::text::{
    chars_of, contains, contains_text, join_chars, joined, push_chars, same_chars, same_text,
    seqs_of, split_chars, split_on, string_of, strip_prefix_chars, strip_suffix_chars,
    without_prefix, without_suffix,
};

verus! {

pub const PAGES_DIR: &'static str = "pages";

pub const PUBLIC_DIR: &'static str = "public";

pub const THEME_DIR: &'static str = "theme";

pub const OUTPUT_DIR: &'static str = "_site";

/// The slug that `slugify::slugify` makes of `text` with no stop words, the
/// hyphen as separator and no length limit.
pub uninterp spec fn slug_text(text: Seq<char>) -> Seq<char>;

/// Calls `slugify::slugify` as its macro does for one argument: no stop
/// words, `-` as separator, no maximal length. The contract names the slug
/// ([`slug_text`]) and claims one thing of it: a slug is its own slug. The
/// function emits runs of `a`-`z` and `0`-`9` joined by single hyphens, none
/// at either end, and maps such text to itself.
#[verifier::external_body]
fn slugify_text(text: &str) -> (slug: String)
    ensures
        slug@ == slug_text(text@),
        slug_text(slug@) == slug@,
{
    slugify::slugify(text, "", "-", None)
}

/// The slug of a URL-path segment.
pub fn slugify(segment: &str) -> (slug: String)
    ensures
        slug@ == slug_text(segment@),
        slug_text(slug@) == slug@,
{
    slugify_text(segment)
}

/// A segment of a path that is kept as it stands: an empty one, and one
/// that names an index.
pub open spec fn is_reserved(segment: Seq<char>) -> bool {
    segment.len() == 0 || contains_text(segment, "index"@)
}

/// The segment as it appears in an output path: reserved segments as they
/// stand, every other as its slug.
pub open spec fn output_segment(segment: Seq<char>) -> Seq<char> {
    if is_reserved(segment) {
        segment
    } else {
        slug_text(segment)
    }
}

/// One segment of an output path. Reserved segments are never slugified, and
/// what comes out stays as it is when it goes in again.
pub fn slugify_segment(segment: &str) -> (out: String)
    ensures
        out@ == output_segment(segment@),
        is_reserved(segment@) ==> out@ == segment@,
        output_segment(out@) == out@,
{
    if segment.is_empty() || contains(segment, "index") {
        segment.to_owned()
    } else {
        slugify_text(segment)
    }
}

/// Each segment of `parts` as it appears in an output path.
pub open spec fn output_segments(parts: Seq<Seq<char>>) -> Seq<Seq<char>> {
    Seq::new(parts.len(), |i: int| output_segment(parts[i]))
}

/// The name of the file that is the index page of its directory.
pub open spec fn index_source() -> Seq<char> {
    "page.md"@
}

/// The segments of a source file's path below the pages directory: the
/// path without the pages directory at its beginning, split at `/`.
pub open spec fn source_parts(file: Seq<char>, pages_dir: Seq<char>) -> Seq<Seq<char>> {
    split_on(without_prefix(file, pages_dir), '/')
}

/// Whether the source file is the index page of its directory: its name is
/// literally that of an index source.
pub open spec fn is_index_page(file: Seq<char>, pages_dir: Seq<char>) -> bool {
    source_parts(file, pages_dir).last() == index_source()
}

/// The segments of a page's address: every directory on the way as it
/// appears in an output path and, for a page that is no index page, the
/// file's name without its markdown extension, likewise.
pub open spec fn page_segments(file: Seq<char>, pages_dir: Seq<char>) -> Seq<Seq<char>> {
    let parts = source_parts(file, pages_dir);
    let dirs = output_segments(parts.drop_last());
    if is_index_page(file, pages_dir) {
        dirs
    } else {
        dirs.push(output_segment(without_suffix(parts.last(), ".md"@)))
    }
}

/// The URL path under which a page is listed: the segments of its address
/// joined by `/`, with a `/` at the end for an index page.
pub open spec fn listed_url_path(file: Seq<char>, pages_dir: Seq<char>) -> Seq<char> {
    if is_index_page(file, pages_dir) {
        joined(page_segments(file, pages_dir).push(Seq::empty()), "/"@)
    } else {
        joined(page_segments(file, pages_dir), "/"@)
    }
}

/// The URL path under which a page is served: the segments of its address
/// joined by `/`, with a `/` at the end.
pub open spec fn served_url_path(file: Seq<char>, pages_dir: Seq<char>) -> Seq<char> {
    joined(page_segments(file, pages_dir).push(Seq::empty()), "/"@)
}

/// The output file of a page: an `index.html` in the directory of the
/// page's address, below the output directory.
pub open spec fn output_file(file: Seq<char>, pages_dir: Seq<char>, output_dir: Seq<char>) -> Seq<
    char,
> {
    output_dir + joined(page_segments(file, pages_dir).push("index.html"@), "/"@)
}

/// The segments of the address of the page of source file `file`, and
/// whether it is an index page. Every segment is as it appears in an output
/// path, so that it stays as it is when it goes through
/// [`output_segment`] again.
pub fn address_of(file: &str, pages_dir: &str) -> (out: (Vec<Vec<char>>, bool))
    ensures
        seqs_of(out.0@) == page_segments(file@, pages_dir@),
        out.1 == is_index_page(file@, pages_dir@),
        output_segments(page_segments(file@, pages_dir@)) == page_segments(file@, pages_dir@),
{
    let local = strip_prefix_chars(&chars_of(file), &chars_of(pages_dir));
    let mut parts = split_chars(&local, '/');
    let ghost all = seqs_of(parts@);
    let last = parts.pop().unwrap();
    assert(seqs_of(parts@) == all.drop_last());
    assert(last@ == all.last());
    let mut segments: Vec<Vec<char>> = Vec::new();
    let mut i: usize = 0;
    while i < parts.len()
        invariant
            i <= parts.len(),
            seqs_of(segments@) == output_segments(seqs_of(parts@)).take(i as int),
            output_segments(seqs_of(segments@)) == seqs_of(segments@),
        decreases parts.len() - i,
    {
        let segment = string_of(&parts[i]);
        let kept = chars_of(slugify_segment(segment.as_str()).as_str());
        let ghost before = segments@;
        segments.push(kept);
        assert(seqs_of(segments@) == seqs_of(before).push(kept@));
        assert(output_segments(seqs_of(segments@)) =~= seqs_of(segments@));
        i += 1;
    }
    assert(output_segments(seqs_of(parts@)).take(parts.len() as int) == output_segments(
        seqs_of(parts@),
    ));
    let index = same_chars(&last, &chars_of("page.md"));
    if !index {
        let stem = string_of(&strip_suffix_chars(&last, &chars_of(".md")));
        let kept = chars_of(slugify_segment(stem.as_str()).as_str());
        let ghost before = segments@;
        segments.push(kept);
        assert(seqs_of(segments@) == seqs_of(before).push(kept@));
        assert(output_segments(seqs_of(segments@)) =~= seqs_of(segments@));
    }
    (segments, index)
}

/// The segments joined by `/`, with `last` as one more segment at the end.
fn join_with_last(segments: &Vec<Vec<char>>, last: &str) -> (out: Vec<char>)
    ensures
        out@ == joined(seqs_of(segments@).push(last@), "/"@),
{
    let mut all: Vec<Vec<char>> = Vec::new();
    let mut i: usize = 0;
    while i < segments.len()
        invariant
            i <= segments.len(),
            seqs_of(all@) == seqs_of(segments@).take(i as int),
        decreases segments.len() - i,
    {
        let segment = segments[i].clone();
        assert(segment@ == segments@[i as int]@);
        let ghost before = all@;
        all.push(segment);
        assert(seqs_of(all@) == seqs_of(before).push(segment@));
        i += 1;
    }
    assert(seqs_of(segments@).take(segments.len() as int) == seqs_of(segments@));
    let end = chars_of(last);
    let ghost before = all@;
    all.push(end);
    assert(seqs_of(all@) == seqs_of(before).push(end@));
    join_chars(&all, &chars_of("/"))
}

/// The URL path under which the page of source file `file` is listed.
pub fn page_url_path(file: &str, pages_dir: &str) -> (out: String)
    ensures
        out@ == listed_url_path(file@, pages_dir@),
{
    let (segments, index) = address_of(file, pages_dir);
    if index {
        proof {
            reveal_strlit("");
        }
        assert(""@ =~= Seq::<char>::empty());
        string_of(&join_with_last(&segments, ""))
    } else {
        string_of(&join_chars(&segments, &chars_of("/")))
    }
}

/// The URL path under which the page of source file `file` is served.
pub fn actual_url_path(file: &str, pages_dir: &str) -> (out: String)
    ensures
        out@ == served_url_path(file@, pages_dir@),
{
    let (segments, _) = address_of(file, pages_dir);
    proof {
        reveal_strlit("");
    }
    assert(""@ =~= Seq::<char>::empty());
    string_of(&join_with_last(&segments, ""))
}

/// A page takes part in the site tree and the sitemap unless it is the root
/// page and carries no metadata.
pub open spec fn listed(url_path: Seq<char>, metadata: Seq<char>) -> bool {
    url_path != "/"@ || metadata.len() > 0
}

/// Whether a page takes part in the site tree and the sitemap.
pub fn is_listed(url_path: &str, metadata: &str) -> (out: bool)
    ensures
        out == listed(url_path@, metadata@),
{
    !same_text(url_path, "/") || !metadata.is_empty()
}

/// The output file of the page of source file `file`. Every segment of the
/// page's address stays as it is when it goes through [`output_segment`]
/// again.
pub fn output_html_path(file: &str, pages_dir: &str, output_dir: &str) -> (out: String)
    ensures
        out@ == output_file(file@, pages_dir@, output_dir@),
        output_segments(page_segments(file@, pages_dir@)) == page_segments(file@, pages_dir@),
{
    let (segments, _) = address_of(file, pages_dir);
    let mut out = chars_of(output_dir);
    push_chars(&mut out, &join_with_last(&segments, "index.html"));
    string_of(&out)
}

/// The output file of a page's AMP variant: an `index.html` in an `amp`
/// directory beside the page's own `index.html`.
pub open spec fn amp_file(html_file: Seq<char>) -> Seq<char> {
    without_suffix(html_file, "index.html"@) + "amp/index.html"@
}

/// The output file of the AMP variant of the page at `html_file`.
pub fn amp_html_path(html_file: &str) -> (out: String)
    ensures
        out@ == amp_file(html_file@),
{
    let mut out = strip_suffix_chars(&chars_of(html_file), &chars_of("index.html"));
    push_chars(&mut out, &chars_of("amp/index.html"));
    string_of(&out)
}

} // verus!
