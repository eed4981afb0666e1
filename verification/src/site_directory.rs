use vstd::prelude::*;
use vstd::string::*;
use crate::data::{
    entries_of, find_key, lemma_found, lemma_lookup_absent, lemma_missing, lemma_view, lookup,
    upsert, Data, Node,
};
use crate::text::{chars_of, same_chars, seqs_of, split_chars, split_on, string_of};
use crate::yaml::{parse_string_to_yaml, yaml_document};

verus! {

/// The key under which a directory holds its own page.
pub open spec fn self_key() -> Seq<char> {
    "_self"@
}

/// The segments that are not empty, in order.
pub open spec fn non_empty(parts: Seq<Seq<char>>) -> Seq<Seq<char>>
    decreases parts.len(),
{
    if parts.len() == 0 {
        Seq::empty()
    } else if parts.last().len() == 0 {
        non_empty(parts.drop_last())
    } else {
        non_empty(parts.drop_last()).push(parts.last())
    }
}

/// The directories that lead to a page: the segments of its URL path before
/// the last `/`, empty ones left out.
pub open spec fn page_dirs(url_path: Seq<char>) -> Seq<Seq<char>> {
    non_empty(split_on(url_path, '/').drop_last())
}

/// The key of a page in its directory: what follows the last `/` of its URL
/// path, or the directory's own key where nothing follows.
pub open spec fn page_leaf(url_path: Seq<char>) -> Seq<char> {
    let last = split_on(url_path, '/').last();
    if last.len() == 0 {
        self_key()
    } else {
        last
    }
}

/// The entries of a directory that can be walked into: nothing yet where the
/// key is free, the entries of the mapping that stands there, none where
/// anything else stands there.
pub open spec fn subdirectory(found: Option<Node>) -> Option<Seq<(Node, Node)>> {
    match found {
        None => Some(Seq::empty()),
        Some(Node::Mapping(entries)) => Some(entries),
        Some(_) => None,
    }
}

/// The entries of a directory after `value` was stored at the end of the
/// path `path`, which leads through directories that are created where they
/// are missing; none where the way leads through something that is no
/// mapping, and none for the empty path.
pub open spec fn stored(entries: Seq<(Node, Node)>, path: Seq<Node>, value: Node) -> Option<
    Seq<(Node, Node)>,
>
    decreases path.len(),
{
    if path.len() == 0 {
        None
    } else if path.len() == 1 {
        Some(upsert(entries, path[0], value))
    } else {
        match subdirectory(lookup(entries, path[0])) {
            Some(inner) => match stored(inner, path.skip(1), value) {
                Some(grown) => Some(upsert(entries, path[0], Node::Mapping(grown))),
                None => None,
            },
            None => None,
        }
    }
}

/// The segments as keys of the tree.
pub open spec fn text_keys(segments: Seq<Seq<char>>) -> Seq<Node> {
    Seq::new(segments.len(), |i: int| Node::Text(segments[i]))
}

/// The place of a page in the tree: its directories, then its key.
pub open spec fn page_path(url_path: Seq<char>) -> Seq<Node> {
    text_keys(page_dirs(url_path)).push(Node::Text(page_leaf(url_path)))
}

/// The entries of the root after the pages went in, one after another; none
/// as soon as one of them could not. This is the tree of the site where no
/// page's place is in the way of another's ([`free_of_collisions`]): then
/// every page finds its place and none is stored inside another.
pub open spec fn site_tree(pages: Seq<(Seq<char>, Node)>) -> Option<Seq<(Node, Node)>>
    decreases pages.len(),
{
    if pages.len() == 0 {
        Some(Seq::empty())
    } else {
        match site_tree(pages.drop_last()) {
            Some(entries) => stored(entries, page_path(pages.last().0), pages.last().1),
            None => None,
        }
    }
}

/// The place `p` is in the way of the place `q`: `q` lies behind `p`, so
/// that what stands at `p` would have to be a page and a directory at once.
pub open spec fn in_the_way(p: Seq<Node>, q: Seq<Node>) -> bool {
    p.len() < q.len() && q.take(p.len() as int) == p
}

/// The place of each page in the tree.
pub open spec fn places(pages: Seq<(Seq<char>, Node)>) -> Seq<Seq<Node>> {
    Seq::new(pages.len(), |i: int| page_path(pages[i].0))
}

/// The place of page `i` is in the way of the place of page `j`.
pub open spec fn collides_at(places: Seq<Seq<Node>>, i: int, j: int) -> bool {
    0 <= i < places.len() && 0 <= j < places.len() && in_the_way(places[i], places[j])
}

/// No page's place is in the way of another's.
pub open spec fn free_of_collisions(places: Seq<Seq<Node>>) -> bool {
    forall|i: int, j: int| !#[trigger] collides_at(places, i, j)
}

/// Pages `i` and `j` are the first that collide: no page before `i` is in
/// any page's way, and page `i` is in the way of no page before `j`.
pub open spec fn is_first_collision(places: Seq<Seq<Node>>, i: int, j: int) -> bool {
    &&& collides_at(places, i, j)
    &&& forall|a: int, b: int| a < i || (a == i && b < j) ==> !#[trigger] collides_at(places, a, b)
}

/// Why the site tree could not be built.
#[derive(Debug, Clone, PartialEq, Eq)]
pub enum SiteTreeError {
    /// The URL path `page` is a page and, on the way to the page at `under`,
    /// a directory as well.
    Collision { page: String, under: String },
}

/// The message of a collision.
pub open spec fn collision_message(page: Seq<char>, under: Seq<char>) -> Seq<char> {
    "Failed to build site directory: "@ + page + " is a page and a directory on the way to "@
        + under
}

impl SiteTreeError {
    /// The message shown to the user: it names both pages.
    pub fn message(&self) -> (out: String)
        ensures
            self matches SiteTreeError::Collision { page, under } && out@ == collision_message(
                page@,
                under@,
            ),
    {
        match self {
            SiteTreeError::Collision { page, under } => {
                let mut out = "Failed to build site directory: ".to_owned();
                out.append(page.as_str());
                out.append(" is a page and a directory on the way to ");
                out.append(under.as_str());
                out
            },
        }
    }
}

/// The directories and the key of the page at `url_path`.
pub fn tree_path(url_path: &str) -> (out: (Vec<Vec<char>>, Vec<char>))
    ensures
        seqs_of(out.0@) == page_dirs(url_path@),
        out.1@ == page_leaf(url_path@),
{
    let mut parts = split_chars(&chars_of(url_path), '/');
    let ghost all = seqs_of(parts@);
    let last = parts.pop().unwrap();
    assert(seqs_of(parts@) == all.drop_last());
    assert(last@ == all.last());
    let leaf = if last.len() == 0 {
        chars_of("_self")
    } else {
        last
    };
    let mut dirs: Vec<Vec<char>> = Vec::new();
    let mut i: usize = 0;
    while i < parts.len()
        invariant
            i <= parts.len(),
            seqs_of(dirs@) == non_empty(seqs_of(parts@).take(i as int)),
        decreases parts.len() - i,
    {
        proof {
            let next = seqs_of(parts@).take(i + 1);
            assert(next.drop_last() == seqs_of(parts@).take(i as int));
            assert(next.last() == parts@[i as int]@);
        }
        if parts[i].len() != 0 {
            let ghost before = dirs@;
            let segment = parts[i].clone();
            assert(segment@ == parts@[i as int]@);
            dirs.push(segment);
            assert(seqs_of(dirs@) == seqs_of(before).push(segment@));
        }
        i += 1;
    }
    assert(seqs_of(parts@).take(parts.len() as int) == seqs_of(parts@));
    (dirs, leaf)
}

/// Stores `value` under `leaf` behind the directories `dirs[from..]`.
fn insert_at(
    entries: Vec<(Data, Data)>,
    dirs: &Vec<Vec<char>>,
    from: usize,
    leaf: &Vec<char>,
    value: Data,
) -> (out: Option<Vec<(Data, Data)>>)
    requires
        from <= dirs.len(),
    ensures
        match out {
            Some(grown) => stored(
                entries_of(entries@),
                text_keys(seqs_of(dirs@)).push(Node::Text(leaf@)).skip(from as int),
                value@,
            ) == Some(entries_of(grown@)),
            None => stored(
                entries_of(entries@),
                text_keys(seqs_of(dirs@)).push(Node::Text(leaf@)).skip(from as int),
                value@,
            ) is None,
        },
    decreases dirs.len() - from,
{
    let ghost start = entries_of(entries@);
    let ghost whole = text_keys(seqs_of(dirs@)).push(Node::Text(leaf@));
    let ghost rest = whole.skip(from as int);
    let mut entries = entries;
    if from == dirs.len() {
        let key = Data::Text(string_of(leaf));
        assert(rest.len() == 1 && rest[0] == key@);
        match find_key(&entries, &key) {
            Some(at) => {
                proof {
                    lemma_found(start, key@, at as int, value@);
                }
                let (own_key, _) = entries.remove(at);
                entries.insert(at, (own_key, value));
                assert(entries_of(entries@) =~= start.update(at as int, (key@, value@)));
            },
            None => {
                proof {
                    lemma_missing(start, key@, value@);
                }
                entries.push((key, value));
                assert(entries_of(entries@) =~= start.push((key@, value@)));
            },
        }
        Some(entries)
    } else {
        let key = Data::Text(string_of(&dirs[from]));
        proof {
            assert(rest.len() > 1 && rest[0] == key@);
            assert(rest.skip(1) == whole.skip(from + 1));
        }
        match find_key(&entries, &key) {
            Some(at) => {
                proof {
                    lemma_found(start, key@, at as int, Node::Null);
                }
                let (own_key, own_value) = entries.remove(at);
                proof {
                    lemma_view(own_value);
                }
                match own_value {
                    Data::Mapping(inner) => {
                        match insert_at(inner, dirs, from + 1, leaf, value) {
                            Some(grown) => {
                                let ghost grown_entries = entries_of(grown@);
                                let child = Data::Mapping(grown);
                                proof {
                                    lemma_view(child);
                                    lemma_found(start, key@, at as int, child@);
                                }
                                entries.insert(at, (own_key, child));
                                assert(entries_of(entries@) =~= start.update(
                                    at as int,
                                    (key@, child@),
                                ));
                                Some(entries)
                            },
                            None => None,
                        }
                    },
                    _ => None,
                }
            },
            None => {
                proof {
                    lemma_lookup_absent(start, key@);
                }
                let fresh: Vec<(Data, Data)> = Vec::new();
                assert(entries_of(fresh@) =~= Seq::empty());
                match insert_at(fresh, dirs, from + 1, leaf, value) {
                    Some(grown) => {
                        let child = Data::Mapping(grown);
                        proof {
                            lemma_view(child);
                            lemma_missing(start, key@, child@);
                        }
                        entries.push((key, child));
                        assert(entries_of(entries@) =~= start.push((key@, child@)));
                        Some(entries)
                    },
                    None => None,
                }
            },
        }
    }
}

/// Stores a page's metadata in the tree, at the page's place.
fn insert_page(entries: Vec<(Data, Data)>, url_path: &str, metadata: Data) -> (out: Option<
    Vec<(Data, Data)>,
>)
    ensures
        match out {
            Some(grown) => stored(entries_of(entries@), page_path(url_path@), metadata@) == Some(
                entries_of(grown@),
            ),
            None => stored(entries_of(entries@), page_path(url_path@), metadata@) is None,
        },
{
    let (dirs, leaf) = tree_path(url_path);
    assert(page_path(url_path@).skip(0) == page_path(url_path@));
    insert_at(entries, &dirs, 0, &leaf, metadata)
}

/// The place of each of the paths.
pub open spec fn keys_of(paths: Seq<Vec<Vec<char>>>) -> Seq<Seq<Node>> {
    Seq::new(paths.len(), |i: int| text_keys(seqs_of(paths[i]@)))
}

/// Whether the place `p` is in the way of the place `q`.
fn is_in_the_way(p: &Vec<Vec<char>>, q: &Vec<Vec<char>>) -> (out: bool)
    ensures
        out == in_the_way(text_keys(seqs_of(p@)), text_keys(seqs_of(q@))),
{
    let ghost one = text_keys(seqs_of(p@));
    let ghost other = text_keys(seqs_of(q@));
    if p.len() >= q.len() {
        return false;
    }
    let mut k: usize = 0;
    while k < p.len()
        invariant
            k <= p.len(),
            p.len() < q.len(),
            one == text_keys(seqs_of(p@)),
            other == text_keys(seqs_of(q@)),
            forall|m: int| 0 <= m < k ==> one[m] == other[m],
        decreases p.len() - k,
    {
        if !same_chars(&p[k], &q[k]) {
            assert(other.take(p.len() as int)[k as int] != one[k as int]);
            return false;
        }
        k += 1;
    }
    assert(other.take(p.len() as int) =~= one);
    true
}

/// The first two pages that collide, if any do.
fn find_collision(paths: &Vec<Vec<Vec<char>>>) -> (out: Option<(usize, usize)>)
    ensures
        match out {
            Some((i, j)) => is_first_collision(keys_of(paths@), i as int, j as int),
            None => free_of_collisions(keys_of(paths@)),
        },
{
    let n: usize = paths.len();
    let mut i: usize = 0;
    while i < n
        invariant
            i <= n,
            n == paths.len(),
            forall|a: int, b: int| a < i ==> !#[trigger] collides_at(keys_of(paths@), a, b),
        decreases n - i,
    {
        let mut j: usize = 0;
        while j < n
            invariant
                j <= n,
                i < n,
                n == paths.len(),
                forall|a: int, b: int| a < i ==> !#[trigger] collides_at(keys_of(paths@), a, b),
                forall|b: int| b < j ==> !#[trigger] collides_at(keys_of(paths@), i as int, b),
            decreases n - j,
        {
            if is_in_the_way(&paths[i], &paths[j]) {
                return Some((i, j));
            }
            j += 1;
        }
        i += 1;
    }
    None
}

/// The URL path and the metadata of each page.
pub open spec fn pages_of(pages: Seq<(String, Data)>) -> Seq<(Seq<char>, Node)> {
    Seq::new(pages.len(), |i: int| (pages[i].0@, pages[i].1@))
}

/// The tree was built, or the first two pages that collide are named.
pub open spec fn tree_outcome(pages: Seq<(Seq<char>, Node)>, out: Result<Data, SiteTreeError>) -> bool {
    match out {
        Ok(tree) => {
            &&& free_of_collisions(places(pages))
            &&& site_tree(pages) matches Some(entries) && tree@ == Node::Mapping(entries)
        },
        Err(SiteTreeError::Collision { page, under }) => exists|i: int, j: int|
            is_first_collision(places(pages), i, j) && page@ == pages[i].0 && under@
                == pages[j].0,
    }
}

/// The tree of the site: a mapping that holds each page's metadata behind
/// the segments of its URL path, a page at the same path as an earlier one
/// in its place. Where the place of one page is in the way of another's,
/// in whichever order they come, no tree is built and the two are named.
pub fn build_site_tree(pages: &Vec<(String, Data)>) -> (out: Result<Data, SiteTreeError>)
    ensures
        tree_outcome(pages_of(pages@), out),
{
    let ghost all = pages_of(pages@);
    let mut paths: Vec<Vec<Vec<char>>> = Vec::new();
    let mut i: usize = 0;
    while i < pages.len()
        invariant
            i <= pages.len(),
            all == pages_of(pages@),
            keys_of(paths@) == places(all).take(i as int),
        decreases pages.len() - i,
    {
        let (dirs, leaf) = tree_path(pages[i].0.as_str());
        let mut path = dirs;
        path.push(leaf);
        assert(text_keys(seqs_of(path@)) =~= page_path(pages@[i as int].0@));
        let ghost before = paths@;
        paths.push(path);
        assert(keys_of(paths@) =~= keys_of(before).push(text_keys(seqs_of(path@))));
        i += 1;
    }
    assert(places(all).take(pages.len() as int) == places(all));
    match find_collision(&paths) {
        Some((first, second)) => {
            return Err(
                SiteTreeError::Collision {
                    page: pages[first].0.clone(),
                    under: pages[second].0.clone(),
                },
            );
        },
        None => {},
    }
    proof {
        crate::site_order::lemma_site_tree_succeeds(all, all.len() as int);
        assert(all.take(all.len() as int) == all);
    }
    let mut entries: Vec<(Data, Data)> = Vec::new();
    let mut i: usize = 0;
    assert(all.take(0) == Seq::<(Seq<char>, Node)>::empty());
    assert(entries_of(entries@) =~= Seq::empty());
    while i < pages.len()
        invariant
            i <= pages.len(),
            all == pages_of(pages@),
            site_tree(all) is Some,
            site_tree(all.take(i as int)) == Some(entries_of(entries@)),
        decreases pages.len() - i,
    {
        proof {
            let next = all.take(i + 1);
            assert(next.drop_last() == all.take(i as int));
            assert(next.last() == (pages@[i as int].0@, pages@[i as int].1@));
        }
        match insert_page(entries, pages[i].0.as_str(), pages[i].1.deep_clone()) {
            Some(grown) => {
                entries = grown;
            },
            None => {
                proof {
                    lemma_site_tree_fails_on(all, i + 1);
                }
                return vstd::pervasive::unreached();
            },
        }
        i += 1;
    }
    assert(all.take(pages.len() as int) == all);
    let tree = Data::Mapping(entries);
    proof {
        lemma_view(tree);
    }
    Ok(tree)
}

/// Once a page could not go in, the tree is never built.
pub proof fn lemma_site_tree_fails_on(pages: Seq<(Seq<char>, Node)>, n: int)
    requires
        0 <= n <= pages.len(),
        site_tree(pages.take(n)) is None,
    ensures
        site_tree(pages) is None,
    decreases pages.len() - n,
{
    if n < pages.len() {
        assert(pages.take(n + 1).drop_last() == pages.take(n));
        lemma_site_tree_fails_on(pages, n + 1);
    } else {
        assert(pages.take(n) == pages);
    }
}

/// What the parser read, or null where it read nothing.
pub open spec fn parsed_or_null(document: Option<Node>) -> Node {
    match document {
        Some(node) => node,
        None => Node::Null,
    }
}

/// Each page with its metadata as the YAML parser reads it, null where it is
/// no YAML document.
pub open spec fn parsed_pages(url_paths: Seq<(String, String)>) -> Seq<(Seq<char>, Node)> {
    Seq::new(
        url_paths.len(),
        |i: int| (url_paths[i].0@, parsed_or_null(yaml_document(url_paths[i].1@))),
    )
}

/// The tree of the site, from each page's URL path and raw metadata.
pub fn generate_site_directory(url_paths: &Vec<(String, String)>) -> (out: Result<
    Data,
    SiteTreeError,
>)
    ensures
        tree_outcome(parsed_pages(url_paths@), out),
{
    let mut pages: Vec<(String, Data)> = Vec::new();
    let mut i: usize = 0;
    while i < url_paths.len()
        invariant
            i <= url_paths.len(),
            pages_of(pages@) == parsed_pages(url_paths@).take(i as int),
        decreases url_paths.len() - i,
    {
        let metadata = match parse_string_to_yaml(url_paths[i].1.as_str()) {
            Ok(value) => value,
            Err(_) => Data::Null,
        };
        let ghost before = pages@;
        let url_path = url_paths[i].0.clone();
        pages.push((url_path, metadata));
        assert(pages_of(pages@) == pages_of(before).push((url_path@, metadata@)));
        i += 1;
    }
    assert(parsed_pages(url_paths@).take(url_paths.len() as int) == parsed_pages(url_paths@));
    build_site_tree(&pages)
}

} // verus!
