use vstd::prelude::*;
use crate::data::{lemma_lookup_upsert, lookup, well_formed, Node};
use crate::merge_laws::{lemma_upsert_well_formed, lemma_well_formed_lookup};
use crate::site_directory::{
    collides_at, free_of_collisions, page_path, places, site_tree, stored, subdirectory,
};

verus! {

/// What a value holds at the end of a path of keys: the value itself for the
/// empty path, else what the mapping's entry under the first key holds at
/// the rest of the path; none where the way ends early.
pub open spec fn resolve(node: Node, path: Seq<Node>) -> Option<Node>
    decreases path.len(),
{
    if path.len() == 0 {
        Some(node)
    } else {
        match node {
            Node::Mapping(entries) => match lookup(entries, path[0]) {
                Some(child) => resolve(child, path.skip(1)),
                None => None,
            },
            _ => None,
        }
    }
}

/// `path` begins with `prefix`.
pub open spec fn begins_with(path: Seq<Node>, prefix: Seq<Node>) -> bool {
    prefix.len() <= path.len() && path.take(prefix.len() as int) == prefix
}

/// Something is there and it is a mapping.
pub open spec fn holds_mapping(found: Option<Node>) -> bool {
    found matches Some(node) && node is Mapping
}

/// Nothing is there, or a mapping: a directory can stand there.
pub open spec fn walkable(found: Option<Node>) -> bool {
    found is None || holds_mapping(found)
}

/// Two lookups agree: both find nothing, both find a mapping, or both find
/// the same value.
pub open spec fn same_at(a: Option<Node>, b: Option<Node>) -> bool {
    match (a, b) {
        (None, None) => true,
        (Some(x), Some(y)) => (x is Mapping && y is Mapping) || x == y,
        _ => false,
    }
}

/// Two values hold the same content: every path of keys leads to the same
/// thing in both. The order of a mapping's entries plays no part.
pub open spec fn same_content(a: Node, b: Node) -> bool {
    forall|path: Seq<Node>| same_at(#[trigger] resolve(a, path), resolve(b, path))
}

/// Two outcomes of building a tree agree: both failed, or both trees hold
/// the same content.
pub open spec fn same_outcome(a: Option<Seq<(Node, Node)>>, b: Option<Seq<(Node, Node)>>) -> bool {
    match (a, b) {
        (None, None) => true,
        (Some(x), Some(y)) => same_content(Node::Mapping(x), Node::Mapping(y)),
        _ => false,
    }
}

/// Walking into the directory under `key`: where a directory can stand
/// there, a path behind `key` leads to what that directory holds.
proof fn lemma_resolve_enter(entries: Seq<(Node, Node)>, at: Seq<Node>)
    requires
        at.len() > 1,
        subdirectory(lookup(entries, at[0])) is Some,
    ensures
        resolve(Node::Mapping(entries), at) == resolve(
            Node::Mapping(subdirectory(lookup(entries, at[0]))->0),
            at.skip(1),
        ),
{
    let rest = at.skip(1);
    assert(rest.len() > 0);
    if lookup(entries, at[0]) is None {
        assert(lookup(Seq::<(Node, Node)>::empty(), rest[0]) is None);
    }
}

/// What the tree holds after a value was stored at `path`: behind `path`
/// what the value holds, on the way to it mappings, anywhere else what the
/// tree held before.
pub proof fn lemma_resolve_stored(
    entries: Seq<(Node, Node)>,
    path: Seq<Node>,
    value: Node,
    at: Seq<Node>,
)
    requires
        stored(entries, path, value) is Some,
    ensures
        begins_with(at, path) ==> resolve(Node::Mapping(stored(entries, path, value)->0), at)
            == resolve(value, at.skip(path.len() as int)),
        !begins_with(at, path) && begins_with(path, at) ==> holds_mapping(
            resolve(Node::Mapping(stored(entries, path, value)->0), at),
        ),
        !begins_with(at, path) && !begins_with(path, at) ==> resolve(
            Node::Mapping(stored(entries, path, value)->0),
            at,
        ) == resolve(Node::Mapping(entries), at),
    decreases path.len(),
{
    let grown = stored(entries, path, value)->0;
    if at.len() == 0 {
        assert(path.take(0) =~= at);
    } else if path.len() == 1 {
        lemma_lookup_upsert(entries, path[0], value, at[0]);
        if at[0] == path[0] {
            assert(at.take(1) =~= path);
        } else {
            assert(at.take(1)[0] == at[0]);
            if begins_with(path, at) {
                assert(path.take(at.len() as int)[0] == path[0]);
            }
        }
    } else {
        let key = path[0];
        let inner = subdirectory(lookup(entries, key))->0;
        let below = stored(inner, path.skip(1), value)->0;
        lemma_lookup_upsert(entries, key, Node::Mapping(below), at[0]);
        if at[0] == key {
            let rest = at.skip(1);
            lemma_resolve_stored(inner, path.skip(1), value, rest);
            assert(resolve(Node::Mapping(grown), at) == resolve(Node::Mapping(below), rest));
            assert(begins_with(at, path) <==> begins_with(rest, path.skip(1))) by {
                if begins_with(at, path) {
                    assert(rest.take(path.len() - 1) =~= at.take(path.len() as int).skip(1));
                }
                if begins_with(rest, path.skip(1)) {
                    assert(at.take(path.len() as int) =~= seq![key] + rest.take(path.len() - 1));
                    assert(path =~= seq![key] + path.skip(1));
                }
            }
            assert(begins_with(path, at) <==> begins_with(path.skip(1), rest)) by {
                if begins_with(path, at) {
                    assert(path.skip(1).take(at.len() - 1) =~= path.take(at.len() as int).skip(1));
                }
                if begins_with(path.skip(1), rest) {
                    assert(path.take(at.len() as int) =~= seq![key] + path.skip(1).take(
                        at.len() - 1,
                    ));
                    assert(at =~= seq![key] + rest);
                }
            }
            if begins_with(at, path) {
                assert(rest.skip(path.len() - 1) =~= at.skip(path.len() as int));
            }
            if !begins_with(at, path) && !begins_with(path, at) {
                if rest.len() == 0 {
                    assert(path.take(1) =~= at);
                }
                lemma_resolve_enter(entries, at);
            }
        } else {
            assert(at.take(1)[0] == at[0]);
            if begins_with(at, path) {
                assert(at.take(path.len() as int)[0] == at[0]);
            }
            if begins_with(path, at) {
                assert(path.take(at.len() as int)[0] == path[0]);
            }
        }
    }
}

/// A directory can stand at every place on the way to the end of `path`.
pub open spec fn way_is_free(entries: Seq<(Node, Node)>, path: Seq<Node>) -> bool {
    forall|i: int|
        1 <= i < path.len() ==> walkable(#[trigger] resolve(Node::Mapping(entries), path.take(i)))
}

/// Storing at `path` succeeds exactly where a directory can stand at every
/// place on the way.
pub proof fn lemma_stored_succeeds(entries: Seq<(Node, Node)>, path: Seq<Node>, value: Node)
    requires
        path.len() > 0,
    ensures
        stored(entries, path, value) is Some <==> way_is_free(entries, path),
    decreases path.len(),
{
    if path.len() > 1 {
        let key = path[0];
        let found = lookup(entries, key);
        let first = path.take(1);
        assert(first[0] == key);
        assert(first.skip(1).len() == 0);
        if found is Some {
            assert(resolve(found->0, first.skip(1)) == found);
        }
        assert(resolve(Node::Mapping(entries), first) == found);
        match subdirectory(found) {
            None => {
                assert(!walkable(resolve(Node::Mapping(entries), path.take(1))));
            },
            Some(inner) => {
                let rest = path.skip(1);
                lemma_stored_succeeds(inner, rest, value);
                assert forall|i: int| 2 <= i < path.len() implies resolve(
                    Node::Mapping(entries),
                    #[trigger] path.take(i),
                ) == resolve(Node::Mapping(inner), rest.take(i - 1)) by {
                    assert(path.take(i)[0] == key);
                    assert(path.take(i).skip(1) =~= rest.take(i - 1));
                    lemma_resolve_enter(entries, path.take(i));
                }
                if way_is_free(entries, path) {
                    assert forall|j: int| 1 <= j < rest.len() implies walkable(
                        #[trigger] resolve(Node::Mapping(inner), rest.take(j)),
                    ) by {
                        assert(walkable(resolve(Node::Mapping(entries), path.take(j + 1))));
                    }
                }
                if way_is_free(inner, rest) {
                    assert forall|i: int| 1 <= i < path.len() implies walkable(
                        #[trigger] resolve(Node::Mapping(entries), path.take(i)),
                    ) by {
                        if i >= 2 {
                            assert(walkable(resolve(Node::Mapping(inner), rest.take(i - 1))));
                        }
                    }
                }
            },
        }
    }
}

/// Agreement of lookups is an equivalence that keeps apart what is walkable
/// from what is not.
proof fn lemma_same_at(a: Option<Node>, b: Option<Node>, c: Option<Node>)
    ensures
        same_at(a, a),
        same_at(a, b) ==> same_at(b, a),
        same_at(a, b) && same_at(b, c) ==> same_at(a, c),
        same_at(a, b) ==> (walkable(a) <==> walkable(b)),
        same_at(a, b) ==> (holds_mapping(a) <==> holds_mapping(b)),
{
}

/// Agreement of outcomes is reflexive, symmetric and transitive.
pub proof fn lemma_same_outcome(
    a: Option<Seq<(Node, Node)>>,
    b: Option<Seq<(Node, Node)>>,
    c: Option<Seq<(Node, Node)>>,
)
    ensures
        same_outcome(a, a),
        same_outcome(a, b) ==> same_outcome(b, a),
        same_outcome(a, b) && same_outcome(b, c) ==> same_outcome(a, c),
{
    if a is Some {
        let x = Node::Mapping(a->0);
        assert forall|path: Seq<Node>| same_at(#[trigger] resolve(x, path), resolve(x, path)) by {
            lemma_same_at(resolve(x, path), None, None);
        }
    }
    if same_outcome(a, b) && a is Some {
        let x = Node::Mapping(a->0);
        let y = Node::Mapping(b->0);
        assert forall|path: Seq<Node>| same_at(#[trigger] resolve(y, path), resolve(x, path)) by {
            assert(same_at(resolve(x, path), resolve(y, path)));
        }
        if same_outcome(b, c) {
            let z = Node::Mapping(c->0);
            assert forall|path: Seq<Node>| same_at(
                #[trigger] resolve(x, path),
                resolve(z, path),
            ) by {
                assert(same_at(resolve(x, path), resolve(y, path)));
                assert(same_at(resolve(y, path), resolve(z, path)));
                lemma_same_at(resolve(x, path), resolve(y, path), resolve(z, path));
            }
        }
    }
}

/// The outcome of storing one more value in the outcome so far.
pub open spec fn stored_next(so_far: Option<Seq<(Node, Node)>>, path: Seq<Node>, value: Node) -> Option<
    Seq<(Node, Node)>,
> {
    match so_far {
        Some(entries) => stored(entries, path, value),
        None => None,
    }
}

/// Storing the same value at the same place in two trees of the same content
/// gives two trees of the same content, or fails in both.
pub proof fn lemma_stored_same_content(
    a: Option<Seq<(Node, Node)>>,
    b: Option<Seq<(Node, Node)>>,
    path: Seq<Node>,
    value: Node,
)
    requires
        same_outcome(a, b),
    ensures
        same_outcome(stored_next(a, path, value), stored_next(b, path, value)),
{
    if a is Some && path.len() > 0 {
        let x = a->0;
        let y = b->0;
        lemma_stored_succeeds(x, path, value);
        lemma_stored_succeeds(y, path, value);
        assert(way_is_free(x, path) <==> way_is_free(y, path)) by {
            assert forall|i: int| 1 <= i < path.len() implies (walkable(
                resolve(Node::Mapping(x), path.take(i)),
            ) <==> walkable(resolve(Node::Mapping(y), path.take(i)))) by {
                assert(same_at(
                    resolve(Node::Mapping(x), path.take(i)),
                    resolve(Node::Mapping(y), path.take(i)),
                ));
                lemma_same_at(
                    resolve(Node::Mapping(x), path.take(i)),
                    resolve(Node::Mapping(y), path.take(i)),
                    None,
                );
            }
        }
        if stored(x, path, value) is Some {
            let grown_x = Node::Mapping(stored(x, path, value)->0);
            let grown_y = Node::Mapping(stored(y, path, value)->0);
            assert forall|at: Seq<Node>| same_at(
                #[trigger] resolve(grown_x, at),
                resolve(grown_y, at),
            ) by {
                lemma_resolve_stored(x, path, value, at);
                lemma_resolve_stored(y, path, value, at);
                assert(same_at(resolve(Node::Mapping(x), at), resolve(Node::Mapping(y), at)));
                lemma_same_at(resolve(grown_x, at), None, None);
            }
        }
    }
}

/// Neither path begins with the other: what is stored at one is not on the
/// way to the other, nor in its place.
pub open spec fn independent(p: Seq<Node>, q: Seq<Node>) -> bool {
    !begins_with(p, q) && !begins_with(q, p)
}

/// Two beginnings of one path: one of them begins with the other.
proof fn lemma_two_prefixes(at: Seq<Node>, p: Seq<Node>, q: Seq<Node>)
    requires
        begins_with(at, p),
        begins_with(at, q),
    ensures
        begins_with(p, q) || begins_with(q, p),
{
    if q.len() <= p.len() {
        assert(p.take(q.len() as int) =~= at.take(q.len() as int));
    } else {
        assert(q.take(p.len() as int) =~= at.take(p.len() as int));
    }
}

/// A beginning of a beginning is a beginning.
proof fn lemma_prefix_of_prefix(q: Seq<Node>, at: Seq<Node>, p: Seq<Node>)
    requires
        begins_with(q, at),
        begins_with(at, p),
    ensures
        begins_with(q, p),
{
    assert(q.take(p.len() as int) =~= q.take(at.len() as int).take(p.len() as int));
}

/// Storing at one place leaves the way to an independent place as free as it
/// was.
proof fn lemma_way_stays(
    entries: Seq<(Node, Node)>,
    p: Seq<Node>,
    value: Node,
    q: Seq<Node>,
)
    requires
        stored(entries, p, value) is Some,
        independent(p, q),
    ensures
        way_is_free(stored(entries, p, value)->0, q) <==> way_is_free(entries, q),
{
    let grown = stored(entries, p, value)->0;
    assert(p.len() > 0);
    lemma_stored_succeeds(entries, p, value);
    assert forall|i: int| 1 <= i < q.len() implies (walkable(
        resolve(Node::Mapping(grown), q.take(i)),
    ) <==> walkable(resolve(Node::Mapping(entries), q.take(i)))) by {
        let at = q.take(i);
        lemma_resolve_stored(entries, p, value, at);
        assert(begins_with(q, at)) by {
            assert(q.take(at.len() as int) =~= at);
        }
        if begins_with(at, p) {
            lemma_prefix_of_prefix(q, at, p);
        } else if begins_with(p, at) {
            assert(at.len() < p.len()) by {
                if at.len() == p.len() {
                    assert(p.take(at.len() as int) =~= p);
                    assert(at.take(p.len() as int) =~= at);
                }
            }
            assert(p.take(at.len() as int) == at);
            assert(walkable(resolve(Node::Mapping(entries), p.take(at.len() as int))));
        }
    }
}

/// Two values stored at independent places go in either order: both orders
/// fail, or they give trees of the same content.
pub proof fn lemma_stored_commutes(
    so_far: Option<Seq<(Node, Node)>>,
    p: Seq<Node>,
    v: Node,
    q: Seq<Node>,
    w: Node,
)
    requires
        independent(p, q),
        p.len() > 0,
        q.len() > 0,
    ensures
        same_outcome(
            stored_next(stored_next(so_far, p, v), q, w),
            stored_next(stored_next(so_far, q, w), p, v),
        ),
{
    if so_far is Some {
        let entries = so_far->0;
        let first = stored(entries, p, v);
        let second = stored(entries, q, w);
        lemma_stored_succeeds(entries, p, v);
        lemma_stored_succeeds(entries, q, w);
        if first is Some {
            lemma_way_stays(entries, p, v, q);
            lemma_stored_succeeds(first->0, q, w);
        }
        if second is Some {
            lemma_way_stays(entries, q, w, p);
            lemma_stored_succeeds(second->0, p, v);
        }
        if first is Some && second is Some {
            let one = stored(first->0, q, w)->0;
            let other = stored(second->0, p, v)->0;
            assert forall|at: Seq<Node>| same_at(
                #[trigger] resolve(Node::Mapping(one), at),
                resolve(Node::Mapping(other), at),
            ) by {
                lemma_resolve_stored(first->0, q, w, at);
                lemma_resolve_stored(entries, p, v, at);
                lemma_resolve_stored(second->0, p, v, at);
                lemma_resolve_stored(entries, q, w, at);
                if begins_with(at, p) && begins_with(at, q) {
                    lemma_two_prefixes(at, p, q);
                }
                if begins_with(at, q) && begins_with(p, at) {
                    lemma_prefix_of_prefix(p, at, q);
                }
                if begins_with(at, p) && begins_with(q, at) {
                    lemma_prefix_of_prefix(q, at, p);
                }
                lemma_same_at(resolve(Node::Mapping(one), at), None, None);
            }
        }
    }
}

/// No page's place in the tree is on the way to another's, nor the same.
pub open spec fn no_collisions(pages: Seq<(Seq<char>, Node)>) -> bool {
    forall|i: int, j: int|
        0 <= i < j < pages.len() ==> independent(
            #[trigger] page_path(pages[i].0),
            #[trigger] page_path(pages[j].0),
        )
}

/// The outcome of storing one more page.
pub open spec fn with_page(so_far: Option<Seq<(Node, Node)>>, page: (Seq<char>, Node)) -> Option<
    Seq<(Node, Node)>,
> {
    stored_next(so_far, page_path(page.0), page.1)
}

/// The tree of a list with one more page at its end.
proof fn lemma_site_tree_push(pages: Seq<(Seq<char>, Node)>, page: (Seq<char>, Node))
    ensures
        site_tree(pages.push(page)) == with_page(site_tree(pages), page),
{
    assert(pages.push(page).drop_last() =~= pages);
}

/// A page that is independent of all pages behind it can as well go in last.
proof fn lemma_move_to_end(pages: Seq<(Seq<char>, Node)>, i: int)
    requires
        0 <= i < pages.len(),
        forall|j: int|
            i < j < pages.len() ==> independent(
                page_path(pages[i].0),
                #[trigger] page_path(pages[j].0),
            ),
    ensures
        same_outcome(site_tree(pages), with_page(site_tree(pages.remove(i)), pages[i])),
    decreases pages.len(),
{
    let page = pages[i];
    let front = pages.drop_last();
    let last = pages.last();
    assert(pages =~= front.push(last));
    lemma_site_tree_push(front, last);
    if i == pages.len() - 1 {
        assert(pages.remove(i) =~= front);
        lemma_same_outcome(site_tree(pages), None, None);
    } else {
        assert(front[i] == page);
        assert forall|j: int| i < j < front.len() implies independent(
            page_path(front[i].0),
            #[trigger] page_path(front[j].0),
        ) by {
            assert(front[j] == pages[j]);
        }
        lemma_move_to_end(front, i);
        let without = front.remove(i);
        assert(pages.remove(i) =~= without.push(last));
        lemma_site_tree_push(without, last);
        // front first, then the last page: the same as the rest, the page, then the last page
        lemma_stored_same_content(
            site_tree(front),
            with_page(site_tree(without), page),
            page_path(last.0),
            last.1,
        );
        // the page and the last page change places
        assert(independent(page_path(page.0), page_path(last.0))) by {
            assert(pages[pages.len() - 1] == last);
        }
        lemma_stored_commutes(
            site_tree(without),
            page_path(page.0),
            page.1,
            page_path(last.0),
            last.1,
        );
        lemma_same_outcome(
            site_tree(pages),
            with_page(with_page(site_tree(without), page), last),
            with_page(with_page(site_tree(without), last), page),
        );
    }
}

/// Whatever stands in the tree where no directory can stand lies at or
/// behind the place of one of the first `n` pages.
pub open spec fn covered(entries: Seq<(Node, Node)>, pages: Seq<(Seq<char>, Node)>, n: int) -> bool {
    forall|at: Seq<Node>|
        !walkable(#[trigger] resolve(Node::Mapping(entries), at)) ==> exists|k: int|
            0 <= k < n && begins_with(at, #[trigger] page_path(pages[k].0))
}

/// Pages of which none is in another's way all find their place: the tree
/// of the first `n` of them is built, whether or not two of them share a
/// place.
pub proof fn lemma_site_tree_succeeds(pages: Seq<(Seq<char>, Node)>, n: int)
    requires
        free_of_collisions(places(pages)),
        0 <= n <= pages.len(),
    ensures
        site_tree(pages.take(n)) is Some,
        covered(site_tree(pages.take(n))->0, pages, n),
    decreases n,
{
    if n == 0 {
        assert(pages.take(0).len() == 0);
        let empty = Seq::<(Node, Node)>::empty();
        assert forall|at: Seq<Node>| walkable(#[trigger] resolve(Node::Mapping(empty), at)) by {
            if at.len() > 0 {
                assert(lookup(empty, at[0]) is None);
            }
        }
    } else {
        lemma_site_tree_succeeds(pages, n - 1);
        let before = site_tree(pages.take(n - 1))->0;
        let page = pages[n - 1];
        let place = page_path(page.0);
        assert(pages.take(n) =~= pages.take(n - 1).push(page));
        lemma_site_tree_push(pages.take(n - 1), page);
        lemma_stored_succeeds(before, place, page.1);
        assert(way_is_free(before, place)) by {
            assert forall|i: int| 1 <= i < place.len() implies walkable(
                #[trigger] resolve(Node::Mapping(before), place.take(i)),
            ) by {
                let at = place.take(i);
                if !walkable(resolve(Node::Mapping(before), at)) {
                    let k = choose|k: int|
                        0 <= k < n - 1 && begins_with(at, #[trigger] page_path(pages[k].0));
                    assert(begins_with(place, at)) by {
                        assert(place.take(at.len() as int) =~= at);
                    }
                    lemma_prefix_of_prefix(place, at, page_path(pages[k].0));
                    assert(collides_at(places(pages), k, n - 1));
                }
            }
        }
        let after = stored(before, place, page.1)->0;
        assert forall|at: Seq<Node>| !walkable(
            #[trigger] resolve(Node::Mapping(after), at),
        ) implies exists|k: int|
            0 <= k < n && begins_with(at, #[trigger] page_path(pages[k].0)) by {
            lemma_resolve_stored(before, place, page.1, at);
            if begins_with(at, place) {
                assert(begins_with(at, page_path(pages[n - 1].0)));
            } else {
                assert(!walkable(resolve(Node::Mapping(before), at)));
                let k = choose|k: int|
                    0 <= k < n - 1 && begins_with(at, #[trigger] page_path(pages[k].0));
                assert(begins_with(at, page_path(pages[k].0)));
            }
        }
    }
}

/// The site tree does not depend on the order of the pages: two lists of
/// the same pages, none of them in another's way, both give a tree, and the
/// two trees hold the same content.
pub proof fn lemma_site_tree_order_independent(
    a: Seq<(Seq<char>, Node)>,
    b: Seq<(Seq<char>, Node)>,
)
    requires
        a.to_multiset() == b.to_multiset(),
        no_collisions(a),
    ensures
        site_tree(a) is Some,
        site_tree(b) is Some,
        same_outcome(site_tree(a), site_tree(b)),
    decreases a.len(),
{
    assert(free_of_collisions(places(a))) by {
        assert forall|i: int, j: int| !#[trigger] collides_at(places(a), i, j) by {
            if collides_at(places(a), i, j) {
                if i < j {
                    assert(independent(page_path(a[i].0), page_path(a[j].0)));
                } else if j < i {
                    assert(independent(page_path(a[j].0), page_path(a[i].0)));
                }
            }
        }
    }
    lemma_site_tree_succeeds(a, a.len() as int);
    assert(a.take(a.len() as int) == a);
    a.to_multiset_ensures();
    b.to_multiset_ensures();
    if a.len() == 0 {
        assert(b =~= a);
        lemma_same_outcome(site_tree(a), None, None);
    } else {
        let page = a.last();
        let front = a.drop_last();
        assert(a =~= front.push(page));
        front.to_multiset_ensures();
        assert(a.to_multiset().count(page) > 0);
        assert(b.contains(page));
        let i = choose|i: int| 0 <= i < b.len() && b[i] == page;
        let rest = b.remove(i);
        rest.to_multiset_ensures();
        assert(rest.to_multiset() =~= front.to_multiset());
        assert(no_collisions(front)) by {
            assert forall|m: int, n: int| 0 <= m < n < front.len() implies independent(
                #[trigger] page_path(front[m].0),
                #[trigger] page_path(front[n].0),
            ) by {
                assert(front[m] == a[m] && front[n] == a[n]);
            }
        }
        lemma_site_tree_order_independent(front, rest);
        assert forall|j: int| i < j < b.len() implies independent(
            page_path(b[i].0),
            #[trigger] page_path(b[j].0),
        ) by {
            assert(rest[j - 1] == b[j]);
            assert(rest.contains(b[j]));
            assert(rest.to_multiset().count(b[j]) > 0);
            assert(front.to_multiset().count(b[j]) > 0);
            assert(front.contains(b[j]));
            let k = choose|k: int| 0 <= k < front.len() && front[k] == b[j];
            assert(a[k] == b[j]);
            assert(independent(page_path(a[k].0), page_path(a[a.len() - 1].0)));
        }
        lemma_move_to_end(b, i);
        lemma_stored_same_content(site_tree(front), site_tree(rest), page_path(page.0), page.1);
        lemma_site_tree_push(front, page);
        lemma_same_outcome(site_tree(b), with_page(site_tree(rest), page), None);
        lemma_same_outcome(site_tree(a), with_page(site_tree(rest), page), site_tree(b));
    }
}

/// Storing a well-formed value in a well-formed tree leaves the tree well
/// formed: every directory holds each of its keys once.
pub proof fn lemma_stored_well_formed(entries: Seq<(Node, Node)>, path: Seq<Node>, value: Node)
    requires
        well_formed(Node::Mapping(entries)),
        well_formed(value),
        stored(entries, path, value) is Some,
    ensures
        well_formed(Node::Mapping(stored(entries, path, value)->0)),
    decreases path.len(),
{
    if path.len() == 1 {
        lemma_upsert_well_formed(entries, path[0], value);
    } else {
        let inner = subdirectory(lookup(entries, path[0]))->0;
        if lookup(entries, path[0]) is Some {
            lemma_well_formed_lookup(entries, path[0]);
        }
        lemma_stored_well_formed(inner, path.skip(1), value);
        lemma_upsert_well_formed(
            entries,
            path[0],
            Node::Mapping(stored(inner, path.skip(1), value)->0),
        );
    }
}

/// The tree of pages with well-formed metadata is well formed.
pub proof fn lemma_site_tree_well_formed(pages: Seq<(Seq<char>, Node)>)
    requires
        forall|i: int| 0 <= i < pages.len() ==> well_formed(#[trigger] pages[i].1),
        site_tree(pages) is Some,
    ensures
        well_formed(Node::Mapping(site_tree(pages)->0)),
    decreases pages.len(),
{
    if pages.len() > 0 {
        let front = pages.drop_last();
        assert forall|i: int| 0 <= i < front.len() implies well_formed(#[trigger] front[i].1) by {
            assert(front[i] == pages[i]);
        }
        lemma_site_tree_well_formed(front);
        assert(well_formed(pages[pages.len() - 1].1));
        lemma_stored_well_formed(
            site_tree(front)->0,
            page_path(pages.last().0),
            pages.last().1,
        );
    }
}

} // verus!
