use vstd::prelude::*;
use crate::data::{
    distinct_keys, first_at, lemma_found, lemma_lookup_upsert, lemma_missing, lookup, merged,
    merged_entries, or_null, upsert, well_formed, Node,
};
use crate::site_order::{holds_mapping, resolve};

verus! {

/// A key is found exactly where an entry holds it: then at its first entry.
pub proof fn lemma_lookup_index(entries: Seq<(Node, Node)>, key: Node)
    ensures
        match lookup(entries, key) {
            Some(value) => exists|i: int| first_at(entries, key, i) && entries[i].1 == value,
            None => forall|j: int| 0 <= j < entries.len() ==> (#[trigger] entries[j]).0 != key,
        },
    decreases entries.len(),
{
    if entries.len() > 0 {
        if entries[0].0 == key {
            assert(first_at(entries, key, 0));
        } else {
            let rest = entries.skip(1);
            lemma_lookup_index(rest, key);
            match lookup(rest, key) {
                Some(value) => {
                    let i = choose|i: int| first_at(rest, key, i) && rest[i].1 == value;
                    assert(first_at(entries, key, i + 1)) by {
                        assert(rest[i] == entries[i + 1]);
                        assert forall|j: int| 0 <= j < i + 1 implies (#[trigger] entries[j]).0
                            != key by {
                            if j > 0 {
                                assert(rest[j - 1] == entries[j]);
                            }
                        }
                    }
                },
                None => {
                    assert forall|j: int| 0 <= j < entries.len() implies (#[trigger] entries[j]).0
                        != key by {
                        if j > 0 {
                            assert(rest[j - 1] == entries[j]);
                        }
                    }
                },
            }
        }
    }
}

/// Storing under a key keeps every key single.
pub proof fn lemma_upsert_distinct(entries: Seq<(Node, Node)>, key: Node, value: Node)
    requires
        distinct_keys(entries),
    ensures
        distinct_keys(upsert(entries, key, value)),
{
    lemma_lookup_index(entries, key);
    match lookup(entries, key) {
        Some(found) => {
            let i = choose|i: int| first_at(entries, key, i) && entries[i].1 == found;
            lemma_found(entries, key, i, value);
        },
        None => {
            lemma_missing(entries, key, value);
        },
    }
}

/// Storing a well-formed value in a well-formed mapping leaves it well
/// formed.
pub proof fn lemma_upsert_well_formed(entries: Seq<(Node, Node)>, key: Node, value: Node)
    requires
        well_formed(Node::Mapping(entries)),
        well_formed(value),
    ensures
        well_formed(Node::Mapping(upsert(entries, key, value))),
{
    lemma_upsert_distinct(entries, key, value);
    lemma_lookup_index(entries, key);
    let after = upsert(entries, key, value);
    match lookup(entries, key) {
        Some(found) => {
            let i = choose|i: int| first_at(entries, key, i) && entries[i].1 == found;
            lemma_found(entries, key, i, value);
            assert forall|j: int| 0 <= j < after.len() implies well_formed(
                #[trigger] after[j].1,
            ) by {
                if j != i {
                    assert(after[j] == entries[j]);
                    assert(well_formed(entries[j].1));
                }
            }
        },
        None => {
            lemma_missing(entries, key, value);
            assert forall|j: int| 0 <= j < after.len() implies well_formed(
                #[trigger] after[j].1,
            ) by {
                if j < entries.len() {
                    assert(after[j] == entries[j]);
                    assert(well_formed(entries[j].1));
                }
            }
        },
    }
}

/// Merging into a mapping keeps every key single.
pub proof fn lemma_merged_entries_distinct(
    ours: Seq<(Node, Node)>,
    theirs: Seq<(Node, Node)>,
    n: nat,
)
    requires
        distinct_keys(ours),
    ensures
        distinct_keys(merged_entries(ours, theirs, n)),
    decreases n,
{
    if n > 0 && n <= theirs.len() {
        lemma_merged_entries_distinct(ours, theirs, (n - 1) as nat);
        let so_far = merged_entries(ours, theirs, (n - 1) as nat);
        let key = theirs[n - 1].0;
        lemma_upsert_distinct(
            so_far,
            key,
            merged(or_null(lookup(so_far, key)), theirs[n - 1].1),
        );
    }
}

/// Merging the first `n` entries in reads no entry behind them.
proof fn lemma_merged_entries_prefix(
    ours: Seq<(Node, Node)>,
    one: Seq<(Node, Node)>,
    other: Seq<(Node, Node)>,
    n: nat,
)
    requires
        n <= one.len(),
        n <= other.len(),
        one.take(n as int) == other.take(n as int),
    ensures
        merged_entries(ours, one, n) == merged_entries(ours, other, n),
    decreases n,
{
    if n > 0 {
        assert(one.take(n - 1) =~= one.take(n as int).take(n - 1));
        assert(other.take(n - 1) =~= other.take(n as int).take(n - 1));
        lemma_merged_entries_prefix(ours, one, other, (n - 1) as nat);
        assert(one[n - 1] == one.take(n as int)[n - 1]);
        assert(other[n - 1] == other.take(n as int)[n - 1]);
    }
}

/// Of two values stored under one key the second stands.
proof fn lemma_upsert_twice(entries: Seq<(Node, Node)>, key: Node, first: Node, second: Node)
    ensures
        upsert(upsert(entries, key, first), key, second) == upsert(entries, key, second),
{
    lemma_lookup_index(entries, key);
    match lookup(entries, key) {
        Some(found) => {
            let i = choose|i: int| first_at(entries, key, i) && entries[i].1 == found;
            lemma_found(entries, key, i, first);
            lemma_found(entries, key, i, second);
            let once = entries.update(i, (key, first));
            assert(first_at(once, key, i));
            lemma_found(once, key, i, second);
            assert(once.update(i, (key, second)) =~= entries.update(i, (key, second)));
        },
        None => {
            lemma_missing(entries, key, first);
            lemma_missing(entries, key, second);
            let once = entries.push((key, first));
            assert(first_at(once, key, entries.len() as int));
            lemma_found(once, key, entries.len() as int, second);
            assert(once.update(entries.len() as int, (key, second)) =~= entries.push(
                (key, second),
            ));
        },
    }
}

/// Storing under two keys, of which the first is held already, gives the
/// same in either order.
proof fn lemma_upsert_swap(entries: Seq<(Node, Node)>, held: Node, v: Node, other: Node, w: Node)
    requires
        held != other,
        lookup(entries, held) is Some,
    ensures
        upsert(upsert(entries, held, v), other, w) == upsert(upsert(entries, other, w), held, v),
{
    lemma_lookup_index(entries, held);
    let i = choose|i: int| first_at(entries, held, i) && entries[i].1 == lookup(entries, held)->0;
    lemma_found(entries, held, i, v);
    let one = entries.update(i, (held, v));
    lemma_lookup_index(entries, other);
    match lookup(entries, other) {
        Some(found) => {
            let j = choose|j: int| first_at(entries, other, j) && entries[j].1 == found;
            lemma_found(entries, other, j, w);
            let two = entries.update(j, (other, w));
            assert(first_at(one, other, j));
            lemma_found(one, other, j, w);
            assert(first_at(two, held, i));
            lemma_found(two, held, i, v);
            assert(one.update(j, (other, w)) =~= two.update(i, (held, v)));
        },
        None => {
            lemma_missing(entries, other, w);
            let two = entries.push((other, w));
            assert forall|j: int| 0 <= j < one.len() implies (#[trigger] one[j]).0 != other by {
                if j != i {
                    assert(one[j] == entries[j]);
                }
            }
            lemma_missing(one, other, w);
            assert(first_at(two, held, i)) by {
                assert forall|j: int| 0 <= j < i implies (#[trigger] two[j]).0 != held by {
                    assert(two[j] == entries[j]);
                }
            }
            lemma_found(two, held, i, v);
            assert(one.push((other, w)) =~= two.update(i, (held, v)));
        },
    }
}

/// What merging into `ours` makes of a list of which one entry holds
/// another value: up to that entry nothing else, from there on the same
/// with the merge of that value stored under the entry's key.
proof fn lemma_merged_entries_update(
    ours: Seq<(Node, Node)>,
    theirs: Seq<(Node, Node)>,
    at: int,
    value: Node,
    n: nat,
)
    requires
        distinct_keys(theirs),
        0 <= at < theirs.len(),
        n <= theirs.len(),
    ensures
        merged_entries(ours, theirs.update(at, (theirs[at].0, value)), n) == if n > at {
            upsert(
                merged_entries(ours, theirs, n),
                theirs[at].0,
                merged(or_null(lookup(ours, theirs[at].0)), value),
            )
        } else {
            merged_entries(ours, theirs, n)
        },
    decreases n,
{
    let key = theirs[at].0;
    let changed = theirs.update(at, (key, value));
    let stored = merged(or_null(lookup(ours, key)), value);
    if n <= at {
        assert(changed.take(n as int) =~= theirs.take(n as int));
        lemma_merged_entries_prefix(ours, changed, theirs, n);
    } else if n == at + 1 {
        let so_far = merged_entries(ours, theirs, at as nat);
        assert(changed.take(at) =~= theirs.take(at));
        lemma_merged_entries_prefix(ours, changed, theirs, at as nat);
        crate::data::lemma_merged_entries_lookup(ours, theirs, at as nat, key);
        assert(lookup(theirs.take(at), key) is None) by {
            assert forall|j: int| 0 <= j < theirs.take(at).len() implies (
            #[trigger] theirs.take(at)[j]).0 != key by {
                assert(theirs.take(at)[j] == theirs[j]);
            }
            crate::data::lemma_lookup_absent(theirs.take(at), key);
        }
        assert(changed[at] == (key, value));
        lemma_upsert_twice(
            so_far,
            key,
            merged(or_null(lookup(so_far, key)), theirs[at].1),
            stored,
        );
    } else {
        let before = merged_entries(ours, theirs, (n - 1) as nat);
        let next_key = theirs[n - 1].0;
        lemma_merged_entries_update(ours, theirs, at, value, (n - 1) as nat);
        assert(changed[n - 1] == theirs[n - 1]);
        assert(next_key != key);
        lemma_lookup_upsert(before, key, stored, next_key);
        crate::data::lemma_merged_entries_lookup(ours, theirs, (n - 1) as nat, key);
        assert(lookup(theirs.take(n - 1), key) is Some) by {
            lemma_lookup_index(theirs.take(n - 1), key);
            assert(theirs.take(n - 1)[at] == theirs[at]);
        }
        lemma_upsert_swap(
            before,
            key,
            stored,
            next_key,
            merged(or_null(lookup(before, next_key)), theirs[n - 1].1),
        );
    }
}

/// Three values merge the same way in either grouping: where the last is no
/// mapping; where the middle one is none and the last swallows the first;
/// where the first is none; and where, all three being mappings, this holds
/// of the three values under every key that the last two share, null
/// standing for what the first does not hold.
pub open spec fn groups_freely(a: Node, b: Node, c: Node) -> bool
    decreases c,
{
    match c {
        Node::Mapping(last) => match b {
            Node::Mapping(middle) => match a {
                Node::Mapping(first) => forall|i: int|
                    0 <= i < last.len() && lookup(middle, (#[trigger] last[i]).0) is Some
                        ==> groups_freely(
                        or_null(lookup(first, last[i].0)),
                        lookup(middle, last[i].0)->0,
                        last[i].1,
                    ),
                _ => true,
            },
            _ => merged(a, c) == c,
        },
        _ => true,
    }
}

/// What a well-formed mapping holds under a key is well formed.
pub proof fn lemma_well_formed_lookup(entries: Seq<(Node, Node)>, key: Node)
    requires
        well_formed(Node::Mapping(entries)),
        lookup(entries, key) is Some,
    ensures
        well_formed(lookup(entries, key)->0),
{
    lemma_lookup_index(entries, key);
    let i = choose|i: int| first_at(entries, key, i) && entries[i].1 == lookup(entries, key)->0;
    assert(well_formed(entries[i].1));
}

/// Deep merge groups freely, entry by entry: merging the first `n` entries
/// of `last` into the merge of `middle` into `first` gives what merging
/// into `first` the merge of those entries into `middle` gives.
proof fn lemma_merged_entries_associative(
    first: Seq<(Node, Node)>,
    middle: Seq<(Node, Node)>,
    last: Seq<(Node, Node)>,
    n: nat,
)
    requires
        well_formed(Node::Mapping(middle)),
        well_formed(Node::Mapping(last)),
        groups_freely(Node::Mapping(first), Node::Mapping(middle), Node::Mapping(last)),
        n <= last.len(),
    ensures
        merged_entries(merged_entries(first, middle, middle.len()), last, n) == merged_entries(
            first,
            merged_entries(middle, last, n),
            merged_entries(middle, last, n).len(),
        ),
    decreases Node::Mapping(last), 0nat, n,
{
    if n > 0 {
        lemma_merged_entries_associative(first, middle, last, (n - 1) as nat);
        let key = last[n - 1].0;
        let value = last[n - 1].1;
        let inner = merged_entries(middle, last, (n - 1) as nat);
        let left = merged_entries(merged_entries(first, middle, middle.len()), last, (n - 1) as nat);
        let right = merged_entries(first, inner, inner.len());
        assert(left == right);
        lemma_merged_entries_distinct(middle, last, (n - 1) as nat);
        // what the merge of the last two holds under the key is what the middle one held
        crate::data::lemma_merged_entries_lookup(middle, last, (n - 1) as nat, key);
        assert(lookup(last.take(n - 1), key) is None) by {
            assert forall|j: int| 0 <= j < last.take(n - 1).len() implies (
            #[trigger] last.take(n - 1)[j]).0 != key by {
                assert(last.take(n - 1)[j] == last[j]);
            }
            crate::data::lemma_lookup_absent(last.take(n - 1), key);
        }
        assert(lookup(inner, key) == lookup(middle, key));
        lemma_lookup_index(inner, key);
        match lookup(inner, key) {
            None => {
                assert(merged(Node::Null, value) == value);
                lemma_missing(inner, key, value);
                let longer = inner.push((key, value));
                assert(merged_entries(middle, last, n) == longer);
                assert(longer.take(inner.len() as int) =~= inner);
                assert(inner.take(inner.len() as int) =~= inner);
                lemma_merged_entries_prefix(first, longer, inner, inner.len());
                assert(longer[longer.len() - 1] == (key, value));
            },
            Some(held) => {
                let at = choose|i: int| first_at(inner, key, i) && inner[i].1 == held;
                let both = merged(held, value);
                lemma_found(inner, key, at, both);
                assert(merged_entries(middle, last, n) == inner.update(at, (key, both)));
                lemma_merged_entries_update(first, inner, at, both, inner.len());
                // what the merge of the first two holds under the key
                crate::data::lemma_merged_entries_lookup(first, inner, inner.len(), key);
                assert(inner.take(inner.len() as int) =~= inner);
                assert(lookup(right, key) == Some(merged(or_null(lookup(first, key)), held)));
                // the three values under the key group freely
                lemma_well_formed_lookup(middle, key);
                assert(well_formed(last[n - 1].1));
                assert(groups_freely(or_null(lookup(first, key)), held, value));
                assert(decreases_to!(Node::Mapping(last) => Node::Mapping(last)->Mapping_0[n - 1].1));
                lemma_merge_associative(or_null(lookup(first, key)), held, value);
            },
        }
    }
}

/// Deep merge groups freely: merging `c` into the merge of `b` into `a`
/// gives what merging into `a` the merge of `c` into `b` gives.
pub proof fn lemma_merge_associative(a: Node, b: Node, c: Node)
    requires
        well_formed(b),
        well_formed(c),
        groups_freely(a, b, c),
    ensures
        merged(merged(a, b), c) == merged(a, merged(b, c)),
    decreases c, 1nat, 0nat,
{
    match c {
        Node::Mapping(last) => match b {
            Node::Mapping(middle) => match a {
                Node::Mapping(first) => {
                    lemma_merged_entries_associative(first, middle, last, last.len());
                },
                _ => {},
            },
            _ => {},
        },
        _ => {},
    }
}

/// Deep merge groups freely on no other values: where the two groupings
/// give the same, the three values group freely.
pub proof fn lemma_merge_associative_only(a: Node, b: Node, c: Node)
    requires
        well_formed(b),
        well_formed(c),
        merged(merged(a, b), c) == merged(a, merged(b, c)),
    ensures
        groups_freely(a, b, c),
    decreases c,
{
    match c {
        Node::Mapping(last) => match b {
            Node::Mapping(middle) => match a {
                Node::Mapping(first) => {
                    assert forall|i: int|
                        0 <= i < last.len() && lookup(
                            middle,
                            (#[trigger] last[i]).0,
                        ) is Some implies groups_freely(
                        or_null(lookup(first, last[i].0)),
                        lookup(middle, last[i].0)->0,
                        last[i].1,
                    ) by {
                        let key = last[i].0;
                        let held = lookup(middle, key)->0;
                        let inner = merged_entries(middle, last, last.len());
                        lemma_lookup_index(last, key);
                        assert(lookup(last, key) == Some(last[i].1)) by {
                            assert(first_at(last, key, i));
                            lemma_found(last, key, i, Node::Null);
                        }
                        lemma_merged_entries_distinct(middle, last, last.len());
                        crate::data::lemma_merge_lookup(first, middle, key);
                        crate::data::lemma_merge_lookup(
                            merged_entries(first, middle, middle.len()),
                            last,
                            key,
                        );
                        crate::data::lemma_merge_lookup(middle, last, key);
                        crate::data::lemma_merge_lookup(first, inner, key);
                        lemma_well_formed_lookup(middle, key);
                        assert(well_formed(last[i].1));
                        assert(decreases_to!(c => c->Mapping_0[i].1));
                        lemma_merge_associative_only(
                            or_null(lookup(first, key)),
                            held,
                            last[i].1,
                        );
                    }
                },
                _ => {},
            },
            _ => {},
        },
        _ => {},
    }
}

/// What a value that may be missing holds at the end of a path of keys.
pub open spec fn resolve_in(found: Option<Node>, path: Seq<Node>) -> Option<Node> {
    match found {
        Some(node) => resolve(node, path),
        None => None,
    }
}

/// Of three lookups, those that find something find values of one kind: all
/// mappings, or none.
pub open spec fn of_one_kind(a: Option<Node>, b: Option<Node>, c: Option<Node>) -> bool {
    let mapping = holds_mapping(a) || holds_mapping(b) || holds_mapping(c);
    let other = (a is Some && !holds_mapping(a)) || (b is Some && !holds_mapping(b)) || (c is Some
        && !holds_mapping(c));
    !(mapping && other)
}

/// At every path of keys, what the three values hold there is of one kind.
pub open spec fn alike(a: Option<Node>, b: Node, c: Node) -> bool {
    forall|path: Seq<Node>|
        of_one_kind(#[trigger] resolve_in(a, path), resolve(b, path), resolve(c, path))
}

/// Values that are of one kind at every path group freely.
pub proof fn lemma_alike_groups_freely(a: Option<Node>, b: Node, c: Node)
    requires
        well_formed(b),
        well_formed(c),
        alike(a, b, c),
    ensures
        groups_freely(or_null(a), b, c),
    decreases c,
{
    let here = Seq::<Node>::empty();
    assert(of_one_kind(resolve_in(a, here), resolve(b, here), resolve(c, here)));
    match c {
        Node::Mapping(last) => match b {
            Node::Mapping(middle) => match or_null(a) {
                Node::Mapping(first) => {
                    assert forall|i: int|
                        0 <= i < last.len() && lookup(
                            middle,
                            (#[trigger] last[i]).0,
                        ) is Some implies groups_freely(
                        or_null(lookup(first, last[i].0)),
                        lookup(middle, last[i].0)->0,
                        last[i].1,
                    ) by {
                        let key = last[i].0;
                        let below_a = lookup(first, key);
                        let below_b = lookup(middle, key)->0;
                        let below_c = last[i].1;
                        assert(lookup(last, key) == Some(below_c)) by {
                            assert(first_at(last, key, i));
                            lemma_found(last, key, i, Node::Null);
                        }
                        lemma_well_formed_lookup(middle, key);
                        assert(well_formed(last[i].1));
                        assert forall|path: Seq<Node>|
                            of_one_kind(
                                #[trigger] resolve_in(below_a, path),
                                resolve(below_b, path),
                                resolve(below_c, path),
                            ) by {
                            let longer = seq![key] + path;
                            assert(longer[0] == key);
                            assert(longer.skip(1) =~= path);
                            assert(of_one_kind(
                                resolve_in(a, longer),
                                resolve(b, longer),
                                resolve(c, longer),
                            ));
                        }
                        assert(decreases_to!(c => c->Mapping_0[i].1));
                        lemma_alike_groups_freely(below_a, below_b, below_c);
                    }
                },
                _ => {},
            },
            _ => {},
        },
        _ => {},
    }
}

/// Deep merge groups freely on values that are of one kind wherever more
/// than one of them holds something: at every path of keys all mappings, or
/// none.
pub proof fn lemma_merge_associative_alike(a: Node, b: Node, c: Node)
    requires
        well_formed(b),
        well_formed(c),
        alike(Some(a), b, c),
    ensures
        merged(merged(a, b), c) == merged(a, merged(b, c)),
{
    lemma_alike_groups_freely(Some(a), b, c);
    lemma_merge_associative(a, b, c);
}

} // verus!
