use vstd::prelude::*;

verus! {

/// A number: a non-negative integer, a negative integer, or a float held
/// by the text that its parser writes for it.
#[derive(Clone, Debug, PartialEq, Eq)]
pub enum Num {
    PosInt(u64),
    NegInt(i64),
    Float(String),
}

/// The mathematical content of a [`Num`].
pub enum Quantity {
    PosInt(u64),
    NegInt(i64),
    Float(Seq<char>),
}

impl View for Num {
    type V = Quantity;

    open spec fn view(&self) -> Quantity {
        match self {
            Num::PosInt(u) => Quantity::PosInt(*u),
            Num::NegInt(i) => Quantity::NegInt(*i),
            Num::Float(text) => Quantity::Float(text@),
        }
    }
}

impl Num {
    /// The number that a parser read, from its readings as an unsigned and
    /// as a signed integer and from its text: the first reading that is
    /// present stands, the text where none is.
    pub fn from_parts(unsigned: Option<u64>, signed: Option<i64>, text: String) -> (out: Num)
        ensures
            out@ == match (unsigned, signed) {
                (Some(u), _) => Quantity::PosInt(u),
                (None, Some(i)) => Quantity::NegInt(i),
                (None, None) => Quantity::Float(text@),
            },
    {
        match unsigned {
            Some(u) => Num::PosInt(u),
            None => match signed {
                Some(i) => Num::NegInt(i),
                None => Num::Float(text),
            },
        }
    }

    /// A copy of this number.
    pub fn duplicate(&self) -> (out: Num)
        ensures
            out@ == self@,
    {
        match self {
            Num::PosInt(u) => Num::PosInt(*u),
            Num::NegInt(i) => Num::NegInt(*i),
            Num::Float(text) => Num::Float(text.clone()),
        }
    }

    /// Whether two numbers are the same.
    pub fn same(&self, other: &Num) -> (out: bool)
        ensures
            out == (self@ == other@),
    {
        match self {
            Num::PosInt(u) => match other {
                Num::PosInt(v) => *u == *v,
                _ => false,
            },
            Num::NegInt(i) => match other {
                Num::NegInt(j) => *i == *j,
                _ => false,
            },
            Num::Float(text) => match other {
                Num::Float(other_text) => *text == *other_text,
                _ => false,
            },
        }
    }
}

/// A loosely typed structured value, as front matter, site data and remote
/// data hold it.
#[derive(Debug)]
pub enum Data {
    Null,
    Bool(bool),
    Num(Num),
    Text(String),
    Sequence(Vec<Data>),
    Mapping(Vec<(Data, Data)>),
    Tagged(String, Box<Data>),
}

/// The mathematical content of a [`Data`].
pub enum Node {
    Null,
    Bool(bool),
    Num(Quantity),
    Text(Seq<char>),
    Sequence(Seq<Node>),
    Mapping(Seq<(Node, Node)>),
    Tagged(Seq<char>, Box<Node>),
}

/// The content of a value: strings by their characters, sequences and
/// mappings entry by entry, in order.
pub open spec fn node_of(v: Data) -> Node
    decreases v,
{
    match v {
        Data::Null => Node::Null,
        Data::Bool(b) => Node::Bool(b),
        Data::Num(n) => Node::Num(n@),
        Data::Text(s) => Node::Text(s@),
        Data::Sequence(items) => Node::Sequence(
            Seq::new(
                items@.len(),
                |i: int| if 0 <= i < items@.len() { node_of(items@[i]) } else { Node::Null },
            ),
        ),
        Data::Mapping(entries) => Node::Mapping(
            Seq::new(
                entries@.len(),
                |i: int| if 0 <= i < entries@.len() {
                    (node_of(entries@[i].0), node_of(entries@[i].1))
                } else {
                    (Node::Null, Node::Null)
                },
            ),
        ),
        Data::Tagged(tag, inner) => Node::Tagged(tag@, Box::new(node_of(*inner))),
    }
}

impl View for Data {
    type V = Node;

    open spec fn view(&self) -> Node {
        node_of(*self)
    }
}

/// The first value stored under `key`, if any.
pub open spec fn lookup(entries: Seq<(Node, Node)>, key: Node) -> Option<Node>
    decreases entries.len(),
{
    if entries.len() == 0 {
        None
    } else if entries[0].0 == key {
        Some(entries[0].1)
    } else {
        lookup(entries.skip(1), key)
    }
}

/// The entries with `value` stored under `key`: in the place of the first
/// entry of that key, or at the end where there is none.
pub open spec fn upsert(entries: Seq<(Node, Node)>, key: Node, value: Node) -> Seq<(Node, Node)>
    decreases entries.len(),
{
    if entries.len() == 0 {
        seq![(key, value)]
    } else if entries[0].0 == key {
        seq![(key, value)] + entries.skip(1)
    } else {
        seq![entries[0]] + upsert(entries.skip(1), key, value)
    }
}

/// No key occurs twice.
pub open spec fn distinct_keys(entries: Seq<(Node, Node)>) -> bool {
    forall|i: int, j: int|
        0 <= i < j < entries.len() ==> (#[trigger] entries[i]).0 != (#[trigger] entries[j]).0
}

/// Looking up after storing: the stored value under its key, the old content
/// under every other key.
pub proof fn lemma_lookup_upsert(entries: Seq<(Node, Node)>, key: Node, value: Node, other: Node)
    ensures
        lookup(upsert(entries, key, value), other) == if other == key {
            Some(value)
        } else {
            lookup(entries, other)
        },
    decreases entries.len(),
{
    let after = upsert(entries, key, value);
    if entries.len() == 0 {
        assert(after[0] == (key, value));
        assert(after.skip(1).len() == 0);
        assert(lookup(after.skip(1), other) is None);
    } else if entries[0].0 == key {
        assert(after[0] == (key, value));
        assert(after.skip(1) == entries.skip(1));
    } else {
        assert(after[0] == entries[0]);
        assert(after.skip(1) == upsert(entries.skip(1), key, value));
        lemma_lookup_upsert(entries.skip(1), key, value, other);
    }
}

/// `key` is first found at index `i`.
pub open spec fn first_at(entries: Seq<(Node, Node)>, key: Node, i: int) -> bool {
    &&& 0 <= i < entries.len()
    &&& entries[i].0 == key
    &&& forall|j: int| 0 <= j < i ==> (#[trigger] entries[j]).0 != key
}

/// Where `key` is first found at `i`, looking it up gives the value there
/// and storing under it changes that entry alone.
pub proof fn lemma_found(entries: Seq<(Node, Node)>, key: Node, i: int, value: Node)
    requires
        first_at(entries, key, i),
    ensures
        lookup(entries, key) == Some(entries[i].1),
        upsert(entries, key, value) == entries.update(i, (key, value)),
    decreases entries.len(),
{
    if i == 0 {
        assert(seq![(key, value)] + entries.skip(1) == entries.update(0, (key, value)));
    } else {
        let rest = entries.skip(1);
        assert(first_at(rest, key, i - 1)) by {
            assert forall|j: int| 0 <= j < i - 1 implies (#[trigger] rest[j]).0 != key by {
                assert(rest[j] == entries[j + 1]);
            }
        }
        lemma_found(rest, key, i - 1, value);
        assert(seq![entries[0]] + rest.update(i - 1, (key, value)) == entries.update(
            i,
            (key, value),
        ));
    }
}

/// Where `key` is not found, looking it up gives nothing and storing under it
/// adds an entry at the end.
pub proof fn lemma_missing(entries: Seq<(Node, Node)>, key: Node, value: Node)
    requires
        forall|j: int| 0 <= j < entries.len() ==> (#[trigger] entries[j]).0 != key,
    ensures
        lookup(entries, key) is None,
        upsert(entries, key, value) == entries.push((key, value)),
    decreases entries.len(),
{
    if entries.len() == 0 {
        assert(seq![(key, value)] == entries.push((key, value)));
    } else {
        let rest = entries.skip(1);
        assert forall|j: int| 0 <= j < rest.len() implies (#[trigger] rest[j]).0 != key by {
            assert(rest[j] == entries[j + 1]);
        }
        lemma_missing(rest, key, value);
        assert(seq![entries[0]] + rest.push((key, value)) == entries.push((key, value)));
    }
}

/// The content of each value of `items`.
pub open spec fn nodes_of(items: Seq<Data>) -> Seq<Node> {
    Seq::new(items.len(), |i: int| items[i]@)
}

/// The content of each entry of `entries`.
pub open spec fn entries_of(entries: Seq<(Data, Data)>) -> Seq<(Node, Node)> {
    Seq::new(entries.len(), |i: int| (entries[i].0@, entries[i].1@))
}

/// What a sequence, a mapping and a tagged value hold, over [`nodes_of`] and
/// [`entries_of`].
pub proof fn lemma_view(v: Data)
    ensures
        v matches Data::Sequence(items) ==> v@ == Node::Sequence(nodes_of(items@)),
        v matches Data::Mapping(entries) ==> v@ == Node::Mapping(entries_of(entries@)),
        v matches Data::Tagged(tag, inner) ==> v@ == Node::Tagged(tag@, Box::new(inner@)),
{
    match v {
        Data::Sequence(items) => {
            assert(v@->Sequence_0 =~= nodes_of(items@));
        },
        Data::Mapping(entries) => {
            assert(v@->Mapping_0 =~= entries_of(entries@));
        },
        _ => {},
    }
}

impl Data {
    /// A copy of this value.
    pub fn deep_clone(&self) -> (out: Data)
        ensures
            out@ == self@,
        decreases self,
    {
        proof {
            lemma_view(*self);
        }
        let out = match self {
            Data::Null => Data::Null,
            Data::Bool(b) => Data::Bool(*b),
            Data::Num(n) => Data::Num(n.duplicate()),
            Data::Text(s) => Data::Text(s.clone()),
            Data::Sequence(items) => {
                let mut copy: Vec<Data> = Vec::new();
                let mut i: usize = 0;
                while i < items.len()
                    invariant
                        i <= items.len(),
                        *self == Data::Sequence(*items),
                        nodes_of(copy@) == nodes_of(items@).take(i as int),
                    decreases items.len() - i,
                {
                    let ghost before = copy@;
                    assert(decreases_to!(*self => self->Sequence_0[i as int]));
                    let item = items[i].deep_clone();
                    copy.push(item);
                    assert(nodes_of(copy@) == nodes_of(before).push(item@));
                    i += 1;
                }
                assert(nodes_of(items@).take(items.len() as int) == nodes_of(items@));
                Data::Sequence(copy)
            },
            Data::Mapping(entries) => {
                let mut copy: Vec<(Data, Data)> = Vec::new();
                let mut i: usize = 0;
                while i < entries.len()
                    invariant
                        i <= entries.len(),
                        *self == Data::Mapping(*entries),
                        entries_of(copy@) == entries_of(entries@).take(i as int),
                    decreases entries.len() - i,
                {
                    let ghost before = copy@;
                    assert(decreases_to!(*self => self->Mapping_0[i as int].0));
                    assert(decreases_to!(*self => self->Mapping_0[i as int].1));
                    let key = entries[i].0.deep_clone();
                    let value = entries[i].1.deep_clone();
                    copy.push((key, value));
                    assert(entries_of(copy@) == entries_of(before).push((key@, value@)));
                    i += 1;
                }
                assert(entries_of(entries@).take(entries.len() as int) == entries_of(entries@));
                Data::Mapping(copy)
            },
            Data::Tagged(tag, inner) => Data::Tagged(tag.clone(), Box::new(inner.deep_clone())),
        };
        proof {
            lemma_view(out);
        }
        out
    }
}

/// Whether two value lists hold the same content, item by item.
fn same_items(a: &Vec<Data>, b: &Vec<Data>) -> (r: bool)
    ensures
        r == (nodes_of(a@) == nodes_of(b@)),
    decreases a,
{
    if a.len() != b.len() {
        assert(nodes_of(a@).len() != nodes_of(b@).len());
        return false;
    }
    let mut i: usize = 0;
    while i < a.len()
        invariant
            i <= a.len(),
            a.len() == b.len(),
            nodes_of(a@).take(i as int) == nodes_of(b@).take(i as int),
        decreases a.len() - i,
    {
        assert(decreases_to!(*a => a[i as int]));
        if !same_data(&a[i], &b[i]) {
            assert(nodes_of(a@)[i as int] != nodes_of(b@)[i as int]);
            return false;
        }
        assert(nodes_of(a@).take(i + 1) == nodes_of(a@).take(i as int).push(a@[i as int]@));
        assert(nodes_of(b@).take(i + 1) == nodes_of(b@).take(i as int).push(b@[i as int]@));
        i += 1;
    }
    assert(nodes_of(a@).take(a.len() as int) == nodes_of(a@));
    assert(nodes_of(b@).take(b.len() as int) == nodes_of(b@));
    true
}

/// Whether two entry lists hold the same content, entry by entry.
fn same_entries(a: &Vec<(Data, Data)>, b: &Vec<(Data, Data)>) -> (r: bool)
    ensures
        r == (entries_of(a@) == entries_of(b@)),
    decreases a,
{
    if a.len() != b.len() {
        assert(entries_of(a@).len() != entries_of(b@).len());
        return false;
    }
    let mut i: usize = 0;
    while i < a.len()
        invariant
            i <= a.len(),
            a.len() == b.len(),
            entries_of(a@).take(i as int) == entries_of(b@).take(i as int),
        decreases a.len() - i,
    {
        assert(decreases_to!(*a => a[i as int].0));
        assert(decreases_to!(*a => a[i as int].1));
        if !same_data(&a[i].0, &b[i].0) || !same_data(&a[i].1, &b[i].1) {
            assert(entries_of(a@)[i as int] != entries_of(b@)[i as int]);
            return false;
        }
        assert(entries_of(a@).take(i + 1) == entries_of(a@).take(i as int).push(
            (a@[i as int].0@, a@[i as int].1@),
        ));
        assert(entries_of(b@).take(i + 1) == entries_of(b@).take(i as int).push(
            (b@[i as int].0@, b@[i as int].1@),
        ));
        i += 1;
    }
    assert(entries_of(a@).take(a.len() as int) == entries_of(a@));
    assert(entries_of(b@).take(b.len() as int) == entries_of(b@));
    true
}

/// Whether two values hold the same content.
pub fn same_data(a: &Data, b: &Data) -> (r: bool)
    ensures
        r == (a@ == b@),
    decreases a,
{
    proof {
        lemma_view(*a);
        lemma_view(*b);
    }
    match a {
        Data::Null => match b {
            Data::Null => true,
            _ => false,
        },
        Data::Bool(x) => match b {
            Data::Bool(y) => *x == *y,
            _ => false,
        },
        Data::Num(x) => match b {
            Data::Num(y) => x.same(y),
            _ => false,
        },
        Data::Text(x) => match b {
            Data::Text(y) => *x == *y,
            _ => false,
        },
        Data::Sequence(x) => match b {
            Data::Sequence(y) => same_items(x, y),
            _ => false,
        },
        Data::Mapping(x) => match b {
            Data::Mapping(y) => same_entries(x, y),
            _ => false,
        },
        Data::Tagged(tag, inner) => match b {
            Data::Tagged(other_tag, other_inner) => *tag == *other_tag && same_data(
                inner,
                other_inner,
            ),
            _ => false,
        },
    }
}

/// The index of the first entry stored under `key`.
pub fn find_key(entries: &Vec<(Data, Data)>, key: &Data) -> (r: Option<usize>)
    ensures
        match r {
            Some(i) => first_at(entries_of(entries@), key@, i as int),
            None => forall|j: int|
                0 <= j < entries.len() ==> (#[trigger] entries_of(entries@)[j]).0 != key@,
        },
{
    let mut i: usize = 0;
    while i < entries.len()
        invariant
            i <= entries.len(),
            forall|j: int| 0 <= j < i ==> (#[trigger] entries_of(entries@)[j]).0 != key@,
        decreases entries.len() - i,
    {
        if same_data(&entries[i].0, key) {
            return Some(i);
        }
        i += 1;
    }
    None
}

/// The value found, or null where nothing was found.
pub open spec fn or_null(found: Option<Node>) -> Node {
    match found {
        Some(node) => node,
        None => Node::Null,
    }
}

/// The deep merge of `other` into `base`: where both are mappings, the
/// entries of `other` are merged into those of `base` one after another;
/// in every other case `other` stands.
pub open spec fn merged(base: Node, other: Node) -> Node
    decreases other, 0nat,
{
    match other {
        Node::Mapping(theirs) => match base {
            Node::Mapping(ours) => Node::Mapping(merged_entries(ours, theirs, theirs.len())),
            _ => other,
        },
        _ => other,
    }
}

/// `ours` after the first `n` entries of `theirs` were merged into it: each
/// is merged with what `ours` then holds under its key (null where it holds
/// nothing) and stored under that key.
pub open spec fn merged_entries(
    ours: Seq<(Node, Node)>,
    theirs: Seq<(Node, Node)>,
    n: nat,
) -> Seq<(Node, Node)>
    decreases theirs, n,
{
    if n == 0 || n > theirs.len() {
        ours
    } else {
        let so_far = merged_entries(ours, theirs, (n - 1) as nat);
        let key = theirs[n - 1].0;
        upsert(so_far, key, merged(or_null(lookup(so_far, key)), theirs[n - 1].1))
    }
}

/// The deep merge of `other` into `base` ([`merged`]), leaving `other` in
/// place.
pub fn merge_into(base: Data, other: &Data) -> (out: Data)
    ensures
        out@ == merged(base@, other@),
    decreases other,
{
    proof {
        lemma_view(base);
        lemma_view(*other);
    }
    match other {
        Data::Mapping(theirs) => match base {
            Data::Mapping(ours) => {
                let ghost start = entries_of(ours@);
                let mut ours = ours;
                let mut i: usize = 0;
                while i < theirs.len()
                    invariant
                        i <= theirs.len(),
                        other is Mapping,
                        *theirs == other->Mapping_0,
                        entries_of(ours@) == merged_entries(
                            start,
                            entries_of(theirs@),
                            i as nat,
                        ),
                    decreases theirs.len() - i,
                {
                    assert(decreases_to!(*other => other->Mapping_0[i as int].1));
                    let ghost so_far = entries_of(ours@);
                    let ghost key = theirs[i as int].0@;
                    match find_key(&ours, &theirs[i].0) {
                        Some(at) => {
                            let (own_key, own_value) = ours.remove(at);
                            let ghost without = ours@;
                            let value = merge_into(own_value, &theirs[i].1);
                            proof {
                                lemma_found(so_far, key, at as int, value@);
                            }
                            ours.insert(at, (own_key, value));
                            assert(entries_of(ours@) =~= so_far.update(
                                at as int,
                                (key, value@),
                            ));
                        },
                        None => {
                            let value = merge_into(Data::Null, &theirs[i].1);
                            proof {
                                lemma_missing(so_far, key, value@);
                            }
                            let own_key = theirs[i].0.deep_clone();
                            ours.push((own_key, value));
                            assert(entries_of(ours@) =~= so_far.push((key, value@)));
                        },
                    }
                    i += 1;
                }
                let out = Data::Mapping(ours);
                proof {
                    lemma_view(out);
                }
                out
            },
            _ => other.deep_clone(),
        },
        _ => other.deep_clone(),
    }
}

/// The deep merge of `other` into `base`: keys of both are merged value by
/// value where both values are mappings; anywhere else the value of `other`
/// stands.
pub fn merge_yaml_values(base: Data, other: Data) -> (out: Data)
    ensures
        out@ == merged(base@, other@),
{
    merge_into(base, &other)
}

/// Looking up in a list with one more entry at its end: what the list held
/// before stands; the new entry is found only where its key was not held.
pub proof fn lemma_lookup_push(entries: Seq<(Node, Node)>, key: Node, value: Node, other: Node)
    ensures
        lookup(entries.push((key, value)), other) == match lookup(entries, other) {
            Some(found) => Some(found),
            None => if other == key {
                Some(value)
            } else {
                None
            },
        },
    decreases entries.len(),
{
    let longer = entries.push((key, value));
    if entries.len() == 0 {
        assert(longer[0] == (key, value));
        assert(longer.skip(1).len() == 0);
        assert(lookup(longer.skip(1), other) is None);
    } else {
        assert(longer[0] == entries[0]);
        assert(longer.skip(1) == entries.skip(1).push((key, value)));
        lemma_lookup_push(entries.skip(1), key, value, other);
    }
}

/// A key that no entry holds is not found.
pub proof fn lemma_lookup_absent(entries: Seq<(Node, Node)>, key: Node)
    requires
        forall|j: int| 0 <= j < entries.len() ==> (#[trigger] entries[j]).0 != key,
    ensures
        lookup(entries, key) is None,
{
    lemma_missing(entries, key, Node::Null);
}

/// Merging where the two sides are not both mappings: the second stands.
pub proof fn lemma_merge_other_wins(base: Node, other: Node)
    requires
        !(base is Mapping && other is Mapping),
    ensures
        merged(base, other) == other,
{
}

/// Merging an empty mapping into a mapping changes nothing.
pub proof fn lemma_merge_empty(base: Node)
    requires
        base is Mapping,
    ensures
        merged(base, Node::Mapping(Seq::empty())) == base,
{
}

/// What a merged mapping holds under `key`, after the first `n` entries of
/// `theirs` went in: where those hold the key, the merge of what `ours` held
/// (null where nothing) with their value; else what `ours` held.
pub proof fn lemma_merged_entries_lookup(
    ours: Seq<(Node, Node)>,
    theirs: Seq<(Node, Node)>,
    n: nat,
    key: Node,
)
    requires
        distinct_keys(theirs),
        n <= theirs.len(),
    ensures
        lookup(merged_entries(ours, theirs, n), key) == match lookup(theirs.take(n as int), key) {
            Some(value) => Some(merged(or_null(lookup(ours, key)), value)),
            None => lookup(ours, key),
        },
    decreases n,
{
    if n == 0 {
        assert(theirs.take(0).len() == 0);
    } else {
        let so_far = merged_entries(ours, theirs, (n - 1) as nat);
        let last_key = theirs[n - 1].0;
        let last_value = theirs[n - 1].1;
        let earlier = theirs.take(n - 1);
        lemma_merged_entries_lookup(ours, theirs, (n - 1) as nat, key);
        lemma_merged_entries_lookup(ours, theirs, (n - 1) as nat, last_key);
        assert(theirs.take(n as int) == earlier.push((last_key, last_value)));
        lemma_lookup_push(earlier, last_key, last_value, key);
        assert(lookup(earlier, last_key) is None) by {
            assert forall|j: int| 0 <= j < earlier.len() implies (#[trigger] earlier[j]).0
                != last_key by {
                assert(earlier[j] == theirs[j]);
            }
            lemma_lookup_absent(earlier, last_key);
        }
        lemma_lookup_upsert(
            so_far,
            last_key,
            merged(or_null(lookup(so_far, last_key)), last_value),
            key,
        );
    }
}

/// Deep merge, key by key: under a key that `theirs` holds, the merged
/// mapping holds the merge of both values, which is their value unless both
/// values are mappings; under any other key it holds what `ours` held.
pub proof fn lemma_merge_lookup(ours: Seq<(Node, Node)>, theirs: Seq<(Node, Node)>, key: Node)
    requires
        distinct_keys(theirs),
    ensures
        merged(Node::Mapping(ours), Node::Mapping(theirs)) matches Node::Mapping(both) && lookup(
            both,
            key,
        ) == match lookup(theirs, key) {
            Some(value) => Some(merged(or_null(lookup(ours, key)), value)),
            None => lookup(ours, key),
        },
{
    lemma_merged_entries_lookup(ours, theirs, theirs.len(), key);
    assert(theirs.take(theirs.len() as int) == theirs);
}

/// The value under all its tags.
pub open spec fn untagged(node: Node) -> Node
    decreases node,
{
    match node {
        Node::Tagged(_, inner) => untagged(*inner),
        _ => node,
    }
}

/// What a mapping, under its tags, holds under the string key `key`; none
/// where the value is no mapping or holds no such key.
pub open spec fn field(node: Node, key: Seq<char>) -> Option<Node> {
    match untagged(node) {
        Node::Mapping(entries) => lookup(entries, Node::Text(key)),
        _ => None,
    }
}

/// The text of a string value, under its tags; none for any other value.
pub open spec fn text_of(node: Node) -> Option<Seq<char>> {
    match untagged(node) {
        Node::Text(text) => Some(text),
        _ => None,
    }
}

impl Data {
    /// This value under all its tags.
    pub fn untag_ref(&self) -> (out: &Data)
        ensures
            out@ == untagged(self@),
            !(out is Tagged),
        decreases self,
    {
        proof {
            lemma_view(*self);
        }
        match self {
            Data::Tagged(_, inner) => inner.untag_ref(),
            _ => self,
        }
    }

    /// The value stored under the string key `key` ([`field`]).
    pub fn get(&self, key: &str) -> (out: Option<&Data>)
        ensures
            match out {
                Some(found) => field(self@, key@) == Some(found@),
                None => field(self@, key@) is None,
            },
    {
        let inner = self.untag_ref();
        proof {
            lemma_view(*inner);
        }
        match inner {
            Data::Mapping(entries) => {
                let wanted = Data::Text(key.to_owned());
                match find_key(entries, &wanted) {
                    Some(at) => {
                        proof {
                            lemma_found(entries_of(entries@), wanted@, at as int, Node::Null);
                        }
                        Some(&entries[at].1)
                    },
                    None => {
                        proof {
                            lemma_lookup_absent(entries_of(entries@), wanted@);
                        }
                        None
                    },
                }
            },
            _ => None,
        }
    }

    /// The text of a string value ([`text_of`]).
    pub fn as_str(&self) -> (out: Option<&str>)
        ensures
            match out {
                Some(text) => text_of(self@) == Some(text@),
                None => text_of(self@) is None,
            },
    {
        match self.untag_ref() {
            Data::Text(text) => Some(text.as_str()),
            _ => None,
        }
    }
}

/// Every mapping in the value holds each of its keys once.
pub open spec fn well_formed(node: Node) -> bool
    decreases node,
{
    match node {
        Node::Mapping(entries) => distinct_keys(entries) && forall|i: int|
            0 <= i < entries.len() ==> well_formed(#[trigger] entries[i].1),
        _ => true,
    }
}

/// Merging the first `n` entries of a mapping into the mapping itself
/// changes nothing, where merging each value into itself changes nothing.
proof fn lemma_merge_entries_self(entries: Seq<(Node, Node)>, n: nat)
    requires
        distinct_keys(entries),
        n <= entries.len(),
        forall|i: int|
            0 <= i < entries.len() ==> merged(#[trigger] entries[i].1, entries[i].1)
                == entries[i].1,
    ensures
        merged_entries(entries, entries, n) == entries,
    decreases n,
{
    if n > 0 {
        lemma_merge_entries_self(entries, (n - 1) as nat);
        let key = entries[n - 1].0;
        let value = entries[n - 1].1;
        assert(first_at(entries, key, n - 1));
        lemma_found(entries, key, n - 1, value);
        assert(entries.update(n - 1, (key, value)) =~= entries);
    }
}

/// Merging a value into itself changes nothing.
pub proof fn lemma_merge_self(node: Node)
    requires
        well_formed(node),
    ensures
        merged(node, node) == node,
    decreases node,
{
    match node {
        Node::Mapping(entries) => {
            assert forall|i: int| 0 <= i < entries.len() implies merged(
                #[trigger] entries[i].1,
                entries[i].1,
            ) == entries[i].1 by {
                assert(decreases_to!(node => node->Mapping_0[i].1));
                lemma_merge_self(entries[i].1);
            }
            lemma_merge_entries_self(entries, entries.len());
        },
        _ => {},
    }
}

/// The entries of a mapping that the first `n` pairs are stored in, one
/// after another: a later pair takes the place of an earlier one of its key.
pub open spec fn gathered(pairs: Seq<(Node, Node)>, n: nat) -> Seq<(Node, Node)>
    decreases n,
{
    if n == 0 || n > pairs.len() {
        Seq::empty()
    } else {
        upsert(gathered(pairs, (n - 1) as nat), pairs[n - 1].0, pairs[n - 1].1)
    }
}

/// The entries of a mapping that the pairs are stored in, one after another.
pub fn gather(pairs: &Vec<(Data, Data)>) -> (out: Vec<(Data, Data)>)
    ensures
        entries_of(out@) == gathered(entries_of(pairs@), pairs.len() as nat),
{
    let mut out: Vec<(Data, Data)> = Vec::new();
    let mut i: usize = 0;
    assert(entries_of(out@) =~= Seq::empty());
    while i < pairs.len()
        invariant
            i <= pairs.len(),
            entries_of(out@) == gathered(entries_of(pairs@), i as nat),
        decreases pairs.len() - i,
    {
        let ghost so_far = entries_of(out@);
        let ghost key = pairs@[i as int].0@;
        let value = pairs[i].1.deep_clone();
        match find_key(&out, &pairs[i].0) {
            Some(at) => {
                proof {
                    lemma_found(so_far, key, at as int, value@);
                }
                let (own_key, _) = out.remove(at);
                out.insert(at, (own_key, value));
                assert(entries_of(out@) =~= so_far.update(at as int, (key, value@)));
            },
            None => {
                proof {
                    lemma_missing(so_far, key, value@);
                }
                let own_key = pairs[i].0.deep_clone();
                out.push((own_key, value));
                assert(entries_of(out@) =~= so_far.push((key, value@)));
            },
        }
        i += 1;
    }
    out
}

} // verus!
