use vstd::prelude::*;
use vstd::string::*;
use crate::data::{
    entries_of, gather, gathered, lemma_view, nodes_of, Data, Node, Num, Quantity,
};
use crate::text::{
    decimal, decimal_chars, opt_text, same_text, signed_decimal, signed_decimal_chars, string_of,
};
use serde_json::Value as Json;

verus! {

/// A document as the JSON parser holds it.
#[verifier::external_type_specification]
#[verifier::external_body]
pub struct ExJsonValue(serde_json::Value);

/// What a parsed document holds: null, truth values, numbers, texts,
/// arrays as sequences, objects as mappings with text keys, entry by entry
/// in their order.
pub uninterp spec fn json_node(value: serde_json::Value) -> Node;

/// What `serde_json::from_str` reads from `text` as one JSON document; none
/// where it reports an error.
pub uninterp spec fn json_document(text: Seq<char>) -> Option<Node>;

/// Hands out what a parsed `serde_json::Value` holds as a [`Data`], variant
/// by variant: an array as a sequence, an object as a mapping with text
/// keys in the order of its entries, a number by its readings as an integer
/// and by its text.
#[verifier::external_body]
fn data_from_json(j: Json) -> (out: Data)
    ensures
        out@ == json_node(j),
{
    match j {
        Json::Null => Data::Null,
        Json::Bool(b) => Data::Bool(b),
        Json::Number(n) => Data::Num(Num::from_parts(n.as_u64(), n.as_i64(), n.to_string())),
        Json::String(s) => Data::Text(s),
        Json::Array(v) => Data::Sequence(v.into_iter().map(data_from_json).collect()),
        Json::Object(m) => Data::Mapping(
            m.into_iter().map(|(k, v)| (Data::Text(k), data_from_json(v))).collect(),
        ),
    }
}

/// Calls `serde_json::from_str` for a `serde_json::Value`. The contract
/// names the outcome ([`json_document`]) and claims nothing else of the
/// parser.
#[verifier::external_body]
fn json_from_str(text: &str) -> (out: Option<Json>)
    ensures
        match out {
            Some(value) => json_document(text@) == Some(json_node(value)),
            None => json_document(text@) is None,
        },
{
    serde_json::from_str::<Json>(text).ok()
}

/// The JSON text that `serde_json` writes for a value in JSON form
/// ([`json_form`]): compact, the entries of a mapping in order, a float that
/// JSON cannot hold as null.
pub uninterp spec fn json_text(value: Node) -> Seq<char>;

/// The text of a key that is a text; the empty text for any other value.
pub open spec fn plain_key(key: Node) -> Seq<char> {
    match key {
        Node::Text(text) => text,
        _ => Seq::empty(),
    }
}

/// The text of a key that is a text.
fn plain_key_of(key: &Data) -> (out: String)
    ensures
        out@ == plain_key(key@),
{
    match key {
        Data::Text(text) => text.clone(),
        _ => String::new(),
    }
}

/// Moves a [`Num`] into a `serde_json::Value`: an integer as it is, a
/// float from its text, null where JSON has no such number.
#[verifier::external_body]
fn json_number(n: &Num) -> Json {
    match n {
        Num::PosInt(u) => Json::from(*u),
        Num::NegInt(i) => Json::from(*i),
        Num::Float(text) => serde_json::from_str(text).unwrap_or(Json::Null),
    }
}

/// Moves a [`Data`] in JSON form into a `serde_json::Value`, variant by
/// variant: a number by [`json_number`], a sequence as an array, a mapping
/// as an object under the texts of its keys.
#[verifier::external_body]
fn json_from_data(d: &Data) -> Json {
    match d {
        Data::Null => Json::Null,
        Data::Bool(b) => Json::Bool(*b),
        Data::Num(n) => json_number(n),
        Data::Text(s) => Json::String(s.clone()),
        Data::Sequence(v) => Json::Array(v.iter().map(json_from_data).collect()),
        Data::Mapping(m) => Json::Object(m.iter().map(|(k, v)| (plain_key_of(k), json_from_data(v))).collect()),
        Data::Tagged(_, inner) => json_from_data(inner),
    }
}

/// Writes a value in JSON form as JSON with `to_string` of
/// `serde_json::Value`. The contract names that text ([`json_text`]) and
/// claims nothing else of it.
#[verifier::external_body]
fn json_to_string(value: &Data) -> (out: String)
    ensures
        out@ == json_text(value@),
{
    json_from_data(value).to_string()
}

/// The text under which JSON holds a key: a text as it is, a truth value as
/// `true` or `false`, an integer in decimal, a float as JSON writes it; none
/// for a float that JSON cannot hold and for any other value, which cannot
/// be a key.
pub open spec fn json_key_text(key: Node) -> Option<Seq<char>> {
    match key {
        Node::Text(text) => Some(text),
        Node::Bool(b) => Some(
            if b {
                "true"@
            } else {
                "false"@
            },
        ),
        Node::Num(Quantity::PosInt(u)) => Some(decimal(u as nat)),
        Node::Num(Quantity::NegInt(i)) => Some(signed_decimal(i as int)),
        Node::Num(Quantity::Float(_)) => if json_text(key) == "null"@ {
            None
        } else {
            Some(json_text(key))
        },
        _ => None,
    }
}

/// A value in JSON form: a tagged value as a mapping of one entry from its
/// tag to what it holds, every key of a mapping as its text, a later entry
/// in the place of an earlier one of the same text; none where a key
/// cannot be one.
pub open spec fn json_form(node: Node) -> Option<Node>
    decreases node, 0nat,
{
    match node {
        Node::Sequence(items) => match form_items(items, items.len()) {
            Some(forms) => Some(Node::Sequence(forms)),
            None => None,
        },
        Node::Mapping(entries) => match form_entries(entries, entries.len()) {
            Some(pairs) => Some(Node::Mapping(gathered(pairs, pairs.len()))),
            None => None,
        },
        Node::Tagged(tag, inner) => match json_form(*inner) {
            Some(form) => Some(Node::Mapping(seq![(Node::Text(tag), form)])),
            None => None,
        },
        _ => Some(node),
    }
}

/// The first `n` items in JSON form; none where one of them has none.
pub open spec fn form_items(items: Seq<Node>, n: nat) -> Option<Seq<Node>>
    decreases items, n,
{
    if n == 0 || n > items.len() {
        Some(Seq::empty())
    } else {
        match form_items(items, (n - 1) as nat) {
            Some(before) => match json_form(items[n - 1]) {
                Some(form) => Some(before.push(form)),
                None => None,
            },
            None => None,
        }
    }
}

/// The first `n` entries, each under the text of its key and in JSON form;
/// none where a key cannot be one or a value has no JSON form.
pub open spec fn form_entries(entries: Seq<(Node, Node)>, n: nat) -> Option<Seq<(Node, Node)>>
    decreases entries, n,
{
    if n == 0 || n > entries.len() {
        Some(Seq::empty())
    } else {
        match form_entries(entries, (n - 1) as nat) {
            Some(before) => match json_key_text(entries[n - 1].0) {
                Some(key) => match json_form(entries[n - 1].1) {
                    Some(form) => Some(before.push((Node::Text(key), form))),
                    None => None,
                },
                None => None,
            },
            None => None,
        }
    }
}

/// Once an item has no JSON form, the items have none.
proof fn lemma_form_items_fails(items: Seq<Node>, n: nat, m: nat)
    requires
        n <= m <= items.len(),
        form_items(items, n) is None,
    ensures
        form_items(items, m) is None,
    decreases m,
{
    if n < m {
        lemma_form_items_fails(items, n, (m - 1) as nat);
    }
}

/// Once an entry has no JSON form, the entries have none.
proof fn lemma_form_entries_fails(entries: Seq<(Node, Node)>, n: nat, m: nat)
    requires
        n <= m <= entries.len(),
        form_entries(entries, n) is None,
    ensures
        form_entries(entries, m) is None,
    decreases m,
{
    if n < m {
        lemma_form_entries_fails(entries, n, (m - 1) as nat);
    }
}

/// The text under which JSON holds the key ([`json_key_text`]).
pub fn json_key(key: &Data) -> (out: Option<String>)
    ensures
        opt_text(out) == json_key_text(key@),
{
    match key {
        Data::Text(text) => Some(text.clone()),
        Data::Bool(b) => if *b {
            Some("true".to_owned())
        } else {
            Some("false".to_owned())
        },
        Data::Num(Num::PosInt(u)) => Some(string_of(&decimal_chars(*u))),
        Data::Num(Num::NegInt(i)) => Some(string_of(&signed_decimal_chars(*i))),
        Data::Num(Num::Float(_)) => {
            let text = json_to_string(key);
            if same_text(text.as_str(), "null") {
                None
            } else {
                Some(text)
            }
        },
        _ => None,
    }
}

/// The value in JSON form ([`json_form`]).
pub fn json_ready(value: &Data) -> (out: Option<Data>)
    ensures
        match out {
            Some(ready) => json_form(value@) == Some(ready@),
            None => json_form(value@) is None,
        },
    decreases value,
{
    proof {
        lemma_view(*value);
    }
    match value {
        Data::Sequence(items) => {
            let mut forms: Vec<Data> = Vec::new();
            let mut i: usize = 0;
            assert(nodes_of(forms@) =~= Seq::empty());
            while i < items.len()
                invariant
                    i <= items.len(),
                    *value == Data::Sequence(*items),
                    value@ == Node::Sequence(nodes_of(items@)),
                    form_items(nodes_of(items@), i as nat) == Some(nodes_of(forms@)),
                decreases items.len() - i,
            {
                assert(decreases_to!(*value => value->Sequence_0[i as int]));
                match json_ready(&items[i]) {
                    Some(form) => {
                        let ghost before = forms@;
                        forms.push(form);
                        assert(nodes_of(forms@) == nodes_of(before).push(form@));
                    },
                    None => {
                        proof {
                            assert(nodes_of(items@)[i as int] == items@[i as int]@);
                            assert(form_items(nodes_of(items@), (i + 1) as nat) is None);
                            lemma_form_items_fails(
                                nodes_of(items@),
                                (i + 1) as nat,
                                items.len() as nat,
                            );
                        }
                        return None;
                    },
                }
                i += 1;
            }
            let out = Data::Sequence(forms);
            proof {
                lemma_view(out);
            }
            Some(out)
        },
        Data::Mapping(entries) => {
            let mut pairs: Vec<(Data, Data)> = Vec::new();
            let mut i: usize = 0;
            assert(entries_of(pairs@) =~= Seq::empty());
            while i < entries.len()
                invariant
                    i <= entries.len(),
                    *value == Data::Mapping(*entries),
                    value@ == Node::Mapping(entries_of(entries@)),
                    form_entries(entries_of(entries@), i as nat) == Some(entries_of(pairs@)),
                decreases entries.len() - i,
            {
                assert(decreases_to!(*value => value->Mapping_0[i as int].1));
                let key = match json_key(&entries[i].0) {
                    Some(key) => key,
                    None => {
                        proof {
                            assert(entries_of(entries@)[i as int] == (
                                entries@[i as int].0@,
                                entries@[i as int].1@,
                            ));
                            assert(form_entries(entries_of(entries@), (i + 1) as nat) is None);
                            lemma_form_entries_fails(
                                entries_of(entries@),
                                (i + 1) as nat,
                                entries.len() as nat,
                            );
                        }
                        return None;
                    },
                };
                match json_ready(&entries[i].1) {
                    Some(form) => {
                        let ghost before = pairs@;
                        let held = Data::Text(key);
                        pairs.push((held, form));
                        assert(entries_of(pairs@) == entries_of(before).push((held@, form@)));
                    },
                    None => {
                        proof {
                            assert(entries_of(entries@)[i as int] == (
                                entries@[i as int].0@,
                                entries@[i as int].1@,
                            ));
                            assert(form_entries(entries_of(entries@), (i + 1) as nat) is None);
                            lemma_form_entries_fails(
                                entries_of(entries@),
                                (i + 1) as nat,
                                entries.len() as nat,
                            );
                        }
                        return None;
                    },
                }
                i += 1;
            }
            let out = Data::Mapping(gather(&pairs));
            proof {
                lemma_view(out);
            }
            Some(out)
        },
        Data::Tagged(tag, inner) => match json_ready(inner) {
            Some(form) => {
                let mut pairs: Vec<(Data, Data)> = Vec::new();
                let held = Data::Text(tag.clone());
                pairs.push((held, form));
                let out = Data::Mapping(pairs);
                proof {
                    lemma_view(out);
                    assert(entries_of(pairs@) =~= seq![(held@, form@)]);
                }
                Some(out)
            },
            None => None,
        },
        _ => Some(value.deep_clone()),
    }
}

/// A value as JSON text: its JSON form as `serde_json` writes it; none
/// where the value has no JSON form.
pub open spec fn json_written(node: Node) -> Option<Seq<char>> {
    match json_form(node) {
        Some(form) => Some(json_text(form)),
        None => None,
    }
}

/// A value as JSON text ([`json_written`]).
pub fn to_json_text(value: &Data) -> (out: Option<String>)
    ensures
        opt_text(out) == json_written(value@),
{
    match json_ready(value) {
        Some(ready) => Some(json_to_string(&ready)),
        None => None,
    }
}

/// Reads `text` as one JSON document; none where it is none.
pub fn parse_json(text: &str) -> (out: Option<Data>)
    ensures
        match out {
            Some(value) => json_document(text@) == Some(value@),
            None => json_document(text@) is None,
        },
{
    match json_from_str(text) {
        Some(value) => Some(data_from_json(value)),
        None => None,
    }
}

} // verus!
