use vstd::prelude::*;
use vstd::string::*;
use std::fmt::Write;
use crate::data::{
    entries_of, find_key, gather, gathered, lemma_found, lemma_lookup_absent, lemma_view, lookup,
    nodes_of, Data, Node, Num, Quantity,
};
use crate::json::{json_written, to_json_text};
use crate::text::opt_text;
use crate::sorting::{arrange, arranged, positions};
use crate::text::{chars_of, same_text, seqs_of};

verus! {

/// Why a template helper could not do its work.
#[derive(Debug, Clone, Copy, PartialEq, Eq, Structural)]
pub enum HelperError {
    ValueNotFound,
    StartNotFound,
    EndNotFound,
    ArrayNotFound,
    ObjectNotFound,
    SortByNotFound,
    SortByNotText,
    OrderNotFound,
    OrderNotText,
    OrderUnknown,
    ParameterMissing,
    KeyNotText,
    DateNotNumber,
    FormatNotText,
    DateFailed,
}

impl HelperError {
    /// The message that the template engine reports.
    pub fn message(&self) -> (out: &'static str)
        ensures
            out@ == match *self {
                HelperError::ValueNotFound => "Object/Array not found"@,
                HelperError::StartNotFound => "Start index not found"@,
                HelperError::EndNotFound => "End index not found"@,
                HelperError::ArrayNotFound => "Array not found"@,
                HelperError::ObjectNotFound => "Object not found"@,
                HelperError::SortByNotFound => "Sort by not found"@,
                HelperError::SortByNotText => "Sort by must be a string"@,
                HelperError::OrderNotFound => "Order not found"@,
                HelperError::OrderNotText => "Order must be a string"@,
                HelperError::OrderUnknown => "Order must be either asc or desc"@,
                HelperError::ParameterMissing => "Expected parameter"@,
                HelperError::KeyNotText => "key must be a string"@,
                HelperError::DateNotNumber => "Date must be a string or number"@,
                HelperError::FormatNotText => "Format must be a string"@,
                HelperError::DateFailed => "Failed to parse date"@,
            },
    {
        match self {
            HelperError::ValueNotFound => "Object/Array not found",
            HelperError::StartNotFound => "Start index not found",
            HelperError::EndNotFound => "End index not found",
            HelperError::ArrayNotFound => "Array not found",
            HelperError::ObjectNotFound => "Object not found",
            HelperError::SortByNotFound => "Sort by not found",
            HelperError::SortByNotText => "Sort by must be a string",
            HelperError::OrderNotFound => "Order not found",
            HelperError::OrderNotText => "Order must be a string",
            HelperError::OrderUnknown => "Order must be either asc or desc",
            HelperError::ParameterMissing => "Expected parameter",
            HelperError::KeyNotText => "key must be a string",
            HelperError::DateNotNumber => "Date must be a string or number",
            HelperError::FormatNotText => "Format must be a string",
            HelperError::DateFailed => "Failed to parse date",
        }
    }
}

/// The parameter at `at`, if the helper was given that many.
pub open spec fn param(params: Seq<Node>, at: int) -> Option<Node> {
    if 0 <= at < params.len() {
        Some(params[at])
    } else {
        None
    }
}

/// A parameter as an index: a non-negative integer.
pub open spec fn index_of(found: Option<Node>) -> Option<u64> {
    match found {
        Some(Node::Num(Quantity::PosInt(index))) => Some(index),
        _ => None,
    }
}

/// Those of the first `n` items whose position is from `start` up to and
/// including `end`, in order.
pub open spec fn window<T>(items: Seq<T>, n: nat, start: int, end: int) -> Seq<T>
    decreases n,
{
    if n == 0 || n > items.len() {
        Seq::empty()
    } else if start <= n - 1 <= end {
        window(items, (n - 1) as nat, start, end).push(items[n - 1])
    } else {
        window(items, (n - 1) as nat, start, end)
    }
}

/// What `slice` gives: the items of a sequence, or the entries of a
/// mapping, at the positions from the second parameter up to and including
/// the third.
pub open spec fn sliced(params: Seq<Node>) -> Result<Node, HelperError> {
    if params.len() == 0 {
        Err(HelperError::ValueNotFound)
    } else if index_of(param(params, 1)) is None {
        Err(HelperError::StartNotFound)
    } else if index_of(param(params, 2)) is None {
        Err(HelperError::EndNotFound)
    } else {
        let start = index_of(param(params, 1))->0 as int;
        let end = index_of(param(params, 2))->0 as int;
        match params[0] {
            Node::Sequence(items) => Ok(Node::Sequence(window(items, items.len(), start, end))),
            Node::Mapping(entries) => Ok(
                Node::Mapping(window(entries, entries.len(), start, end)),
            ),
            _ => Err(HelperError::ValueNotFound),
        }
    }
}

/// The content of a helper's result.
pub open spec fn result_view(out: Result<Data, HelperError>) -> Result<Node, HelperError> {
    match out {
        Ok(data) => Ok(data@),
        Err(e) => Err(e),
    }
}

/// The parameter at `at` as an index.
fn index_param(params: &Vec<Data>, at: usize) -> (out: Option<u64>)
    ensures
        out == index_of(param(nodes_of(params@), at as int)),
{
    if at < params.len() {
        match &params[at] {
            Data::Num(Num::PosInt(index)) => Some(*index),
            _ => None,
        }
    } else {
        None
    }
}

/// The template helper `slice`.
#[derive(Clone, Copy, Debug)]
pub struct SliceHelper;

impl SliceHelper {
    /// A part of a sequence or of a mapping ([`sliced`]).
    pub fn call_inner(&self, params: &Vec<Data>) -> (out: Result<Data, HelperError>)
        ensures
            result_view(out) == sliced(nodes_of(params@)),
    {
        if params.len() == 0 {
            return Err(HelperError::ValueNotFound);
        }
        let start = match index_param(params, 1) {
            Some(start) => start,
            None => {
                return Err(HelperError::StartNotFound);
            },
        };
        let end = match index_param(params, 2) {
            Some(end) => end,
            None => {
                return Err(HelperError::EndNotFound);
            },
        };
        proof {
            lemma_view(params@[0]);
        }
        match &params[0] {
            Data::Sequence(items) => {
                let mut kept: Vec<Data> = Vec::new();
                let mut i: usize = 0;
                assert(nodes_of(kept@) =~= Seq::empty());
                while i < items.len()
                    invariant
                        i <= items.len(),
                        nodes_of(kept@) == window(
                            nodes_of(items@),
                            i as nat,
                            start as int,
                            end as int,
                        ),
                    decreases items.len() - i,
                {
                    if (i as u64) >= start && (i as u64) <= end {
                        let ghost before = kept@;
                        let item = items[i].deep_clone();
                        kept.push(item);
                        assert(nodes_of(kept@) == nodes_of(before).push(item@));
                    }
                    i += 1;
                }
                let out = Data::Sequence(kept);
                proof {
                    lemma_view(out);
                }
                Ok(out)
            },
            Data::Mapping(entries) => {
                let mut kept: Vec<(Data, Data)> = Vec::new();
                let mut i: usize = 0;
                assert(entries_of(kept@) =~= Seq::empty());
                while i < entries.len()
                    invariant
                        i <= entries.len(),
                        entries_of(kept@) == window(
                            entries_of(entries@),
                            i as nat,
                            start as int,
                            end as int,
                        ),
                    decreases entries.len() - i,
                {
                    if (i as u64) >= start && (i as u64) <= end {
                        let ghost before = kept@;
                        let key = entries[i].0.deep_clone();
                        let value = entries[i].1.deep_clone();
                        kept.push((key, value));
                        assert(entries_of(kept@) == entries_of(before).push((key@, value@)));
                    }
                    i += 1;
                }
                let out = Data::Mapping(kept);
                proof {
                    lemma_view(out);
                }
                Ok(out)
            },
            _ => Err(HelperError::ValueNotFound),
        }
    }
}

/// The template helper `stringify`.
#[derive(Clone, Copy, Debug)]
pub struct StringifyHelper;

/// What `stringify` gives: the first parameter as JSON text; an error
/// where a mapping in it has a key that JSON cannot hold.
pub open spec fn stringified(params: Seq<Node>) -> Result<Seq<char>, HelperError> {
    if params.len() == 0 {
        Err(HelperError::ParameterMissing)
    } else {
        match json_written(params[0]) {
            Some(text) => Ok(text),
            None => Err(HelperError::KeyNotText),
        }
    }
}

/// The text of a helper's result.
pub open spec fn text_view(out: Result<String, HelperError>) -> Result<Seq<char>, HelperError> {
    match out {
        Ok(text) => Ok(text@),
        Err(e) => Err(e),
    }
}

impl StringifyHelper {
    /// The first parameter as JSON text ([`stringified`]).
    pub fn call(&self, params: &Vec<Data>) -> (out: Result<String, HelperError>)
        ensures
            text_view(out) == stringified(nodes_of(params@)),
    {
        if params.len() == 0 {
            Err(HelperError::ParameterMissing)
        } else {
            match to_json_text(&params[0]) {
                Some(text) => Ok(text),
                None => Err(HelperError::KeyNotText),
            }
        }
    }
}

/// The date and time, in UTC, of `millis` milliseconds after the beginning
/// of 1970, as `chrono` writes it in the format `format`; none where the
/// moment is out of range or the format is not one.
pub uninterp spec fn utc_text(millis: i64, format: Seq<char>) -> Option<Seq<char>>;

/// Makes the moment with `chrono::DateTime::from_timestamp_millis` and
/// writes what its `format` gives. The contract names the outcome
/// ([`utc_text`]) and claims nothing else of it.
#[verifier::external_body]
fn format_millis(millis: i64, format: &str) -> (out: Option<String>)
    ensures
        opt_text(out) == utc_text(millis, format@),
{
    let moment = chrono::DateTime::from_timestamp_millis(millis)?;
    let mut out = String::new();
    write!(out, "{}", moment.format(format)).ok()?;
    Some(out)
}

/// A number as a count of milliseconds: an integer that a signed 64-bit
/// number holds.
pub open spec fn millis_of(number: Quantity) -> Option<i64> {
    match number {
        Quantity::PosInt(u) => if u <= i64::MAX {
            Some(u as i64)
        } else {
            None
        },
        Quantity::NegInt(i) => Some(i),
        Quantity::Float(_) => None,
    }
}

/// What `format-date` gives: the moment that the first parameter counts in
/// milliseconds, written in the format of the second.
pub open spec fn formatted_date(params: Seq<Node>) -> Result<Seq<char>, HelperError> {
    if params.len() < 2 {
        Err(HelperError::ParameterMissing)
    } else {
        match params[0] {
            Node::Num(number) => match millis_of(number) {
                None => Err(HelperError::DateFailed),
                Some(millis) => match params[1] {
                    Node::Text(format) => match utc_text(millis, format) {
                        Some(text) => Ok(text),
                        None => Err(HelperError::DateFailed),
                    },
                    _ => Err(HelperError::FormatNotText),
                },
            },
            _ => Err(HelperError::DateNotNumber),
        }
    }
}

/// The template helper `format-date`.
#[derive(Clone, Copy, Debug)]
pub struct DateFormaterHelper;

impl DateFormaterHelper {
    /// A moment as text ([`formatted_date`]).
    pub fn call(&self, params: &Vec<Data>) -> (out: Result<String, HelperError>)
        ensures
            text_view(out) == formatted_date(nodes_of(params@)),
    {
        if params.len() < 2 {
            return Err(HelperError::ParameterMissing);
        }
        let millis = match &params[0] {
            Data::Num(Num::PosInt(u)) => {
                if *u <= 0x7fff_ffff_ffff_ffff {
                    *u as i64
                } else {
                    return Err(HelperError::DateFailed);
                }
            },
            Data::Num(Num::NegInt(i)) => *i,
            Data::Num(Num::Float(_)) => {
                return Err(HelperError::DateFailed);
            },
            _ => {
                return Err(HelperError::DateNotNumber);
            },
        };
        match &params[1] {
            Data::Text(format) => match format_millis(millis, format.as_str()) {
                Some(text) => Ok(text),
                None => Err(HelperError::DateFailed),
            },
            _ => Err(HelperError::FormatNotText),
        }
    }
}

/// The text by which an entry is sorted: the JSON text of what its value
/// holds under `sort_by`, of the empty text where it holds nothing there;
/// none where the value is no mapping or what it holds there has no JSON
/// text.
pub open spec fn sort_key(value: Node, sort_by: Seq<char>) -> Option<Seq<char>> {
    match value {
        Node::Mapping(fields) => match lookup(fields, Node::Text(sort_by)) {
            Some(found) => json_written(found),
            None => json_written(Node::Text(Seq::empty())),
        },
        _ => None,
    }
}

/// The sort key of each entry.
pub open spec fn sort_keys(entries: Seq<(Node, Node)>, sort_by: Seq<char>) -> Seq<Seq<char>> {
    Seq::new(entries.len(), |i: int| sort_key(entries[i].1, sort_by)->0)
}

/// Every entry holds a mapping.
pub open spec fn all_mappings(entries: Seq<(Node, Node)>) -> bool {
    forall|i: int| 0 <= i < entries.len() ==> (#[trigger] entries[i]).1 is Mapping
}

/// Every entry has a sort key.
pub open spec fn all_keyed(entries: Seq<(Node, Node)>, sort_by: Seq<char>) -> bool {
    forall|i: int| 0 <= i < entries.len() ==> sort_key((#[trigger] entries[i]).1, sort_by) is Some
}

/// The entries in the order `order`.
pub open spec fn reordered(entries: Seq<(Node, Node)>, order: Seq<int>) -> Seq<(Node, Node)> {
    Seq::new(order.len(), |p: int| entries[order[p]])
}

/// What `sort-by` gives: the entries of the mapping in the first
/// parameter, sorted by what their values hold under the key in the second.
/// The third parameter gives the direction: with `asc` the entry with the
/// greatest sort key comes first, with `desc` the one with the smallest.
/// Entries of equal sort key keep their order.
pub open spec fn sorted_by(params: Seq<Node>) -> Result<Node, HelperError> {
    if params.len() == 0 {
        Err(HelperError::ArrayNotFound)
    } else {
        match params[0] {
            Node::Mapping(entries) => match param(params, 1) {
                None => Err(HelperError::SortByNotFound),
                Some(Node::Text(sort_by)) => match param(params, 2) {
                    None => Err(HelperError::OrderNotFound),
                    Some(Node::Text(direction)) => if direction != "asc"@ && direction
                        != "desc"@ {
                        Err(HelperError::OrderUnknown)
                    } else if !all_mappings(entries) {
                        Err(HelperError::ObjectNotFound)
                    } else if !all_keyed(entries, sort_by) {
                        Err(HelperError::KeyNotText)
                    } else {
                        let order = arranged(
                            sort_keys(entries, sort_by),
                            entries.len(),
                            direction == "asc"@,
                        );
                        Ok(Node::Mapping(gathered(reordered(entries, order), entries.len())))
                    },
                    Some(_) => Err(HelperError::OrderNotText),
                },
                Some(_) => Err(HelperError::SortByNotText),
            },
            _ => Err(HelperError::ObjectNotFound),
        }
    }
}

/// Whether every entry holds a mapping.
fn holds_mappings(entries: &Vec<(Data, Data)>) -> (out: bool)
    ensures
        out == all_mappings(entries_of(entries@)),
{
    let mut i: usize = 0;
    while i < entries.len()
        invariant
            i <= entries.len(),
            forall|k: int| 0 <= k < i ==> (#[trigger] entries_of(entries@)[k]).1 is Mapping,
        decreases entries.len() - i,
    {
        proof {
            lemma_view(entries@[i as int].1);
        }
        match &entries[i].1 {
            Data::Mapping(_) => {},
            _ => {
                assert(!(entries_of(entries@)[i as int].1 is Mapping));
                return false;
            },
        }
        i += 1;
    }
    true
}

/// The sort key of each entry; none where an entry has none.
fn sort_keys_of(entries: &Vec<(Data, Data)>, sort_by: &str) -> (out: Option<Vec<Vec<char>>>)
    ensures
        match out {
            Some(keys) => all_keyed(entries_of(entries@), sort_by@) && seqs_of(keys@) == sort_keys(
                entries_of(entries@),
                sort_by@,
            ),
            None => !all_keyed(entries_of(entries@), sort_by@),
        },
{
    let wanted = Data::Text(sort_by.to_owned());
    let mut keys: Vec<Vec<char>> = Vec::new();
    let mut i: usize = 0;
    while i < entries.len()
        invariant
            i <= entries.len(),
            wanted@ == Node::Text(sort_by@),
            forall|k: int|
                0 <= k < i ==> sort_key((#[trigger] entries_of(entries@)[k]).1, sort_by@) is Some,
            seqs_of(keys@) == sort_keys(entries_of(entries@), sort_by@).take(i as int),
        decreases entries.len() - i,
    {
        proof {
            lemma_view(entries@[i as int].1);
        }
        let key = match &entries[i].1 {
            Data::Mapping(fields) => match find_key(fields, &wanted) {
                Some(at) => {
                    proof {
                        lemma_found(entries_of(fields@), wanted@, at as int, Node::Null);
                    }
                    to_json_text(&fields[at].1)
                },
                None => {
                    proof {
                        lemma_lookup_absent(entries_of(fields@), wanted@);
                    }
                    let nothing = Data::Text(String::new());
                    to_json_text(&nothing)
                },
            },
            _ => None,
        };
        assert(opt_text(key) == sort_key(entries_of(entries@)[i as int].1, sort_by@));
        let key = match key {
            Some(key) => key,
            None => {
                return None;
            },
        };
        let chars = chars_of(key.as_str());
        let ghost before = keys@;
        keys.push(chars);
        assert(seqs_of(keys@) == seqs_of(before).push(chars@));
        i += 1;
    }
    assert(sort_keys(entries_of(entries@), sort_by@).take(entries.len() as int) == sort_keys(
        entries_of(entries@),
        sort_by@,
    ));
    Some(keys)
}

/// The template helper `sort-by`.
#[derive(Clone, Copy, Debug)]
pub struct SortByHelper;

impl SortByHelper {
    /// The entries of a mapping in sorted order ([`sorted_by`]).
    pub fn call_inner(&self, params: &Vec<Data>) -> (out: Result<Data, HelperError>)
        ensures
            result_view(out) == sorted_by(nodes_of(params@)),
    {
        if params.len() == 0 {
            return Err(HelperError::ArrayNotFound);
        }
        proof {
            lemma_view(params@[0]);
        }
        let entries = match &params[0] {
            Data::Mapping(entries) => entries,
            _ => {
                return Err(HelperError::ObjectNotFound);
            },
        };
        if params.len() < 2 {
            return Err(HelperError::SortByNotFound);
        }
        let sort_by = match &params[1] {
            Data::Text(sort_by) => sort_by,
            _ => {
                return Err(HelperError::SortByNotText);
            },
        };
        if params.len() < 3 {
            return Err(HelperError::OrderNotFound);
        }
        let direction = match &params[2] {
            Data::Text(direction) => direction,
            _ => {
                return Err(HelperError::OrderNotText);
            },
        };
        let descending = same_text(direction.as_str(), "asc");
        if !descending && !same_text(direction.as_str(), "desc") {
            return Err(HelperError::OrderUnknown);
        }
        if !holds_mappings(entries) {
            return Err(HelperError::ObjectNotFound);
        }
        let keys = match sort_keys_of(entries, sort_by.as_str()) {
            Some(keys) => keys,
            None => {
                return Err(HelperError::KeyNotText);
            },
        };
        let order = arrange(&keys, descending);
        proof {
            crate::sorting::lemma_arranged(seqs_of(keys@), keys.len() as nat, descending);
        }
        let mut pairs: Vec<(Data, Data)> = Vec::new();
        let mut p: usize = 0;
        while p < order.len()
            invariant
                p <= order.len(),
                order.len() == entries.len(),
                forall|k: int| 0 <= k < order.len() ==> 0 <= #[trigger] positions(order@)[k]
                    < entries.len(),
                entries_of(pairs@) == reordered(entries_of(entries@), positions(order@)).take(
                    p as int,
                ),
            decreases order.len() - p,
        {
            assert(0 <= positions(order@)[p as int] < entries.len());
            let at = order[p];
            let key = entries[at].0.deep_clone();
            let value = entries[at].1.deep_clone();
            let ghost before = pairs@;
            pairs.push((key, value));
            assert(entries_of(pairs@) == entries_of(before).push((key@, value@)));
            p += 1;
        }
        assert(reordered(entries_of(entries@), positions(order@)).take(order.len() as int)
            == reordered(entries_of(entries@), positions(order@)));
        let out = Data::Mapping(gather(&pairs));
        proof {
            lemma_view(out);
        }
        Ok(out)
    }
}

} // verus!
