use rustyink::data::{same_data, Data, Num};
use rustyink::helpers::{
    DateFormaterHelper, HelperError, SliceHelper, SortByHelper, StringifyHelper,
};
use rustyink::json::parse_json;
use rustyink::sorting::arrange;
use rustyink::text::{chars_of, text_less};

fn json(text: &str) -> Data {
    parse_json(text).unwrap()
}

fn text(s: &str) -> Data {
    Data::Text(s.to_string())
}

fn uint(n: u64) -> Data {
    Data::Num(Num::PosInt(n))
}

fn order_of(keys: &[&str], descending: bool) -> Vec<usize> {
    arrange(&keys.iter().map(|k| chars_of(k)).collect(), descending)
}

#[test]
fn strings_are_ordered_like_std_orders_them() {
    let words = ["", "a", "ab", "b", "B", "é", "z", "aa", "ab ", "\u{10FFFF}", "1", "10", "9"];
    for a in words {
        for b in words {
            assert_eq!(text_less(&chars_of(a), &chars_of(b)), a < b, "{:?} < {:?}", a, b);
        }
    }
}

#[test]
fn arrange_sorts_ascending_and_keeps_equal_items_in_order() {
    assert_eq!(order_of(&["b", "a", "c", "a"], false), vec![1, 3, 0, 2]);
    assert_eq!(order_of(&[], false), Vec::<usize>::new());
    assert_eq!(order_of(&["x"], true), vec![0]);
}

#[test]
fn arrange_sorts_descending_and_keeps_equal_items_in_order() {
    assert_eq!(order_of(&["b", "a", "c", "a"], true), vec![2, 0, 1, 3]);
    assert_eq!(order_of(&["a", "a", "a"], true), vec![0, 1, 2]);
}

#[test]
fn arrange_agrees_with_a_stable_sort() {
    let keys = ["delta", "alpha", "charlie", "alpha", "bravo", "", "echo", "bravo"];
    let mut expected: Vec<usize> = (0..keys.len()).collect();
    expected.sort_by(|a, b| keys[*a].cmp(keys[*b]));
    assert_eq!(order_of(&keys, false), expected);
    let mut reversed: Vec<usize> = (0..keys.len()).collect();
    reversed.sort_by(|a, b| keys[*b].cmp(keys[*a]));
    assert_eq!(order_of(&keys, true), reversed);
}

#[test]
fn slice_of_a_sequence() {
    let out = SliceHelper.call_inner(&vec![json("[10, 20, 30, 40]"), uint(1), uint(2)]).unwrap();
    assert!(same_data(&out, &json("[20, 30]")));
    let all = SliceHelper.call_inner(&vec![json("[10, 20]"), uint(0), uint(99)]).unwrap();
    assert!(same_data(&all, &json("[10, 20]")));
    let none = SliceHelper.call_inner(&vec![json("[10, 20]"), uint(2), uint(1)]).unwrap();
    assert!(same_data(&none, &json("[]")));
    let one = SliceHelper.call_inner(&vec![json("[10, 20]"), uint(1), uint(1)]).unwrap();
    assert!(same_data(&one, &json("[20]")));
}

#[test]
fn slice_of_a_mapping() {
    let out =
        SliceHelper.call_inner(&vec![json("{\"a\": 1, \"b\": 2, \"c\": 3}"), uint(0), uint(1)]).unwrap();
    assert!(same_data(&out, &json("{\"a\": 1, \"b\": 2}")));
}

#[test]
fn slice_errors() {
    let check = |params: Vec<Data>, e: HelperError| {
        assert_eq!(SliceHelper.call_inner(&params).unwrap_err(), e);
    };
    check(vec![], HelperError::ValueNotFound);
    check(vec![json("[1]")], HelperError::StartNotFound);
    check(vec![json("[1]"), text("0"), uint(1)], HelperError::StartNotFound);
    check(vec![json("[1]"), uint(0)], HelperError::EndNotFound);
    check(vec![json("[1]"), uint(0), json("-1")], HelperError::EndNotFound);
    check(vec![text("x"), uint(0), uint(1)], HelperError::ValueNotFound);
    assert_eq!(HelperError::ValueNotFound.message(), "Object/Array not found");
    assert_eq!(HelperError::StartNotFound.message(), "Start index not found");
    assert_eq!(HelperError::EndNotFound.message(), "End index not found");
}

#[test]
fn stringify_writes_json() {
    assert_eq!(StringifyHelper.call(&vec![json("{\"a\": [1, \"x\"]}")]).unwrap(), "{\"a\":[1,\"x\"]}");
    assert_eq!(StringifyHelper.call(&vec![]).unwrap_err(), HelperError::ParameterMissing);
    let no_key = Data::Mapping(vec![(Data::Null, Data::Bool(true))]);
    assert_eq!(StringifyHelper.call(&vec![no_key]).unwrap_err(), HelperError::KeyNotText);
    assert_eq!(HelperError::KeyNotText.message(), "key must be a string");
}

#[test]
fn sort_by_a_field_without_json_text_is_an_error() {
    let bad = Data::Mapping(vec![(Data::Null, Data::Bool(true))]);
    let posts = Data::Mapping(vec![(
        text("a"),
        Data::Mapping(vec![(text("n"), bad)]),
    )]);
    assert_eq!(
        SortByHelper.call_inner(&vec![posts, text("n"), text("asc")]).unwrap_err(),
        HelperError::KeyNotText
    );
}

#[test]
fn format_date_writes_the_moment_in_utc() {
    let params = vec![uint(1_700_000_000_000), text("%Y-%m-%d %H:%M:%S")];
    assert_eq!(DateFormaterHelper.call(&params).unwrap(), "2023-11-14 22:13:20");
    let before = vec![Data::Num(Num::NegInt(-86_400_000)), text("%Y-%m-%d")];
    assert_eq!(DateFormaterHelper.call(&before).unwrap(), "1969-12-31");
    assert_eq!(DateFormaterHelper.call(&vec![uint(0), text("%A")]).unwrap(), "Thursday");
}

#[test]
fn format_date_errors() {
    let check = |params: Vec<Data>, e: HelperError| {
        assert_eq!(DateFormaterHelper.call(&params).unwrap_err(), e);
    };
    check(vec![], HelperError::ParameterMissing);
    check(vec![uint(0)], HelperError::ParameterMissing);
    check(vec![text("2023"), text("%Y")], HelperError::DateNotNumber);
    check(vec![uint(0), uint(1)], HelperError::FormatNotText);
    check(vec![json("1.5"), text("%Y")], HelperError::DateFailed);
    check(vec![uint(u64::MAX), text("%Y")], HelperError::DateFailed);
    check(vec![uint(i64::MAX as u64), text("%Y")], HelperError::DateFailed);
    check(vec![uint(0), text("%Q")], HelperError::DateFailed);
    assert_eq!(HelperError::DateNotNumber.message(), "Date must be a string or number");
    assert_eq!(HelperError::FormatNotText.message(), "Format must be a string");
    assert_eq!(HelperError::DateFailed.message(), "Failed to parse date");
}

#[test]
fn sort_by_puts_the_greatest_first_for_asc() {
    let posts = json(
        "{\"one\": {\"date\": \"2023-01-01\"}, \"two\": {\"date\": \"2023-03-01\"}, \"three\": {\"date\": \"2023-02-01\"}}",
    );
    let out = SortByHelper.call_inner(&vec![posts.deep_clone(), text("date"), text("asc")]).unwrap();
    assert!(same_data(
        &out,
        &json("{\"two\": {\"date\": \"2023-03-01\"}, \"three\": {\"date\": \"2023-02-01\"}, \"one\": {\"date\": \"2023-01-01\"}}")
    ));
    let out = SortByHelper.call_inner(&vec![posts, text("date"), text("desc")]).unwrap();
    assert!(same_data(
        &out,
        &json("{\"one\": {\"date\": \"2023-01-01\"}, \"three\": {\"date\": \"2023-02-01\"}, \"two\": {\"date\": \"2023-03-01\"}}")
    ));
}

#[test]
fn sort_by_a_missing_field_sorts_by_the_empty_text() {
    let posts = json("{\"a\": {\"n\": 2}, \"b\": {}, \"c\": {\"n\": 1}}");
    let out = SortByHelper.call_inner(&vec![posts, text("n"), text("desc")]).unwrap();
    assert!(same_data(&out, &json("{\"b\": {}, \"c\": {\"n\": 1}, \"a\": {\"n\": 2}}")));
}

#[test]
fn sort_by_errors() {
    let posts = || json("{\"a\": {\"n\": 2}}");
    let check = |params: Vec<Data>, e: HelperError| {
        assert_eq!(SortByHelper.call_inner(&params).unwrap_err(), e);
    };
    check(vec![], HelperError::ArrayNotFound);
    check(vec![json("[1]"), text("n"), text("asc")], HelperError::ObjectNotFound);
    check(vec![posts()], HelperError::SortByNotFound);
    check(vec![posts(), uint(1), text("asc")], HelperError::SortByNotText);
    check(vec![posts(), text("n")], HelperError::OrderNotFound);
    check(vec![posts(), text("n"), uint(1)], HelperError::OrderNotText);
    check(vec![posts(), text("n"), text("up")], HelperError::OrderUnknown);
    check(vec![json("{\"a\": 1}"), text("n"), text("asc")], HelperError::ObjectNotFound);
    assert_eq!(HelperError::ArrayNotFound.message(), "Array not found");
    assert_eq!(HelperError::ObjectNotFound.message(), "Object not found");
    assert_eq!(HelperError::SortByNotFound.message(), "Sort by not found");
    assert_eq!(HelperError::SortByNotText.message(), "Sort by must be a string");
    assert_eq!(HelperError::OrderNotFound.message(), "Order not found");
    assert_eq!(HelperError::OrderNotText.message(), "Order must be a string");
    assert_eq!(HelperError::OrderUnknown.message(), "Order must be either asc or desc");
    assert_eq!(HelperError::ParameterMissing.message(), "Expected parameter");
}
