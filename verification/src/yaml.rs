use vstd::prelude::*;
use crate::data::{Data, Node, Num};
use serde_yaml::Value as Yaml;

verus! {

/// The error of the YAML parser.
#[verifier::external_type_specification]
#[verifier::external_body]
pub struct ExYamlError(serde_yaml::Error);

/// A document as the YAML parser holds it.
#[verifier::external_type_specification]
#[verifier::external_body]
pub struct ExYamlValue(serde_yaml::Value);

/// What a parsed document holds: null, truth values, numbers, texts,
/// sequences, mappings entry by entry in their order, tagged values.
pub uninterp spec fn yaml_node(value: serde_yaml::Value) -> Node;

/// What `serde_yaml::from_str` reads from `text` as one YAML document; none
/// where it reports an error.
pub uninterp spec fn yaml_document(text: Seq<char>) -> Option<Node>;

/// Hands out what a parsed `serde_yaml::Value` holds as a [`Data`], variant
/// by variant; the entries of a mapping keep their order, a number goes by
/// its readings as an integer and by its text.
#[verifier::external_body]
fn data_from_yaml(y: Yaml) -> (out: Data)
    ensures
        out@ == yaml_node(y),
{
    match y {
        Yaml::Null => Data::Null,
        Yaml::Bool(b) => Data::Bool(b),
        Yaml::Number(n) => Data::Num(Num::from_parts(n.as_u64(), n.as_i64(), n.to_string())),
        Yaml::String(s) => Data::Text(s),
        Yaml::Sequence(v) => Data::Sequence(v.into_iter().map(data_from_yaml).collect()),
        Yaml::Mapping(m) => Data::Mapping(
            m.into_iter().map(|(k, v)| (data_from_yaml(k), data_from_yaml(v))).collect(),
        ),
        Yaml::Tagged(t) => Data::Tagged(t.tag.to_string(), Box::new(data_from_yaml(t.value))),
    }
}

/// Calls `serde_yaml::from_str` for a `serde_yaml::Value`. The contract
/// names the outcome ([`yaml_document`]) and claims nothing else of the
/// parser.
#[verifier::external_body]
fn yaml_from_str(text: &str) -> (out: Result<Yaml, serde_yaml::Error>)
    ensures
        match out {
            Ok(value) => yaml_document(text@) == Some(yaml_node(value)),
            Err(_) => yaml_document(text@) is None,
        },
{
    serde_yaml::from_str::<Yaml>(text)
}

/// Calls `to_string` on the parser's error: its message, of which nothing is
/// claimed.
#[verifier::external_body]
fn yaml_error_text(error: &serde_yaml::Error) -> String {
    error.to_string()
}

/// A front-matter block or a data file that is no YAML document.
#[derive(Debug)]
pub struct YamlError {
    /// The parser's message.
    pub message: String,
}

/// Reads `text` as one YAML document.
pub fn parse_string_to_yaml(text: &str) -> (out: Result<Data, YamlError>)
    ensures
        match out {
            Ok(value) => yaml_document(text@) == Some(value@),
            Err(_) => yaml_document(text@) is None,
        },
{
    match yaml_from_str(text) {
        Ok(value) => Ok(data_from_yaml(value)),
        Err(error) => Err(YamlError { message: yaml_error_text(&error) }),
    }
}

} // verus!
