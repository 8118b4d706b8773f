//! Trusted boundary to the outside crates and to the few std functions that
//! vstd gives no specification.
//!
//! Every function here is `external_body`: Verus believes the stated
//! contract and does not read the body. Each body holds one outside call
//! and the conversions around it, nothing more. What an outside call
//! returns is a function of its arguments alone, so it carries a name
//! (`json_tree_of`, `sha1_hex_of`, ...) that the callers' contracts speak
//! of; nothing states what those names are on given values.

use vstd::prelude::*;

use crate::node::{Node, NodeV};

verus! {

/// Relies on String as FromIterator<char>: collecting chars yields the
/// string with exactly those characters in order.
#[verifier::external_body]
pub fn chars_to_string(v: &Vec<char>) -> (r: String)
    ensures
        r@ == v@,
{
    v.iter().collect()
}

/// serde_json's parsed value, declared so the conversion helpers below can
/// carry it; the library never looks inside one.
#[verifier::external_type_specification]
#[verifier::external_body]
pub struct ExJsonValue(serde_json::Value);

/// serde_yaml's parsed value, declared so the conversion helpers below can
/// carry it; the library never looks inside one.
#[verifier::external_type_specification]
#[verifier::external_body]
pub struct ExYamlValue(serde_yaml::Value);

/// serde_yaml's mapping, declared so the conversion helpers below can
/// carry it; the library never looks inside one.
#[verifier::external_type_specification]
#[verifier::external_body]
pub struct ExYamlMapping(serde_yaml::Mapping);

/// The tree that JSON text parses to, or nothing when the text is not
/// valid JSON.
pub uninterp spec fn json_tree_of(s: Seq<char>) -> Option<NodeV>;

/// Relies on serde_json::from_str: whether text parses, and to which value,
/// depends on the text alone.
#[verifier::external_body]
pub fn parse_json(s: &str) -> (r: Option<Node>)
    ensures
        r is Some <==> json_tree_of(s@) is Some,
        r is Some ==> r->0@ == json_tree_of(s@)->0,
{
    match serde_json::from_str::<serde_json::Value>(s) {
        Ok(v) => Some(json_value_to_node(&v)),
        Err(_) => None,
    }
}

/// Relies on serde_json::Value: maps each variant of the parsed value onto
/// the library's tree, one arm each; a number is carried as its canonical
/// rendering.
#[verifier::external_body]
fn json_value_to_node(v: &serde_json::Value) -> Node {
    match v {
        serde_json::Value::Null => Node::Null,
        serde_json::Value::Bool(b) => Node::Bool(*b),
        serde_json::Value::Number(n) => Node::Num(n.to_string()),
        serde_json::Value::String(s) => Node::Str(s.clone()),
        serde_json::Value::Array(a) => Node::Arr(a.iter().map(json_value_to_node).collect()),
        serde_json::Value::Object(m) => Node::Obj(
            m.iter().map(|(k, x)| (k.clone(), json_value_to_node(x))).collect(),
        ),
    }
}

/// The pretty JSON rendering of a tree.
pub uninterp spec fn json_pretty_of(t: NodeV) -> Seq<char>;

/// Relies on serde_json::to_string_pretty: the rendering depends on the
/// tree alone.
#[verifier::external_body]
pub fn to_json_pretty(n: &Node) -> (r: String)
    ensures
        r@ == json_pretty_of(n@),
{
    serde_json::to_string_pretty(&node_to_json_value(n)).unwrap_or_default()
}

/// Relies on serde_json::Value: maps each tree variant back onto a JSON
/// value, one arm each; a number rendering is read back through
/// serde_json's own parser.
#[verifier::external_body]
fn node_to_json_value(n: &Node) -> serde_json::Value {
    match n {
        Node::Null => serde_json::Value::Null,
        Node::Bool(b) => serde_json::Value::Bool(*b),
        Node::Num(s) => serde_json::from_str(s).unwrap_or(serde_json::Value::Null),
        Node::Str(s) => serde_json::Value::String(s.clone()),
        Node::Arr(a) => serde_json::Value::Array(a.iter().map(node_to_json_value).collect()),
        Node::Obj(m) => serde_json::Value::Object(
            m.iter().map(|(k, x)| (k.clone(), node_to_json_value(x))).collect(),
        ),
    }
}

/// The tree that YAML text parses to, or nothing when the text is not
/// valid YAML of the supported shape.
pub uninterp spec fn yaml_tree_of(s: Seq<char>) -> Option<NodeV>;

/// Relies on serde_yaml::from_str: whether text parses, and to which value,
/// depends on the text alone.
#[verifier::external_body]
pub fn parse_yaml(s: &str) -> (r: Option<Node>)
    ensures
        r is Some <==> yaml_tree_of(s@) is Some,
        r is Some ==> r->0@ == yaml_tree_of(s@)->0,
{
    match serde_yaml::from_str::<serde_yaml::Value>(s) {
        Ok(v) => yaml_value_to_node(&v),
        Err(_) => None,
    }
}

/// Relies on serde_yaml::Value: maps each variant of the parsed value onto
/// the library's tree, one arm each; a tagged value has no counterpart and
/// yields nothing.
#[verifier::external_body]
fn yaml_value_to_node(v: &serde_yaml::Value) -> Option<Node> {
    match v {
        serde_yaml::Value::Null => Some(Node::Null),
        serde_yaml::Value::Bool(b) => Some(Node::Bool(*b)),
        serde_yaml::Value::Number(n) => Some(Node::Num(n.to_string())),
        serde_yaml::Value::String(s) => Some(Node::Str(s.clone())),
        serde_yaml::Value::Sequence(a) => a.iter().map(yaml_value_to_node).collect::<Option<
            Vec<Node>,
        >>().map(Node::Arr),
        serde_yaml::Value::Mapping(m) => yaml_mapping_to_node(m),
        serde_yaml::Value::Tagged(_) => None,
    }
}

/// Relies on serde_yaml::Mapping: maps each entry onto a key and value of
/// the library's tree; a non-text key has no counterpart and yields
/// nothing.
#[verifier::external_body]
fn yaml_mapping_to_node(m: &serde_yaml::Mapping) -> Option<Node> {
    m.iter().map(
        |(k, x)| match (k, yaml_value_to_node(x)) {
            (serde_yaml::Value::String(ks), Some(nx)) => Some((ks.clone(), nx)),
            _ => None,
        },
    ).collect::<Option<Vec<(String, Node)>>>().map(Node::Obj)
}

/// The YAML rendering of a tree.
pub uninterp spec fn yaml_text_of(t: NodeV) -> Seq<char>;

/// Relies on serde_yaml::to_string: the rendering depends on the tree
/// alone.
#[verifier::external_body]
pub fn to_yaml(n: &Node) -> (r: String)
    ensures
        r@ == yaml_text_of(n@),
{
    serde_yaml::to_string(&node_to_yaml_value(n)).unwrap_or_default()
}

/// Relies on serde_yaml::Value: maps each tree variant back onto a YAML
/// value, one arm each; a number rendering is read back through
/// serde_yaml's own parser.
#[verifier::external_body]
fn node_to_yaml_value(n: &Node) -> serde_yaml::Value {
    match n {
        Node::Null => serde_yaml::Value::Null,
        Node::Bool(b) => serde_yaml::Value::Bool(*b),
        Node::Num(s) => serde_yaml::from_str(s).unwrap_or(serde_yaml::Value::Null),
        Node::Str(s) => serde_yaml::Value::String(s.clone()),
        Node::Arr(a) => serde_yaml::Value::Sequence(a.iter().map(node_to_yaml_value).collect()),
        Node::Obj(m) => serde_yaml::Value::Mapping(
            m.iter().map(
                |(k, x)| (serde_yaml::Value::String(k.clone()), node_to_yaml_value(x)),
            ).collect(),
        ),
    }
}

/// The 40 lowercase hex digits of the SHA-1 digest of the bytes.
pub uninterp spec fn sha1_hex_of(bytes: Seq<u8>) -> Seq<char>;

/// Relies on sha1::Sha1 through the Digest trait, and on the digest's
/// LowerHex formatting: two hex digits for each of the 20 digest bytes, a
/// function of the input bytes alone.
#[verifier::external_body]
pub fn sha1_hex(bytes: &Vec<u8>) -> (r: String)
    ensures
        r@ == sha1_hex_of(bytes@),
        r@.len() == 40,
{
    let mut h = <sha1::Sha1 as sha1::digest::Digest>::new();
    sha1::digest::Digest::update(&mut h, bytes.as_slice());
    format!("{:x}", sha1::digest::Digest::finalize(h))
}

/// The characters that the bytes decode to as UTF-8, or nothing when they
/// are not valid UTF-8.
pub uninterp spec fn utf8_decode_of(bytes: Seq<u8>) -> Option<Seq<char>>;

/// Relies on String::from_utf8: whether the bytes decode, and to which
/// characters, depends on the bytes alone.
#[verifier::external_body]
pub fn bytes_to_string(bytes: &Vec<u8>) -> (r: Option<String>)
    ensures
        r is Some <==> utf8_decode_of(bytes@) is Some,
        r is Some ==> r->0@ == utf8_decode_of(bytes@)->0,
{
    String::from_utf8(bytes.clone()).ok()
}

} // verus!
