//! The substitute interpreter: a raw substitute string is tried against the
//! JSON, YAML and delimited mapping grammars in that fixed order, and the
//! first to parse wins; a string that none of them accepts is a literal.

use vstd::prelude::*;
use crate::bindings::{json_mapping_of, parse_json_mapping, parse_yaml_mapping, yaml_mapping_of};
use crate::cson::{cson_pairs, cson_to_hashmap, cson_valid};
use crate::mapping::distinct_keys;
use crate::text::clone_chars;

verus! {

/// The serialization syntax a mapping substitute was written in: a display
/// label for logging, nothing more.
#[derive(Clone, Copy, Debug, PartialEq, Eq, Structural)]
pub enum MappingFormat {
    Json,
    Yaml,
    Cson,
}

/// A substitute: either literal text applied verbatim, or a mapping whose
/// entries rewrite each matched token individually.
#[derive(Clone, Debug, PartialEq, Eq)]
pub enum Substitute {
    Literal(Vec<char>),
    Mapping(MappingFormat, Vec<(Vec<char>, Vec<char>)>),
}

/// Does `raw` parse under one of the three mapping grammars?
pub open spec fn interprets_as_mapping(raw: Seq<char>) -> bool {
    json_mapping_of(raw) is Some || yaml_mapping_of(raw) is Some || cson_valid(raw)
}

/// The entries of the highest-priority grammar that accepts `raw`:
/// JSON first, then YAML, then the delimited grammar.
pub open spec fn mapping_pairs_of(raw: Seq<char>) -> Seq<(Seq<char>, Seq<char>)> {
    match json_mapping_of(raw) {
        Some(ps) => ps,
        None => match yaml_mapping_of(raw) {
            Some(ps) => ps,
            None => cson_pairs(raw),
        },
    }
}

/// The label of the highest-priority grammar that accepts `raw`.
pub open spec fn mapping_format_of(raw: Seq<char>) -> MappingFormat {
    if json_mapping_of(raw) is Some {
        MappingFormat::Json
    } else if yaml_mapping_of(raw) is Some {
        MappingFormat::Yaml
    } else {
        MappingFormat::Cson
    }
}

/// Decide what `raw` stands for.  A string that parses under a mapping
/// grammar becomes that grammar's mapping, with distinct keys; any other
/// string is returned verbatim as a literal.
pub fn interpret(raw: &Vec<char>) -> (r: Substitute)
    ensures
        interprets_as_mapping(raw@) ==> (r matches Substitute::Mapping(f, m) && f
            == mapping_format_of(raw@) && m.deep_view() == mapping_pairs_of(raw@) && distinct_keys(
            m.deep_view(),
        )),
        !interprets_as_mapping(raw@) ==> (r matches Substitute::Literal(t) && t@ == raw@),
{
    match parse_json_mapping(raw) {
        Some(m) => Substitute::Mapping(MappingFormat::Json, m),
        None => match parse_yaml_mapping(raw) {
            Some(m) => Substitute::Mapping(MappingFormat::Yaml, m),
            None => match cson_to_hashmap(raw) {
                Ok(m) => Substitute::Mapping(MappingFormat::Cson, m),
                Err(_) => Substitute::Literal(clone_chars(raw)),
            },
        },
    }
}

} // verus!
