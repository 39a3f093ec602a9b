//! The calls into the outside crates, each behind a trusted wrapper whose
//! contract names what the call returns.  Every proof that involves these
//! names rests on the contracts written here.

use vstd::prelude::*;
use crate::mapping::distinct_keys;

verus! {

/// What `serde_json` makes of `s`: the entries of the JSON object of strings
/// that `s` spells, sorted by key, or nothing when `s` is not such an object.
pub uninterp spec fn json_mapping_of(s: Seq<char>) -> Option<Seq<(Seq<char>, Seq<char>)>>;

/// What `serde_yaml` makes of `s`: the entries of the YAML mapping of strings
/// that `s` spells, sorted by key, or nothing when `s` is not such a mapping.
pub uninterp spec fn yaml_mapping_of(s: Seq<char>) -> Option<Seq<(Seq<char>, Seq<char>)>>;

/// Is `pattern` a regular expression that `regex` accepts?
pub uninterp spec fn regex_valid(pattern: Seq<char>) -> bool;

/// The text of every non-overlapping, leftmost-first match of `pattern` in
/// `text`, in order of position.
pub uninterp spec fn regex_match_seq(pattern: Seq<char>, text: Seq<char>) -> Seq<Seq<char>>;

/// Relies on serde_json::from_str deserializing into a
/// `BTreeMap<String, String>`: it succeeds exactly on a JSON object whose
/// values are strings, the outcome is a function of the input text alone,
/// and the map's keys come out distinct.
#[verifier::external_body]
pub(crate) fn parse_json_mapping(raw: &Vec<char>) -> (r: Option<Vec<(Vec<char>, Vec<char>)>>)
    ensures
        (r is Some) <==> (json_mapping_of(raw@) is Some),
        r matches Some(m) ==> json_mapping_of(raw@) == Some(m.deep_view()) && distinct_keys(
            m.deep_view(),
        ),
{
    let s: String = raw.iter().collect();
    match serde_json::from_str::<std::collections::BTreeMap<String, String>>(&s) {
        Ok(m) => Some(
            m.into_iter().map(|(k, v)| (k.chars().collect(), v.chars().collect())).collect(),
        ),
        Err(_) => None,
    }
}

/// Relies on serde_yaml::from_str deserializing into a
/// `BTreeMap<String, String>`: it succeeds exactly on a YAML mapping whose
/// keys and values are strings, the outcome is a function of the input text
/// alone, and the map's keys come out distinct.
#[verifier::external_body]
pub(crate) fn parse_yaml_mapping(raw: &Vec<char>) -> (r: Option<Vec<(Vec<char>, Vec<char>)>>)
    ensures
        (r is Some) <==> (yaml_mapping_of(raw@) is Some),
        r matches Some(m) ==> yaml_mapping_of(raw@) == Some(m.deep_view()) && distinct_keys(
            m.deep_view(),
        ),
{
    let s: String = raw.iter().collect();
    match serde_yaml::from_str::<std::collections::BTreeMap<String, String>>(&s) {
        Ok(m) => Some(
            m.into_iter().map(|(k, v)| (k.chars().collect(), v.chars().collect())).collect(),
        ),
        Err(_) => None,
    }
}

/// Relies on regex::Regex::new, which fails exactly on patterns that are not
/// valid regular expressions, and on Regex::find_iter, which yields the
/// non-overlapping matches from leftmost-first searching, in order of
/// position; both outcomes are functions of pattern and text alone.
#[verifier::external_body]
pub(crate) fn regex_find_matches(pattern: &Vec<char>, text: &Vec<char>) -> (r: Option<
    Vec<Vec<char>>,
>)
    ensures
        (r is Some) <==> regex_valid(pattern@),
        r matches Some(ms) ==> ms.deep_view() == regex_match_seq(pattern@, text@),
{
    let p: String = pattern.iter().collect();
    let t: String = text.iter().collect();
    match regex::Regex::new(&p) {
        Ok(re) => Some(re.find_iter(&t).map(|m| m.as_str().chars().collect()).collect()),
        Err(_) => None,
    }
}

} // verus!
