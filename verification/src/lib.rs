//! A find-and-replace engine for text held as sequences of characters.
//!
//! The substitute argument of a replacement is first interpreted: it may be a
//! JSON object of strings, a YAML mapping of strings, a compact list of
//! `key:value` pairs joined by a separator character, or, failing all of
//! those, a literal string.  A literal substitute replaces every occurrence
//! of the pattern taken as a plain substring; a mapping substitute compiles
//! the pattern as a regular expression and rewrites the text of every match,
//! entry by entry.

use vstd::prelude::*;

pub mod bindings;
pub mod cson;
pub mod engine;
pub mod mapping;
pub mod subst;
pub mod text;

pub use crate::cson::{cson_to_hashmap, is_valid_cson, CsonError};
pub use crate::engine::{
    apply_to_matches, rewrite_token, search_and_replace_with_map, RegexCompileError,
};
pub use crate::subst::{interpret, MappingFormat, Substitute};
pub use crate::text::search_and_replace;

use crate::bindings::{regex_match_seq, regex_valid};
use crate::engine::matches_applied;
use crate::subst::{interprets_as_mapping, mapping_format_of, mapping_pairs_of};
use crate::text::replaced;

verus! {

/// `contents` revised under an already-interpreted substitute.  A literal
/// substitute replaces the pattern taken as a plain substring and cannot
/// fail; a mapping substitute compiles the pattern as a regular expression
/// and fails exactly when the pattern does not compile.
pub fn apply(contents: &Vec<char>, pattern: &Vec<char>, substitute: &Substitute) -> (r: Result<
    Vec<char>,
    RegexCompileError,
>)
    ensures
        substitute matches Substitute::Literal(s) ==> (r matches Ok(out) && out@ == replaced(
            contents@,
            pattern@,
            s@,
        )),
        substitute matches Substitute::Mapping(f, m) ==> ((r is Ok) <==> regex_valid(pattern@)),
        substitute matches Substitute::Mapping(f, m) ==> (r matches Ok(out) ==> out@
            == matches_applied(
            contents@,
            regex_match_seq(pattern@, contents@),
            m.deep_view(),
            0,
        )),
{
    match substitute {
        Substitute::Literal(s) => Ok(search_and_replace(contents, pattern, s)),
        Substitute::Mapping(_, m) => search_and_replace_with_map(contents, pattern, m),
    }
}

/// The whole revision of one invocation: interpret the raw substitute, then
/// apply it to `contents` under `pattern`.  Returns the revised contents
/// together with the interpreted substitute, or fails exactly when the
/// substitute is a mapping and the pattern does not compile as a regular
/// expression.
pub fn process_contents(contents: &Vec<char>, pattern: &Vec<char>, raw_substitute: &Vec<char>) -> (r:
    Result<(Vec<char>, Substitute), RegexCompileError>)
    ensures
        (r is Err) <==> (interprets_as_mapping(raw_substitute@) && !regex_valid(pattern@)),
        r matches Ok(p) ==> (interprets_as_mapping(raw_substitute@) ==> (p.1 matches
            Substitute::Mapping(f, m) && f == mapping_format_of(raw_substitute@) && m.deep_view()
            == mapping_pairs_of(raw_substitute@) && p.0@ == matches_applied(
            contents@,
            regex_match_seq(pattern@, contents@),
            mapping_pairs_of(raw_substitute@),
            0,
        ))),
        r matches Ok(p) ==> (!interprets_as_mapping(raw_substitute@) ==> (p.1 matches
            Substitute::Literal(t) && t@ == raw_substitute@ && p.0@ == replaced(
            contents@,
            pattern@,
            raw_substitute@,
        ))),
{
    let substitute = interpret(raw_substitute);
    match apply(contents, pattern, &substitute) {
        Ok(out) => Ok((out, substitute)),
        Err(e) => Err(e),
    }
}

} // verus!
