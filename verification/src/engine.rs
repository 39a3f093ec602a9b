//! Mapping-driven replacement: every regex match of the pattern is taken as
//! a token, the token is rewritten entry by entry, and every occurrence of
//! the matched text in the whole accumulated result is replaced by the
//! rewritten form.

use vstd::prelude::*;
use crate::bindings::{regex_find_matches, regex_match_seq, regex_valid};
use crate::mapping::{lemma_pairs_deep_view, lemma_texts_deep_view};
use crate::text::{clone_chars, replaced, search_and_replace};

verus! {

/// `token` with the mapping entries from position `i` on applied in order:
/// each entry replaces every occurrence of its key in the token with its
/// value, one single pass per entry.
pub open spec fn token_rewritten(
    token: Seq<char>,
    pairs: Seq<(Seq<char>, Seq<char>)>,
    i: int,
) -> Seq<char>
    decreases pairs.len() - i,
{
    if i < 0 || i >= pairs.len() {
        token
    } else {
        token_rewritten(replaced(token, pairs[i].0, pairs[i].1), pairs, i + 1)
    }
}

/// `text` after the matches from position `i` on have been applied: for each
/// match in order, every occurrence of the matched text anywhere in the
/// accumulated result is replaced by the match's rewritten form.
pub open spec fn matches_applied(
    text: Seq<char>,
    found: Seq<Seq<char>>,
    pairs: Seq<(Seq<char>, Seq<char>)>,
    i: int,
) -> Seq<char>
    decreases found.len() - i,
{
    if i < 0 || i >= found.len() {
        text
    } else {
        matches_applied(
            replaced(text, found[i], token_rewritten(found[i], pairs, 0)),
            found,
            pairs,
            i + 1,
        )
    }
}

/// `token` with every mapping entry applied in order.
pub fn rewrite_token(token: &Vec<char>, map: &Vec<(Vec<char>, Vec<char>)>) -> (r: Vec<char>)
    ensures
        r@ == token_rewritten(token@, map.deep_view(), 0),
{
    let mut cur = clone_chars(token);
    let mut i: usize = 0;
    proof {
        lemma_pairs_deep_view(map);
    }
    while i < map.len()
        invariant
            i <= map@.len(),
            map.deep_view().len() == map@.len(),
            forall|k: int|
                0 <= k < map@.len() ==> #[trigger] map.deep_view()[k] == (map@[k].0@, map@[k].1@),
            token_rewritten(token@, map.deep_view(), 0) == token_rewritten(
                cur@,
                map.deep_view(),
                i as int,
            ),
        decreases map@.len() - i,
    {
        cur = search_and_replace(&cur, &map[i].0, &map[i].1);
        i = i + 1;
    }
    cur
}

/// `contents` with every found match applied in order: each match's text is
/// rewritten under the mapping, and every occurrence of the matched text in
/// the accumulated result is replaced by the rewritten form.
pub fn apply_to_matches(
    contents: &Vec<char>,
    found: &Vec<Vec<char>>,
    map: &Vec<(Vec<char>, Vec<char>)>,
) -> (r: Vec<char>)
    ensures
        r@ == matches_applied(contents@, found.deep_view(), map.deep_view(), 0),
{
    let mut result = clone_chars(contents);
    let mut i: usize = 0;
    proof {
        lemma_texts_deep_view(found);
    }
    while i < found.len()
        invariant
            i <= found@.len(),
            found.deep_view().len() == found@.len(),
            forall|k: int| 0 <= k < found@.len() ==> #[trigger] found.deep_view()[k] == found@[k]@,
            matches_applied(contents@, found.deep_view(), map.deep_view(), 0) == matches_applied(
                result@,
                found.deep_view(),
                map.deep_view(),
                i as int,
            ),
        decreases found@.len() - i,
    {
        let token = rewrite_token(&found[i], map);
        result = search_and_replace(&result, &found[i], &token);
        i = i + 1;
    }
    result
}

/// The pattern of a mapping substitution did not compile as a regular
/// expression; the whole operation fails without touching the contents.
#[derive(Clone, Copy, Debug, PartialEq, Eq, Structural)]
pub struct RegexCompileError;

/// `contents` revised under a mapping substitute: the pattern is compiled as
/// a regular expression, its matches are enumerated leftmost-first, and each
/// match is applied in order.  Fails exactly when the pattern is not a valid
/// regular expression.
pub fn search_and_replace_with_map(
    contents: &Vec<char>,
    pattern: &Vec<char>,
    map: &Vec<(Vec<char>, Vec<char>)>,
) -> (r: Result<Vec<char>, RegexCompileError>)
    ensures
        (r is Ok) <==> regex_valid(pattern@),
        r matches Ok(out) ==> out@ == matches_applied(
            contents@,
            regex_match_seq(pattern@, contents@),
            map.deep_view(),
            0,
        ),
{
    match regex_find_matches(pattern, contents) {
        Some(found) => Ok(apply_to_matches(contents, &found, map)),
        None => Err(RegexCompileError),
    }
}

/// Rewriting one match rewrites every identical occurrence: applying a
/// single match is a whole-text replacement of each occurrence of the
/// matched text by its rewritten form, wherever in the text it stands.
pub proof fn lemma_match_rewrites_every_occurrence(
    text: Seq<char>,
    m: Seq<char>,
    pairs: Seq<(Seq<char>, Seq<char>)>,
)
    ensures
        matches_applied(text, seq![m], pairs, 0) == replaced(text, m, token_rewritten(m, pairs, 0)),
{
    let once = replaced(text, m, token_rewritten(m, pairs, 0));
    assert(seq![m][0] == m);
    assert(matches_applied(once, seq![m], pairs, 1) == once);
}

} // verus!
