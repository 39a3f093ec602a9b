//! The compact delimited mapping grammar: `key:value` pairs joined by the
//! first separator character found in the input, each pair holding exactly
//! one colon.

use vstd::prelude::*;
use crate::mapping::{distinct_keys, lemma_texts_deep_view, lemma_upserted_distinct, upsert,
    upserted};

verus! {

/// The separator characters a delimited mapping may use.
pub open spec fn is_separator(c: char) -> bool {
    c == ';' || c == ',' || c == '|' || c == '/' || c == '~'
}

/// The first separator character of `s` at or after position `i`.
pub open spec fn first_separator_from(s: Seq<char>, i: int) -> Option<char>
    decreases s.len() - i,
{
    if i < 0 || i >= s.len() {
        None
    } else if is_separator(s[i]) {
        Some(s[i])
    } else {
        first_separator_from(s, i + 1)
    }
}

/// The separator the grammar selects for `s`: the first separator character
/// of `s`, scanning left to right.
pub open spec fn cson_separator(s: Seq<char>) -> Option<char> {
    first_separator_from(s, 0)
}

/// `s` split on every occurrence of `sep`: the pieces between occurrences,
/// in order, including empty ones.  There is always at least one piece.
pub open spec fn split_on(s: Seq<char>, sep: char) -> Seq<Seq<char>>
    decreases s.len(),
{
    if s.len() == 0 {
        seq![Seq::<char>::empty()]
    } else if s[0] == sep {
        seq![Seq::<char>::empty()] + split_on(s.skip(1), sep)
    } else {
        let rest = split_on(s.skip(1), sep);
        seq![seq![s[0]] + rest[0]] + rest.skip(1)
    }
}

pub proof fn lemma_split_on_nonempty(s: Seq<char>, sep: char)
    ensures
        split_on(s, sep).len() >= 1,
    decreases s.len(),
{
    if s.len() == 0 {
    } else {
        lemma_split_on_nonempty(s.skip(1), sep);
    }
}

/// A piece is a well-formed pair when splitting it on the colon yields
/// exactly two parts, that is, it holds exactly one colon.
pub open spec fn piece_is_pair(p: Seq<char>) -> bool {
    split_on(p, ':').len() == 2
}

/// The key and value of a well-formed piece: what stands left and right of
/// its colon.
pub open spec fn piece_pair(p: Seq<char>) -> (Seq<char>, Seq<char>) {
    (split_on(p, ':')[0], split_on(p, ':')[1])
}

/// Every piece of `s` split on `sep` holds exactly one colon.
pub open spec fn cson_pieces_valid(s: Seq<char>, sep: char) -> bool {
    forall|i: int|
        0 <= i < split_on(s, sep).len() ==> piece_is_pair(#[trigger] split_on(s, sep)[i])
}

/// Does `s` parse under the delimited grammar?  A separator character must
/// occur, and every piece of the split must hold exactly one colon.
pub open spec fn cson_valid(s: Seq<char>) -> bool {
    match cson_separator(s) {
        Some(sep) => cson_pieces_valid(s, sep),
        None => false,
    }
}

/// The entries a valid delimited mapping denotes: each piece inserted in
/// order, a later piece with an already-seen key overwriting the earlier
/// value in place.
pub open spec fn inserted_from(
    acc: Seq<(Seq<char>, Seq<char>)>,
    pieces: Seq<Seq<char>>,
    i: int,
) -> Seq<(Seq<char>, Seq<char>)>
    decreases pieces.len() - i,
{
    if i < 0 || i >= pieces.len() {
        acc
    } else {
        inserted_from(
            upserted(acc, piece_pair(pieces[i]).0, piece_pair(pieces[i]).1),
            pieces,
            i + 1,
        )
    }
}

/// The mapping entries of a valid delimited string.
pub open spec fn cson_pairs(s: Seq<char>) -> Seq<(Seq<char>, Seq<char>)> {
    match cson_separator(s) {
        Some(sep) => inserted_from(Seq::empty(), split_on(s, sep), 0),
        None => Seq::empty(),
    }
}

fn is_separator_char(c: char) -> (r: bool)
    ensures
        r == is_separator(c),
{
    c == ';' || c == ',' || c == '|' || c == '/' || c == '~'
}

/// The first separator character of `s`, if any.
fn find_separator(s: &Vec<char>) -> (r: Option<char>)
    ensures
        r == cson_separator(s@),
{
    let mut i: usize = 0;
    while i < s.len()
        invariant
            i <= s@.len(),
            cson_separator(s@) == first_separator_from(s@, i as int),
        decreases s@.len() - i,
    {
        if is_separator_char(s[i]) {
            return Some(s[i]);
        }
        i = i + 1;
    }
    None
}

/// `s` split on every occurrence of `sep`.
fn split_chars(s: &Vec<char>, sep: char) -> (r: Vec<Vec<char>>)
    ensures
        r.deep_view() == split_on(s@, sep),
{
    let mut pieces: Vec<Vec<char>> = Vec::new();
    let mut cur: Vec<char> = Vec::new();
    let mut i: usize = 0;
    proof {
        lemma_split_on_nonempty(s@, sep);
        assert(s@.skip(0) =~= s@);
        assert(pieces.deep_view() =~= Seq::<Seq<char>>::empty());
        assert(pieces.deep_view() + seq![cur@ + split_on(s@, sep)[0]] + split_on(s@, sep).skip(1)
            =~~= split_on(s@, sep));
    }
    while i < s.len()
        invariant
            i <= s@.len(),
            split_on(s@, sep) == pieces.deep_view() + seq![
                cur@ + split_on(s@.skip(i as int), sep)[0],
            ] + split_on(s@.skip(i as int), sep).skip(1),
        decreases s@.len() - i,
    {
        let ghost tail = s@.skip(i as int);
        let ghost tail1 = s@.skip(i + 1);
        let ghost pieces0 = pieces.deep_view();
        let ghost cur0 = cur@;
        proof {
            lemma_texts_deep_view(&pieces);
            assert(tail.len() > 0);
            assert(tail[0] == s@[i as int]);
            assert(tail.skip(1) =~= tail1);
            lemma_split_on_nonempty(tail1, sep);
        }
        let c = s[i];
        if c == sep {
            proof {
                assert(split_on(tail, sep) == seq![Seq::<char>::empty()] + split_on(tail1, sep));
                assert(split_on(tail, sep)[0] == Seq::<char>::empty());
                assert((seq![Seq::<char>::empty()] + split_on(tail1, sep)).skip(1) =~= split_on(
                    tail1,
                    sep,
                ));
            }
            let done = cur;
            cur = Vec::new();
            pieces.push(done);
            proof {
                lemma_texts_deep_view(&pieces);
                assert(pieces.deep_view() =~~= pieces0.push(cur0));
                assert(pieces0 + seq![cur0 + split_on(tail, sep)[0]] + split_on(tail, sep).skip(1)
                    =~~= pieces0.push(cur0) + seq![cur@ + split_on(tail1, sep)[0]] + split_on(
                    tail1,
                    sep,
                ).skip(1));
            }
        } else {
            proof {
                let rest = split_on(tail1, sep);
                assert(split_on(tail, sep) == seq![seq![tail[0]] + rest[0]] + rest.skip(1));
                assert(split_on(tail, sep)[0] == seq![s@[i as int]] + rest[0]);
                assert((seq![seq![tail[0]] + rest[0]] + rest.skip(1)).skip(1) =~= rest.skip(1));
            }
            cur.push(c);
            proof {
                assert(pieces0 + seq![cur0 + split_on(tail, sep)[0]] + split_on(tail, sep).skip(1)
                    =~~= pieces.deep_view() + seq![cur@ + split_on(tail1, sep)[0]] + split_on(
                    tail1,
                    sep,
                ).skip(1));
            }
        }
        i = i + 1;
    }
    proof {
        let tail = s@.skip(i as int);
        assert(tail =~= Seq::<char>::empty());
        assert(split_on(tail, sep) == seq![Seq::<char>::empty()]);
    }
    let ghost pieces0 = pieces.deep_view();
    let ghost cur0 = cur@;
    proof {
        lemma_texts_deep_view(&pieces);
    }
    pieces.push(cur);
    proof {
        lemma_texts_deep_view(&pieces);
        assert(pieces.deep_view() =~~= pieces0.push(cur0));
        assert(pieces0 + seq![cur0 + split_on(s@.skip(s@.len() as int), sep)[0]] + split_on(
            s@.skip(s@.len() as int),
            sep,
        ).skip(1) =~~= pieces0.push(cur0));
    }
    pieces
}

/// Does `s` parse under the delimited grammar?
pub fn is_valid_cson(s: &Vec<char>) -> (r: bool)
    ensures
        r == cson_valid(s@),
{
    match find_separator(s) {
        None => false,
        Some(sep) => {
            let pieces = split_chars(s, sep);
            let mut j: usize = 0;
            while j < pieces.len()
                invariant
                    j <= pieces@.len(),
                    pieces.deep_view() == split_on(s@, sep),
                    cson_separator(s@) == Some(sep),
                    forall|k: int|
                        0 <= k < j ==> piece_is_pair(#[trigger] split_on(s@, sep)[k]),
                decreases pieces@.len() - j,
            {
                proof {
                    lemma_texts_deep_view(&pieces);
                    assert(pieces.deep_view()[j as int] == pieces@[j as int]@);
                    assert(split_on(s@, sep)[j as int] == pieces@[j as int]@);
                }
                let kv = split_chars(&pieces[j], ':');
                if kv.len() != 2 {
                    assert(kv.deep_view().len() != 2);
                    assert(!piece_is_pair(split_on(s@, sep)[j as int]));
                    assert(!cson_pieces_valid(s@, sep));
                    assert(!cson_valid(s@));
                    return false;
                }
                assert(piece_is_pair(split_on(s@, sep)[j as int]));
                j = j + 1;
            }
            assert(cson_pieces_valid(s@, sep));
            true
        },
    }
}

#[derive(Debug, PartialEq, Eq, Structural)]
pub struct CsonError;

/// The mapping a delimited string denotes, or an error where the grammar
/// does not apply.
pub fn cson_to_hashmap(s: &Vec<char>) -> (r: Result<Vec<(Vec<char>, Vec<char>)>, CsonError>)
    ensures
        r is Ok <==> cson_valid(s@),
        r matches Ok(m) ==> m.deep_view() == cson_pairs(s@) && distinct_keys(m.deep_view()),
{
    if !is_valid_cson(s) {
        return Err(CsonError);
    }
    match find_separator(s) {
        None => {
            proof {
                assert(false);
            }
            Err(CsonError)
        },
        Some(sep) => {
            let pieces = split_chars(s, sep);
            let mut m: Vec<(Vec<char>, Vec<char>)> = Vec::new();
            let mut j: usize = 0;
            proof {
                assert(m.deep_view() =~= Seq::<(Seq<char>, Seq<char>)>::empty());
            }
            while j < pieces.len()
                invariant
                    j <= pieces@.len(),
                    pieces.deep_view() == split_on(s@, sep),
                    cson_separator(s@) == Some(sep),
                    cson_valid(s@),
                    distinct_keys(m.deep_view()),
                    cson_pairs(s@) == inserted_from(m.deep_view(), pieces.deep_view(), j as int),
                decreases pieces@.len() - j,
            {
                proof {
                    lemma_texts_deep_view(&pieces);
                }
                let mut kv = split_chars(&pieces[j], ':');
                proof {
                    assert(cson_pieces_valid(s@, sep));
                    assert(piece_is_pair(split_on(s@, sep)[j as int]));
                    assert(kv.deep_view().len() == 2);
                    lemma_texts_deep_view(&kv);
                }
                let ghost m0 = m.deep_view();
                let k = kv.remove(0);
                let v = kv.remove(0);
                proof {
                    assert(k@ == piece_pair(pieces.deep_view()[j as int]).0);
                    assert(v@ == piece_pair(pieces.deep_view()[j as int]).1);
                    lemma_upserted_distinct(m0, k@, v@);
                }
                upsert(&mut m, k, v);
                j = j + 1;
            }
            proof {
                assert(inserted_from(m.deep_view(), pieces.deep_view(), j as int)
                    == m.deep_view());
            }
            Ok(m)
        },
    }
}

} // verus!
