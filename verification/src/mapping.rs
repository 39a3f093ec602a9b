//! Key-value pair lists: the representation of a mapping substitute, with
//! first-match-wins updates that keep keys unique.

use vstd::prelude::*;

verus! {

/// No two entries share a key.
pub open spec fn distinct_keys(pairs: Seq<(Seq<char>, Seq<char>)>) -> bool {
    forall|i: int, j: int| 0 <= i < j < pairs.len() ==> pairs[i].0 != pairs[j].0
}

/// `pairs` with the entry for `k` set to `v`: the first entry whose key is
/// `k` is overwritten in place; a missing key is appended at the end.
pub open spec fn upserted(pairs: Seq<(Seq<char>, Seq<char>)>, k: Seq<char>, v: Seq<char>) -> Seq<
    (Seq<char>, Seq<char>),
>
    decreases pairs.len(),
{
    if pairs.len() == 0 {
        seq![(k, v)]
    } else if pairs[0].0 == k {
        seq![(k, v)] + pairs.skip(1)
    } else {
        seq![pairs[0]] + upserted(pairs.skip(1), k, v)
    }
}

/// Updating a list with distinct keys keeps the keys distinct.
pub proof fn lemma_upserted_distinct(pairs: Seq<(Seq<char>, Seq<char>)>, k: Seq<char>, v: Seq<char>)
    requires
        distinct_keys(pairs),
    ensures
        distinct_keys(upserted(pairs, k, v)),
    decreases pairs.len(),
{
    let r = upserted(pairs, k, v);
    if pairs.len() == 0 {
    } else if pairs[0].0 == k {
        assert forall|i: int, j: int| 0 <= i < j < r.len() implies r[i].0 != r[j].0 by {
            if i == 0 {
                assert(r[j] == pairs[j]);
                assert(pairs[0].0 != pairs[j].0);
            } else {
                assert(r[i] == pairs[i] && r[j] == pairs[j]);
            }
        }
    } else {
        assert(distinct_keys(pairs.skip(1)));
        lemma_upserted_distinct(pairs.skip(1), k, v);
        let rest = upserted(pairs.skip(1), k, v);
        lemma_upserted_keys(pairs.skip(1), k, v);
        assert forall|i: int, j: int| 0 <= i < j < r.len() implies r[i].0 != r[j].0 by {
            if i == 0 {
                assert(r[j] == rest[j - 1]);
                assert(rest[j - 1].0 == k || pairs.skip(1).contains(rest[j - 1]));
                if pairs.skip(1).contains(rest[j - 1]) {
                    let w = choose|w: int|
                        0 <= w < pairs.skip(1).len() && pairs.skip(1)[w] == rest[j - 1];
                    assert(pairs[w + 1] == rest[j - 1]);
                    assert(pairs[0].0 != pairs[w + 1].0);
                }
            } else {
                assert(r[i] == rest[i - 1] && r[j] == rest[j - 1]);
            }
        }
    }
}

/// Every entry of an updated list either carries the new key or was already
/// in the list.
proof fn lemma_upserted_keys(pairs: Seq<(Seq<char>, Seq<char>)>, k: Seq<char>, v: Seq<char>)
    ensures
        forall|i: int|
            0 <= i < upserted(pairs, k, v).len() ==> upserted(pairs, k, v)[i].0 == k || pairs.contains(
                #[trigger] upserted(pairs, k, v)[i],
            ),
    decreases pairs.len(),
{
    let r = upserted(pairs, k, v);
    if pairs.len() == 0 {
    } else if pairs[0].0 == k {
        assert forall|i: int| 0 <= i < r.len() implies r[i].0 == k || pairs.contains(r[i]) by {
            if i > 0 {
                assert(r[i] == pairs[i]);
            }
        }
    } else {
        lemma_upserted_keys(pairs.skip(1), k, v);
        let rest = upserted(pairs.skip(1), k, v);
        assert forall|i: int| 0 <= i < r.len() implies r[i].0 == k || pairs.contains(r[i]) by {
            if i == 0 {
                assert(r[0] == pairs[0]);
            } else {
                assert(r[i] == rest[i - 1]);
                if rest[i - 1].0 != k {
                    assert(pairs.skip(1).contains(rest[i - 1]));
                    let w = choose|w: int|
                        0 <= w < pairs.skip(1).len() && pairs.skip(1)[w] == rest[i - 1];
                    assert(pairs[w + 1] == rest[i - 1]);
                }
            }
        }
    }
}

/// When the first entry with key `k` stands at position `i`, the update
/// overwrites exactly that position.
proof fn lemma_upserted_found(
    pairs: Seq<(Seq<char>, Seq<char>)>,
    k: Seq<char>,
    v: Seq<char>,
    i: int,
)
    requires
        0 <= i < pairs.len(),
        pairs[i].0 == k,
        forall|j: int| 0 <= j < i ==> pairs[j].0 != k,
    ensures
        upserted(pairs, k, v) == pairs.update(i, (k, v)),
    decreases pairs.len(),
{
    if i == 0 {
        assert(seq![(k, v)] + pairs.skip(1) =~= pairs.update(0, (k, v)));
    } else {
        assert(pairs[0].0 != k);
        assert(pairs.skip(1)[i - 1].0 == k);
        assert forall|j: int| 0 <= j < i - 1 implies pairs.skip(1)[j].0 != k by {
            assert(pairs.skip(1)[j] == pairs[j + 1]);
        }
        lemma_upserted_found(pairs.skip(1), k, v, i - 1);
        assert(seq![pairs[0]] + pairs.skip(1).update(i - 1, (k, v)) =~= pairs.update(i, (k, v)));
    }
}

/// When no entry carries key `k`, the update appends the new entry.
proof fn lemma_upserted_absent(pairs: Seq<(Seq<char>, Seq<char>)>, k: Seq<char>, v: Seq<char>)
    requires
        forall|j: int| 0 <= j < pairs.len() ==> pairs[j].0 != k,
    ensures
        upserted(pairs, k, v) == pairs.push((k, v)),
    decreases pairs.len(),
{
    if pairs.len() == 0 {
        assert(seq![(k, v)] =~= pairs.push((k, v)));
    } else {
        assert forall|j: int| 0 <= j < pairs.skip(1).len() implies pairs.skip(1)[j].0 != k by {
            assert(pairs.skip(1)[j] == pairs[j + 1]);
        }
        lemma_upserted_absent(pairs.skip(1), k, v);
        assert(seq![pairs[0]] + pairs.skip(1).push((k, v)) =~= pairs.push((k, v)));
    }
}

/// The deep view of a character vector is its view.
pub proof fn lemma_chars_deep_view(v: &Vec<char>)
    ensures
        v.deep_view() == v@,
{
    assert(v.deep_view() =~= v@);
}

/// The deep view of a pair vector, entry by entry.
pub proof fn lemma_pairs_deep_view(m: &Vec<(Vec<char>, Vec<char>)>)
    ensures
        m.deep_view().len() == m@.len(),
        forall|i: int| 0 <= i < m@.len() ==> #[trigger] m.deep_view()[i] == (m@[i].0@, m@[i].1@),
{
    assert forall|i: int| 0 <= i < m@.len() implies #[trigger] m.deep_view()[i] == (
        m@[i].0@,
        m@[i].1@,
    ) by {
        assert(m@[i].0.deep_view() =~= m@[i].0@);
        assert(m@[i].1.deep_view() =~= m@[i].1@);
    }
}

/// The deep view of a vector of character vectors, entry by entry.
pub proof fn lemma_texts_deep_view(m: &Vec<Vec<char>>)
    ensures
        m.deep_view().len() == m@.len(),
        forall|i: int| 0 <= i < m@.len() ==> #[trigger] m.deep_view()[i] == m@[i]@,
{
    assert forall|i: int| 0 <= i < m@.len() implies #[trigger] m.deep_view()[i] == m@[i]@ by {
        assert(m@[i].deep_view() =~= m@[i]@);
    }
}

/// The position of the first entry of `m` whose key is `k`, if any.
fn find_key(m: &Vec<(Vec<char>, Vec<char>)>, k: &Vec<char>) -> (r: Option<usize>)
    ensures
        match r {
            Some(i) => 0 <= i < m@.len() && m@[i as int].0@ == k@ && forall|j: int|
                0 <= j < i ==> m@[j].0@ != k@,
            None => forall|j: int| 0 <= j < m@.len() ==> m@[j].0@ != k@,
        },
{
    let mut i: usize = 0;
    while i < m.len()
        invariant
            i <= m@.len(),
            forall|j: int| 0 <= j < i ==> m@[j].0@ != k@,
        decreases m@.len() - i,
    {
        if crate::text::chars_eq(&m[i].0, k) {
            return Some(i);
        }
        i = i + 1;
    }
    None
}

/// Set the entry for key `k` to `v`: the first entry carrying `k` is
/// overwritten in place, and a missing key is appended at the end.
pub fn upsert(m: &mut Vec<(Vec<char>, Vec<char>)>, k: Vec<char>, v: Vec<char>)
    ensures
        final(m).deep_view() == upserted(old(m).deep_view(), k@, v@),
{
    proof {
        lemma_pairs_deep_view(m);
        lemma_chars_deep_view(&k);
        lemma_chars_deep_view(&v);
    }
    let ghost dv0 = m.deep_view();
    match find_key(m, &k) {
        Some(i) => {
            proof {
                assert(dv0[i as int].0 == k@);
                assert forall|j: int| 0 <= j < i implies dv0[j].0 != k@ by {
                    assert(dv0[j] == (old(m)@[j].0@, old(m)@[j].1@));
                }
                lemma_upserted_found(dv0, k@, v@, i as int);
            }
            m.remove(i);
            m.insert(i, (k, v));
            proof {
                lemma_pairs_deep_view(m);
                assert(m@ =~= old(m)@.update(i as int, (k, v)));
                assert(m.deep_view() =~= dv0.update(i as int, (k@, v@)));
            }
        },
        None => {
            proof {
                assert forall|j: int| 0 <= j < dv0.len() implies dv0[j].0 != k@ by {
                    assert(dv0[j] == (old(m)@[j].0@, old(m)@[j].1@));
                }
                lemma_upserted_absent(dv0, k@, v@);
            }
            m.push((k, v));
            proof {
                lemma_pairs_deep_view(m);
                assert(m@ =~= old(m)@.push((k, v)));
                assert(m.deep_view() =~= dv0.push((k@, v@)));
            }
        },
    }
}

} // verus!
