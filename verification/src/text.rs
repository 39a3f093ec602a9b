//! Text as a sequence of characters: substring replacement, splitting, and
//! the lemmas that relate the two.

use vstd::prelude::*;

verus! {

/// `text` with every non-overlapping occurrence of `pat` replaced by `sub`,
/// scanning left to right.  An empty `pat` matches at every character
/// boundary, so `sub` is inserted before and after every character.
pub open spec fn replaced(text: Seq<char>, pat: Seq<char>, sub: Seq<char>) -> Seq<char>
    decreases text.len(),
{
    if pat.len() == 0 {
        if text.len() == 0 {
            sub
        } else {
            sub + seq![text[0]] + replaced(text.skip(1), pat, sub)
        }
    } else if text.len() < pat.len() {
        text
    } else if text.take(pat.len() as int) == pat {
        sub + replaced(text.skip(pat.len() as int), pat, sub)
    } else {
        seq![text[0]] + replaced(text.skip(1), pat, sub)
    }
}

/// Do two character vectors hold the same characters?
pub fn chars_eq(a: &Vec<char>, b: &Vec<char>) -> (r: bool)
    ensures
        r == (a@ == b@),
{
    if a.len() != b.len() {
        assert(a@ != b@);
        return false;
    }
    let mut i: usize = 0;
    while i < a.len()
        invariant
            i <= a@.len(),
            a@.len() == b@.len(),
            forall|k: int| 0 <= k < i ==> a@[k] == b@[k],
        decreases a@.len() - i,
    {
        if a[i] != b[i] {
            assert(a@ != b@);
            return false;
        }
        i = i + 1;
    }
    assert(a@ =~= b@);
    true
}

/// Does `pat` occur in `text` at position `i`?
fn matches_at(text: &Vec<char>, pat: &Vec<char>, i: usize) -> (r: bool)
    requires
        i + pat@.len() <= text@.len(),
    ensures
        r == (text@.subrange(i as int, i + pat@.len()) == pat@),
{
    let n = text.len();
    let mut j: usize = 0;
    while j < pat.len()
        invariant
            j <= pat@.len(),
            i + pat@.len() <= text@.len(),
            n == text@.len(),
            forall|k: int| 0 <= k < j ==> text@[i + k] == pat@[k],
        decreases pat@.len() - j,
    {
        if text[i + j] != pat[j] {
            assert(text@.subrange(i as int, i + pat@.len())[j as int] != pat@[j as int]);
            return false;
        }
        j = j + 1;
    }
    assert(text@.subrange(i as int, i + pat@.len()) =~= pat@);
    true
}

/// Append every character of `s` to `out`.
fn push_all(out: &mut Vec<char>, s: &Vec<char>)
    ensures
        final(out)@ == old(out)@ + s@,
{
    let mut i: usize = 0;
    while i < s.len()
        invariant
            i <= s@.len(),
            out@ == old(out)@ + s@.take(i as int),
        decreases s@.len() - i,
    {
        out.push(s[i]);
        assert(old(out)@ + s@.take(i as int) + seq![s@[i as int]] =~= old(out)@ + s@.take(
            i + 1,
        ));
        i = i + 1;
    }
    assert(old(out)@ + s@.take(s@.len() as int) =~= old(out)@ + s@);
}

/// A copy of `v`.
pub fn clone_chars(v: &Vec<char>) -> (r: Vec<char>)
    ensures
        r@ == v@,
{
    let mut out: Vec<char> = Vec::new();
    push_all(&mut out, v);
    assert(out@ =~= v@);
    out
}

/// Every non-overlapping occurrence of `pattern`, taken as a plain substring,
/// replaced by `substitute`.
pub fn search_and_replace(contents: &Vec<char>, pattern: &Vec<char>, substitute: &Vec<char>) -> (r:
    Vec<char>)
    ensures
        r@ == replaced(contents@, pattern@, substitute@),
{
    let ghost goal = replaced(contents@, pattern@, substitute@);
    let mut out: Vec<char> = Vec::new();
    let mut i: usize = 0;
    if pattern.len() == 0 {
        proof {
            lemma_tail_empty_unfold(contents@, pattern@, substitute@, 0);
            assert(contents@.skip(0) =~= contents@);
        }
        while i < contents.len()
            invariant
                i <= contents@.len(),
                pattern@.len() == 0,
                goal == replaced(contents@, pattern@, substitute@),
                goal == out@ + substitute@ + replaced_tail_empty(contents@, substitute@, i as int),
            decreases contents@.len() - i,
        {
            let ghost out0 = out@;
            push_all(&mut out, substitute);
            out.push(contents[i]);
            proof {
                assert(replaced_tail_empty(contents@, substitute@, i as int) == seq![
                    contents@[i as int],
                ] + substitute@ + replaced_tail_empty(contents@, substitute@, i + 1));
                assert(out0 + substitute@ + (seq![contents@[i as int]] + substitute@
                    + replaced_tail_empty(contents@, substitute@, i + 1)) =~= out@ + substitute@
                    + replaced_tail_empty(contents@, substitute@, i + 1));
            }
            i = i + 1;
        }
        let ghost out0 = out@;
        push_all(&mut out, substitute);
        proof {
            assert(replaced_tail_empty(contents@, substitute@, i as int) == Seq::<char>::empty());
            assert(out0 + substitute@ + Seq::<char>::empty() =~= out@);
            assert(out@ == goal);
        }
    } else {
        proof {
            assert(contents@.skip(0) =~= contents@);
        }
        while i < contents.len()
            invariant
                i <= contents@.len(),
                pattern@.len() > 0,
                goal == replaced(contents@, pattern@, substitute@),
                goal == out@ + replaced(contents@.skip(i as int), pattern@, substitute@),
            decreases contents@.len() - i,
        {
            let remaining = contents.len() - i;
            if remaining >= pattern.len() && matches_at(contents, pattern, i) {
                proof {
                    assert(contents@.skip(i as int).take(pattern@.len() as int) =~= contents@
                        .subrange(i as int, i + pattern@.len()));
                    assert(contents@.skip(i as int).skip(pattern@.len() as int) =~= contents@.skip(
                        i + pattern@.len(),
                    ));
                    assert(replaced(contents@.skip(i as int), pattern@, substitute@) == substitute@
                        + replaced(contents@.skip(i + pattern@.len()), pattern@, substitute@));
                }
                push_all(&mut out, substitute);
                proof {
                    assert(out@ + replaced(contents@.skip(i + pattern@.len()), pattern@, substitute@)
                        =~= goal);
                }
                i = i + pattern.len();
            } else {
                proof {
                    let tail = contents@.skip(i as int);
                    if tail.len() >= pattern@.len() {
                        assert(tail.take(pattern@.len() as int) =~= contents@.subrange(
                            i as int,
                            i + pattern@.len(),
                        ));
                        assert(tail.take(pattern@.len() as int) != pattern@);
                    }
                    assert(tail[0] == contents@[i as int]);
                    assert(tail.skip(1) =~= contents@.skip(i + 1));
                    assert(replaced(tail, pattern@, substitute@) == seq![contents@[i as int]]
                        + replaced(contents@.skip(i + 1), pattern@, substitute@));
                }
                out.push(contents[i]);
                proof {
                    assert(out@ + replaced(contents@.skip(i + 1), pattern@, substitute@) =~= goal);
                }
                i = i + 1;
            }
        }
        proof {
            assert(contents@.skip(i as int) =~= Seq::<char>::empty());
            assert(replaced(contents@.skip(i as int), pattern@, substitute@) == Seq::<
                char,
            >::empty());
            assert(out@ =~= goal);
        }
    }
    out
}

/// The stretches of `text` that no non-overlapping left-to-right occurrence
/// of `pat` covers: the pieces of `text` between consecutive occurrences,
/// including the (possibly empty) pieces before the first and after the last.
pub open spec fn pattern_segments(text: Seq<char>, pat: Seq<char>) -> Seq<Seq<char>>
    decreases text.len(),
{
    if pat.len() == 0 || text.len() < pat.len() {
        seq![text]
    } else if text.take(pat.len() as int) == pat {
        seq![Seq::<char>::empty()] + pattern_segments(text.skip(pat.len() as int), pat)
    } else {
        let rest = pattern_segments(text.skip(1), pat);
        seq![seq![text[0]] + rest[0]] + rest.skip(1)
    }
}

/// `pieces` joined with `glue` between consecutive pieces.
pub open spec fn joined(pieces: Seq<Seq<char>>, glue: Seq<char>) -> Seq<char>
    decreases pieces.len(),
{
    if pieces.len() == 0 {
        Seq::empty()
    } else if pieces.len() == 1 {
        pieces[0]
    } else {
        pieces[0] + glue + joined(pieces.skip(1), glue)
    }
}

proof fn lemma_segments_nonempty(text: Seq<char>, pat: Seq<char>)
    ensures
        pattern_segments(text, pat).len() >= 1,
    decreases text.len(),
{
    if pat.len() == 0 || text.len() < pat.len() {
    } else if text.take(pat.len() as int) == pat {
    } else {
        lemma_segments_nonempty(text.skip(1), pat);
    }
}

/// Literal replacement only touches the occurrences of the pattern: `text`
/// is exactly its unmatched stretches joined by the pattern, and the result
/// of the replacement is exactly the same stretches, kept verbatim, joined
/// by the substitute.
pub proof fn lemma_replaced_decomposition(text: Seq<char>, pat: Seq<char>, sub: Seq<char>)
    requires
        pat.len() > 0,
    ensures
        joined(pattern_segments(text, pat), pat) == text,
        replaced(text, pat, sub) == joined(pattern_segments(text, pat), sub),
    decreases text.len(),
{
    let segs = pattern_segments(text, pat);
    if text.len() < pat.len() {
        assert(segs == seq![text]);
        assert(joined(segs, pat) == text);
        assert(joined(segs, sub) == text);
    } else if text.take(pat.len() as int) == pat {
        let tail = text.skip(pat.len() as int);
        lemma_replaced_decomposition(tail, pat, sub);
        lemma_segments_nonempty(tail, pat);
        let rest = pattern_segments(tail, pat);
        assert(segs == seq![Seq::<char>::empty()] + rest);
        assert(segs.len() >= 2);
        assert(segs[0] == Seq::<char>::empty());
        assert(segs.skip(1) =~= rest);
        assert(joined(segs, pat) == Seq::<char>::empty() + pat + joined(rest, pat));
        assert(Seq::<char>::empty() + pat + tail =~= text.take(pat.len() as int) + tail);
        assert(text.take(pat.len() as int) + tail =~= text);
        assert(joined(segs, pat) == text);
        assert(replaced(text, pat, sub) == sub + joined(rest, sub));
        assert(joined(segs, sub) == Seq::<char>::empty() + sub + joined(rest, sub));
        assert(Seq::<char>::empty() + sub + joined(rest, sub) =~= sub + joined(rest, sub));
        assert(replaced(text, pat, sub) == joined(segs, sub));
    } else {
        let tail = text.skip(1);
        lemma_replaced_decomposition(tail, pat, sub);
        lemma_segments_nonempty(tail, pat);
        let rest = pattern_segments(tail, pat);
        let head = seq![text[0]] + rest[0];
        assert(segs == seq![head] + rest.skip(1));
        assert(segs[0] == head);
        assert(segs.len() == rest.len());
        assert(seq![text[0]] + tail =~= text);
        if rest.len() == 1 {
            assert(segs.len() == 1);
            assert(joined(rest, pat) == rest[0]);
            assert(joined(segs, pat) == head);
            assert(head =~= seq![text[0]] + joined(rest, pat));
            assert(joined(segs, pat) == text);
            assert(joined(rest, sub) == rest[0]);
            assert(joined(segs, sub) == head);
            assert(replaced(text, pat, sub) == seq![text[0]] + replaced(tail, pat, sub));
            assert(seq![text[0]] + joined(rest, sub) =~= head);
            assert(replaced(text, pat, sub) == joined(segs, sub));
        } else {
            assert(segs.len() >= 2);
            assert(segs.skip(1) =~= rest.skip(1));
            assert(joined(segs, pat) == head + pat + joined(rest.skip(1), pat));
            assert(joined(rest, pat) == rest[0] + pat + joined(rest.skip(1), pat));
            assert(head + pat + joined(rest.skip(1), pat) =~= seq![text[0]] + (rest[0] + pat
                + joined(rest.skip(1), pat)));
            assert(joined(segs, pat) == seq![text[0]] + joined(rest, pat));
            assert(joined(segs, pat) == text);
            assert(joined(segs, sub) == head + sub + joined(rest.skip(1), sub));
            assert(joined(rest, sub) == rest[0] + sub + joined(rest.skip(1), sub));
            assert(head + sub + joined(rest.skip(1), sub) =~= seq![text[0]] + (rest[0] + sub
                + joined(rest.skip(1), sub)));
            assert(joined(segs, sub) == seq![text[0]] + joined(rest, sub));
            assert(replaced(text, pat, sub) == seq![text[0]] + replaced(tail, pat, sub));
            assert(replaced(text, pat, sub) == joined(segs, sub));
        }
    }
}

/// Does `pat` occur anywhere in `text` as a contiguous run?
pub open spec fn occurs_in(text: Seq<char>, pat: Seq<char>) -> bool {
    exists|i: int|
        0 <= i && i + pat.len() <= text.len() && #[trigger] text.subrange(i, i + pat.len()) == pat
}

proof fn lemma_first_segment_prefix(text: Seq<char>, pat: Seq<char>)
    requires
        pat.len() > 0,
    ensures
        pattern_segments(text, pat)[0].len() <= text.len(),
        pattern_segments(text, pat)[0] == text.take(pattern_segments(text, pat)[0].len() as int),
    decreases text.len(),
{
    let head = pattern_segments(text, pat)[0];
    if text.len() < pat.len() {
        assert(head == text);
        assert(text.take(text.len() as int) =~= text);
    } else if text.take(pat.len() as int) == pat {
        assert(head == Seq::<char>::empty());
        assert(text.take(0) =~= Seq::<char>::empty());
    } else {
        let tail = text.skip(1);
        lemma_first_segment_prefix(tail, pat);
        let rest0 = pattern_segments(tail, pat)[0];
        assert(head == seq![text[0]] + rest0);
        assert(seq![text[0]] + tail.take(rest0.len() as int) =~= text.take(rest0.len() as int + 1));
    }
}

/// The unmatched stretches really are unmatched: no stretch of the
/// decomposition holds an occurrence of the pattern.
pub proof fn lemma_segments_unmatched(text: Seq<char>, pat: Seq<char>)
    requires
        pat.len() > 0,
    ensures
        forall|k: int|
            0 <= k < pattern_segments(text, pat).len() ==> !occurs_in(
                #[trigger] pattern_segments(text, pat)[k],
                pat,
            ),
    decreases text.len(),
{
    let segs = pattern_segments(text, pat);
    if text.len() < pat.len() {
        assert forall|k: int| 0 <= k < segs.len() implies !occurs_in(segs[k], pat) by {
            assert(segs[k] == text);
        }
    } else if text.take(pat.len() as int) == pat {
        let rest = pattern_segments(text.skip(pat.len() as int), pat);
        lemma_segments_unmatched(text.skip(pat.len() as int), pat);
        assert forall|k: int| 0 <= k < segs.len() implies !occurs_in(segs[k], pat) by {
            if k == 0 {
                assert(segs[0] == Seq::<char>::empty());
            } else {
                assert(segs[k] == rest[k - 1]);
            }
        }
    } else {
        let tail = text.skip(1);
        let rest = pattern_segments(tail, pat);
        lemma_segments_unmatched(tail, pat);
        lemma_segments_nonempty(tail, pat);
        assert forall|k: int| 0 <= k < segs.len() implies !occurs_in(segs[k], pat) by {
            if k == 0 {
                let head = seq![text[0]] + rest[0];
                assert(segs[0] == head);
                if occurs_in(head, pat) {
                    let i = choose|i: int|
                        0 <= i && i + pat.len() <= head.len() && #[trigger] head.subrange(
                            i,
                            i + pat.len(),
                        ) == pat;
                    if i == 0 {
                        lemma_first_segment_prefix(text, pat);
                        assert(head == text.take(head.len() as int));
                        assert(head.subrange(0, pat.len() as int) =~= text.take(
                            pat.len() as int,
                        ));
                        assert(false);
                    } else {
                        assert(head.subrange(i, i + pat.len()) =~= rest[0].subrange(
                            i - 1,
                            i - 1 + pat.len(),
                        ));
                        assert(occurs_in(rest[0], pat));
                        assert(false);
                    }
                }
            } else {
                assert(segs[k] == rest[k]);
            }
        }
    }
}

/// What remains of an empty-pattern replacement after the first `i`
/// characters have been emitted: the interleaving of `sub` with the
/// characters of `text` from position `i` on, without the leading `sub`.
spec fn replaced_tail_empty(text: Seq<char>, sub: Seq<char>, i: int) -> Seq<char>
    decreases text.len() - i,
{
    if i < 0 || i >= text.len() {
        Seq::empty()
    } else {
        seq![text[i]] + sub + replaced_tail_empty(text, sub, i + 1)
    }
}

proof fn lemma_tail_empty_unfold(text: Seq<char>, pat: Seq<char>, sub: Seq<char>, i: int)
    requires
        pat.len() == 0,
        0 <= i <= text.len(),
    ensures
        replaced(text.skip(i), pat, sub) == sub + replaced_tail_empty(text, sub, i),
    decreases text.len() - i,
{
    let tail = text.skip(i);
    if i == text.len() {
        assert(tail =~= Seq::<char>::empty());
        assert(sub + replaced_tail_empty(text, sub, i) =~= sub);
    } else {
        assert(tail.len() > 0);
        assert(tail[0] == text[i]);
        assert(tail.skip(1) =~= text.skip(i + 1));
        lemma_tail_empty_unfold(text, pat, sub, i + 1);
        assert(replaced(tail, pat, sub) == sub + seq![text[i]] + replaced(
            text.skip(i + 1),
            pat,
            sub,
        ));
        assert(sub + seq![text[i]] + (sub + replaced_tail_empty(text, sub, i + 1)) =~= sub + (
        seq![text[i]] + sub + replaced_tail_empty(text, sub, i + 1)));
    }
}

} // verus!
