use vstd::prelude::*;

use crate::confidence::{FULL_CONFIDENCE, ONE_BITS};
use crate::language::LanguageTag;

verus! {

broadcast use vstd::seq_lib::group_to_multiset_ensures;

/// A candidate language with its confidence: `raw` is the engine's value as
/// its IEEE-754 bit pattern (compared as an integer, which orders non-negative
/// values numerically), `millis` the same value rounded to thousandths for
/// printing.
#[derive(Clone, Copy, Debug, PartialEq, Eq, Structural)]
pub struct ScoredLanguage {
    pub language: LanguageTag,
    pub raw: u64,
    pub millis: u32,
}

/// `a` may stand before `b` in a ranking: higher confidence first, equal
/// confidences in the declaration order of the languages (and, for entries
/// equal in both, the larger printed value first, which makes the order total).
pub open spec fn ranks_before(a: ScoredLanguage, b: ScoredLanguage) -> bool {
    a.raw > b.raw || (a.raw == b.raw && (a.language.rank_index() < b.language.rank_index() || (
    a.language.rank_index() == b.language.rank_index() && a.millis >= b.millis)))
}

/// Sorted by confidence, descending, ties broken by language order.
pub open spec fn is_ranked(s: Seq<ScoredLanguage>) -> bool {
    forall|i: int, j: int| 0 <= i < j < s.len() ==> ranks_before(#[trigger] s[i], #[trigger] s[j])
}

/// No candidate received any confidence: the engine found nothing to score.
pub open spec fn is_undetectable(s: Seq<ScoredLanguage>) -> bool {
    forall|i: int| 0 <= i < s.len() ==> (#[trigger] s[i]).raw == 0
}

/// Every confidence lies in [0, 1].
pub open spec fn confidences_in_range(s: Seq<ScoredLanguage>) -> bool {
    forall|i: int|
        0 <= i < s.len() ==> (#[trigger] s[i]).millis <= FULL_CONFIDENCE && s[i].raw <= ONE_BITS
}

/// What ranking `values` yields: nothing when no candidate scored, otherwise
/// the same entries sorted.
pub open spec fn ranking_of(values: Seq<ScoredLanguage>, r: Seq<ScoredLanguage>) -> bool {
    if is_undetectable(values) {
        r.len() == 0
    } else {
        is_ranked(r) && r.to_multiset() == values.to_multiset()
    }
}

/// The sum of the confidences, in thousandths.
pub open spec fn total_millis(s: Seq<ScoredLanguage>) -> int
    decreases s.len(),
{
    if s.len() == 0 {
        0
    } else {
        total_millis(s.drop_last()) + s.last().millis
    }
}

proof fn lemma_total_remove(s: Seq<ScoredLanguage>, j: int)
    requires
        0 <= j < s.len(),
    ensures
        total_millis(s) == total_millis(s.remove(j)) + s[j].millis,
    decreases s.len(),
{
    if j == s.len() - 1 {
        assert(s.remove(j) =~= s.drop_last());
    } else {
        lemma_total_remove(s.drop_last(), j);
        assert(s.remove(j).drop_last() =~= s.drop_last().remove(j));
        assert(s.remove(j).last() == s.last());
    }
}

/// Reordering entries keeps their total.
pub proof fn lemma_total_of_permutation(a: Seq<ScoredLanguage>, b: Seq<ScoredLanguage>)
    requires
        a.to_multiset() == b.to_multiset(),
    ensures
        total_millis(a) == total_millis(b),
    decreases a.len(),
{
    if a.len() == 0 {
        assert(b.to_multiset().len() == 0);
        assert(b.len() == 0);
    } else {
        let x = a.last();
        assert(a.drop_last().push(x) =~= a);
        assert(a.to_multiset() == a.drop_last().to_multiset().insert(x));
        assert(a.contains(x));
        assert(a.to_multiset().count(x) > 0);
        assert(b.to_multiset().count(x) > 0);
        assert(b.contains(x));
        let j = choose|j: int| 0 <= j < b.len() && b[j] == x;
        assert(b.remove(j).to_multiset() == b.to_multiset().remove(x));
        assert(a.drop_last().to_multiset() =~= a.to_multiset().remove(x));
        lemma_total_of_permutation(a.drop_last(), b.remove(j));
        lemma_total_remove(b, j);
    }
}

/// Decides [`ranks_before`].
pub fn ranks_before_exec(a: ScoredLanguage, b: ScoredLanguage) -> (r: bool)
    ensures
        r == ranks_before(a, b),
{
    a.raw > b.raw || (a.raw == b.raw && (a.language.index() < b.language.index() || (
    a.language.index() == b.language.index() && a.millis >= b.millis)))
}

proof fn lemma_ranks_before_total(a: ScoredLanguage, b: ScoredLanguage)
    ensures
        ranks_before(a, b) || ranks_before(b, a),
{
}

/// Sorts the engine's values into a ranking; an undetectable input ranks to
/// the empty sequence.
pub fn rank(values: &Vec<ScoredLanguage>) -> (r: Vec<ScoredLanguage>)
    ensures
        ranking_of(values@, r@),
{
    let mut out: Vec<ScoredLanguage> = Vec::new();
    let mut any_scored = false;
    let mut i: usize = 0;
    while i < values.len()
        invariant
            i <= values@.len(),
            is_ranked(out@),
            out@.to_multiset() == values@.subrange(0, i as int).to_multiset(),
            any_scored <==> exists|k: int| 0 <= k < i && (#[trigger] values@[k]).raw != 0,
        decreases values@.len() - i,
    {
        let x = values[i];
        if x.raw != 0 {
            any_scored = true;
        }
        let mut j: usize = 0;
        while j < out.len() && ranks_before_exec(out[j], x)
            invariant
                j <= out@.len(),
                forall|k: int| 0 <= k < j ==> ranks_before(#[trigger] out@[k], x),
            decreases out@.len() - j,
        {
            j = j + 1;
        }
        let ghost prev = out@;
        out.insert(j, x);
        proof {
            assert forall|a: int, b: int| 0 <= a < b < out@.len() implies ranks_before(
                #[trigger] out@[a],
                #[trigger] out@[b],
            ) by {
                if j < prev.len() {
                    lemma_ranks_before_total(prev[j as int], x);
                }
                if b < j {
                } else if a < j && b == j {
                } else if a < j {
                    assert(out@[b] == prev[b - 1]);
                } else if a == j {
                    assert(out@[b] == prev[b - 1]);
                    assert(ranks_before(x, prev[j as int]));
                    if b - 1 > j {
                        assert(ranks_before(prev[j as int], prev[b - 1]));
                    }
                } else {
                    assert(out@[a] == prev[a - 1]);
                    assert(out@[b] == prev[b - 1]);
                }
            }
            assert(values@.subrange(0, i + 1) =~= values@.subrange(0, i as int).push(x));
        }
        i = i + 1;
    }
    proof {
        assert(values@.subrange(0, i as int) =~= values@);
    }
    if any_scored {
        out
    } else {
        Vec::new()
    }
}

} // verus!
