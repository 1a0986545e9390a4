use vstd::prelude::*;

use crate::confidence::{millis_text, FULL_CONFIDENCE, ONE_BITS};
use crate::detector::{engine_set, is_admissible_ranking, is_detection_ranking, is_engine_report};
use crate::engine::confidence_outcome;
use crate::facade::best_with_confidence_text;
use crate::ranking::total_millis;
use crate::facade::{above_threshold, multiple_text, top_n, top_text};
use crate::language::{lemma_language_injective, LanguageTag};
use crate::ranking::{confidences_in_range, is_ranked, is_undetectable, ranking_of, ranks_before, ScoredLanguage};

verus! {

broadcast use vstd::seq_lib::group_to_multiset_ensures;

/// A threshold of zero keeps every entry, in order.
pub proof fn lemma_zero_threshold_keeps_all(s: Seq<ScoredLanguage>)
    ensures
        above_threshold(s, 0) == s,
    decreases s.len(),
{
    if s.len() > 0 {
        lemma_zero_threshold_keeps_all(s.drop_last());
        assert(s.drop_last().push(s.last()) =~= s);
    }
}

/// An admissible ranking that is not empty lists every candidate exactly once.
pub proof fn lemma_ranking_covers_candidates(candidates: Seq<LanguageTag>, ranked: Seq<ScoredLanguage>)
    requires
        candidates.no_duplicates(),
        is_admissible_ranking(candidates, ranked),
        ranked.len() > 0,
    ensures
        ranked.len() == candidates.len(),
{
    let values = choose|values: Seq<ScoredLanguage>|
        is_engine_report(candidates, values) && ranking_of(values, ranked);
    if is_undetectable(values) {
        assert(false);
    }
    assert(ranked.to_multiset().len() == values.to_multiset().len());
    let langs = values.map_values(|e: ScoredLanguage| e.language);
    assert(langs.no_duplicates()) by {
        assert forall|i: int, j: int| 0 <= i < langs.len() && 0 <= j < langs.len() && i != j implies
            #[trigger] langs[i] != #[trigger] langs[j] by {
            if i < j {
                assert(values[i].language != values[j].language);
            } else {
                assert(values[j].language != values[i].language);
            }
        }
    }
    assert(langs.to_set() =~= candidates.to_set()) by {
        assert forall|c: LanguageTag| langs.contains(c) <==> candidates.contains(c) by {
            if langs.contains(c) {
                let i = choose|i: int| 0 <= i < langs.len() && langs[i] == c;
                assert(candidates.contains(values[i].language));
            }
            if candidates.contains(c) {
                let i = choose|i: int| 0 <= i < values.len() && values[i].language == c;
                assert(langs[i] == c);
            }
        }
    }
    langs.unique_seq_to_set();
    candidates.unique_seq_to_set();
}

/// Every confidence in an admissible ranking lies in [0, 1].
pub proof fn lemma_ranked_confidences_in_range(candidates: Seq<LanguageTag>, ranked: Seq<ScoredLanguage>)
    requires
        is_admissible_ranking(candidates, ranked),
    ensures
        confidences_in_range(ranked),
{
    let values = choose|values: Seq<ScoredLanguage>|
        is_engine_report(candidates, values) && ranking_of(values, ranked);
    if !is_undetectable(values) {
        assert forall|i: int| 0 <= i < ranked.len() implies (#[trigger] ranked[i]).millis
            <= FULL_CONFIDENCE && ranked[i].raw <= ONE_BITS by {
            assert(ranked.contains(ranked[i]));
            assert(ranked.to_multiset().count(ranked[i]) > 0);
            assert(values.to_multiset().count(ranked[i]) > 0);
        }
    }
}

/// Every confidence a detection reports lies in [0, 1], and when anything is
/// detected they sum to 1 within half a thousandth per entry.
pub proof fn lemma_detection_confidences(
    candidates: Seq<LanguageTag>,
    text: Seq<char>,
    ranked: Seq<ScoredLanguage>,
)
    requires
        is_detection_ranking(candidates, text, ranked),
    ensures
        confidences_in_range(ranked),
        ranked.len() > 0 ==> 1000 - ranked.len() / 2 <= total_millis(ranked) <= 1000
            + ranked.len() / 2,
{
    lemma_ranked_confidences_in_range(candidates, ranked);
}

/// Text whose language the engine's rules settle (a script unique to one
/// candidate) is reported as that language at 1.000, ahead of every other
/// language at 0.000.
pub proof fn lemma_rule_verdict_is_certain(
    candidates: Seq<LanguageTag>,
    text: Seq<char>,
    ranked: Seq<ScoredLanguage>,
    l: lingua::Language,
)
    requires
        is_detection_ranking(candidates, text, ranked),
        confidence_outcome(engine_set(candidates), text) == Some(Some(l)),
    ensures
        ranked.len() > 0,
        ranked[0].language.engine_spec() == l,
        ranked[0].raw == ONE_BITS,
        best_with_confidence_text(ranked) == ranked[0].language.tag_text() + ":"@ + millis_text(
            FULL_CONFIDENCE as nat,
        ),
        forall|i: int| 1 <= i < ranked.len() && ranked[i].language != ranked[0].language ==> (#[trigger] ranked[i]).millis == 0,
{
    assert forall|i: int| 1 <= i < ranked.len() && ranked[i].language != ranked[0].language implies (#[trigger] ranked[i]).millis == 0 by {
        lemma_language_injective(ranked[i].language, ranked[0].language);
    }
}

/// Over one ranking, asking for every entry at or above a zero threshold and
/// asking for the top |candidates| entries give the same text.
pub proof fn lemma_zero_threshold_matches_full_top(
    candidates: Seq<LanguageTag>,
    ranked: Seq<ScoredLanguage>,
)
    requires
        candidates.no_duplicates(),
        is_admissible_ranking(candidates, ranked),
        ranked.len() > 0,
    ensures
        multiple_text(ranked, 0) == top_text(ranked, candidates.len() as int),
{
    lemma_zero_threshold_keeps_all(ranked);
    lemma_ranking_covers_candidates(candidates, ranked);
    assert(top_n(ranked, candidates.len() as int) =~= ranked);
}

/// Asking for the top zero entries yields `no_languages_detected`; asking for
/// at least |candidates| entries yields the whole ranking.
pub proof fn lemma_top_n_bounds(candidates: Seq<LanguageTag>, ranked: Seq<ScoredLanguage>, n: int)
    requires
        candidates.no_duplicates(),
        is_admissible_ranking(candidates, ranked),
    ensures
        top_text(ranked, 0) == "no_languages_detected"@,
        n >= candidates.len() ==> top_n(ranked, n) == ranked,
{
    assert(top_n(ranked, 0) =~= Seq::<ScoredLanguage>::empty());
    if ranked.len() > 0 {
        lemma_ranking_covers_candidates(candidates, ranked);
    }
    if n >= candidates.len() {
        assert(top_n(ranked, n) =~= ranked);
    }
}

proof fn lemma_nothing_above(s: Seq<ScoredLanguage>)
    requires
        forall|i: int| 0 <= i < s.len() ==> (#[trigger] s[i]).raw < ONE_BITS,
    ensures
        above_threshold(s, ONE_BITS as nat).len() == 0,
    decreases s.len(),
{
    if s.len() > 0 {
        lemma_nothing_above(s.drop_last());
    }
}

/// When no confidence is exactly 1, a threshold of 1 keeps nothing and yields
/// `no_languages_above_threshold`.
pub proof fn lemma_full_threshold_on_uncertain(ranked: Seq<ScoredLanguage>)
    requires
        forall|i: int| 0 <= i < ranked.len() ==> (#[trigger] ranked[i]).raw < ONE_BITS,
    ensures
        multiple_text(ranked, ONE_BITS as nat) == "no_languages_above_threshold"@,
{
    lemma_nothing_above(ranked);
}

proof fn lemma_ranked_unique(a: Seq<ScoredLanguage>, b: Seq<ScoredLanguage>)
    requires
        is_ranked(a),
        is_ranked(b),
        a.to_multiset() == b.to_multiset(),
    ensures
        a == b,
    decreases a.len(),
{
    if a.len() == 0 {
        assert(a.to_multiset().len() == b.to_multiset().len());
        assert(a =~= b);
    } else {
        assert(a.to_multiset().len() == b.to_multiset().len());
        assert(a.contains(a[0]));
        assert(a.to_multiset().count(a[0]) > 0);
        assert(b.to_multiset().count(a[0]) > 0);
        assert(b.contains(b[0]));
        assert(b.to_multiset().count(b[0]) > 0);
        assert(a.to_multiset().count(b[0]) > 0);
        let j = choose|j: int| 0 <= j < b.len() && b[j] == a[0];
        let k = choose|k: int| 0 <= k < a.len() && a[k] == b[0];
        if j > 0 {
            assert(ranks_before(b[0], b[j]));
        }
        if k > 0 {
            assert(ranks_before(a[0], a[k]));
        }
        assert(ranks_before(b[0], a[0]));
        assert(ranks_before(a[0], b[0]));
        lemma_language_injective(a[0].language, b[0].language);
        assert(a[0] == b[0]);
        assert(a.remove(0) =~= a.drop_first());
        assert(b.remove(0) =~= b.drop_first());
        lemma_ranked_unique(a.drop_first(), b.drop_first());
        assert forall|i: int| 0 <= i < a.len() implies a[i] == b[i] by {
            if i > 0 {
                assert(a[i] == a.drop_first()[i - 1]);
                assert(b[i] == b.drop_first()[i - 1]);
            }
        }
        assert(a =~= b);
    }
}

/// The ranking depends only on which entries the engine reports, not on the
/// order it reports them in: equal reports, in any order, rank identically,
/// so every operation over them gives identical text.
pub proof fn lemma_ranking_deterministic(
    v1: Seq<ScoredLanguage>,
    v2: Seq<ScoredLanguage>,
    r1: Seq<ScoredLanguage>,
    r2: Seq<ScoredLanguage>,
)
    requires
        v1.to_multiset() == v2.to_multiset(),
        ranking_of(v1, r1),
        ranking_of(v2, r2),
    ensures
        r1 == r2,
{
    if is_undetectable(v1) != is_undetectable(v2) {
        if !is_undetectable(v1) {
            let i = choose|i: int| 0 <= i < v1.len() && v1[i].raw != 0;
            assert(v1.contains(v1[i]));
            assert(v1.to_multiset().count(v1[i]) > 0);
            assert(v2.to_multiset().count(v1[i]) > 0);
        } else {
            let i = choose|i: int| 0 <= i < v2.len() && v2[i].raw != 0;
            assert(v2.contains(v2[i]));
            assert(v2.to_multiset().count(v2[i]) > 0);
            assert(v1.to_multiset().count(v2[i]) > 0);
        }
    }
    if is_undetectable(v1) {
        assert(r1 =~= r2);
    } else {
        lemma_ranked_unique(r1, r2);
    }
}

} // verus!
