use vstd::prelude::*;

use crate::confidence::{
    lemma_text_millis, millis_text, parse_millis, text_millis, FULL_CONFIDENCE, ONE_BITS,
};
use crate::engine::{
    report_total, build_detector, confidence_outcome, confidence_values, decode_utf8, detector_languages,
};
use crate::facade::{
    best_guess, best_guess_text, best_with_confidence, best_with_confidence_text, multiple_above,
    multiple_text, top_languages, top_text,
};
use crate::language::{lemma_language_injective, LanguageTag};
use crate::ranking::{
    confidences_in_range, is_undetectable, lemma_total_of_permutation, total_millis, rank, ranking_of, ranks_before, ScoredLanguage,
};

verus! {

broadcast use vstd::seq_lib::group_to_multiset_ensures;

/// What the engine may report for `candidates`: every candidate exactly once,
/// each with a confidence in [0, 1], in any order.
pub open spec fn is_engine_report(candidates: Seq<LanguageTag>, values: Seq<ScoredLanguage>) -> bool {
    &&& forall|i: int| 0 <= i < values.len() ==> candidates.contains(#[trigger] values[i].language)
    &&& forall|c: LanguageTag| #[trigger]
        candidates.contains(c) ==> exists|i: int| 0 <= i < values.len() && values[i].language == c
    &&& forall|i: int, j: int|
        0 <= i < j < values.len() ==> #[trigger] values[i].language != #[trigger] values[j].language
    &&& confidences_in_range(values)
}

/// A ranking that detection over `candidates` may produce for some text: the
/// ranking of some report of the engine.
pub open spec fn is_admissible_ranking(candidates: Seq<LanguageTag>, ranked: Seq<ScoredLanguage>) -> bool {
    exists|values: Seq<ScoredLanguage>| is_engine_report(candidates, values) && ranking_of(values, ranked)
}

/// The engine's languages for a candidate list.
pub open spec fn engine_set(candidates: Seq<LanguageTag>) -> Set<lingua::Language> {
    candidates.map_values(|l: LanguageTag| l.engine_spec()).to_set()
}

/// A ranking that detection over `candidates` may produce for `text`: an
/// admissible ranking that is empty exactly when the engine scores nothing
/// (so always for empty text),
/// and that puts a language settled by the engine's rules first at 1.000 with
/// every other language at 0.000; the confidences of a non-empty ranking sum
/// to 1 within half a thousandth per entry.
pub open spec fn is_detection_ranking(
    candidates: Seq<LanguageTag>,
    text: Seq<char>,
    ranked: Seq<ScoredLanguage>,
) -> bool {
    &&& is_admissible_ranking(candidates, ranked)
    &&& (ranked.len() > 0 <==> confidence_outcome(engine_set(candidates), text) is Some)
    &&& text.len() == 0 ==> ranked.len() == 0
    &&& ranked.len() > 0 ==> 2 * (total_millis(ranked) - 1000) <= ranked.len() && 2 * (1000
        - total_millis(ranked)) <= ranked.len()
    &&& confidence_outcome(engine_set(candidates), text) matches Some(Some(l)) ==> {
        &&& ranked.len() > 0
        &&& ranked[0].language.engine_spec() == l
        &&& forall|i: int|
            0 <= i < ranked.len() ==> (#[trigger] ranked[i]).millis == if ranked[i].language.engine_spec()
                == l {
                FULL_CONFIDENCE
            } else {
                0
            }
        &&& forall|i: int|
            0 <= i < ranked.len() ==> (#[trigger] ranked[i]).raw == if ranked[i].language.engine_spec()
                == l {
                ONE_BITS
            } else {
                0
            }
    }
}

/// Turns the engine's report into scored languages, entry by entry.
pub fn scored_from_report(raw: &Vec<(lingua::Language, u64, String)>) -> (r: Vec<ScoredLanguage>)
    ensures
        r@.len() == raw@.len(),
        forall|k: int|
            0 <= k < raw@.len() ==> (#[trigger] r@[k]).language.engine_spec() == raw@[k].0
                && r@[k].raw == raw@[k].1 && r@[k].millis as nat == text_millis(raw@[k].2@),
        total_millis(r@) == report_total(raw@),
{
    let mut values: Vec<ScoredLanguage> = Vec::new();
    let mut i: usize = 0;
    while i < raw.len()
        invariant
            i <= raw@.len(),
            values@.len() == i,
            forall|k: int|
                0 <= k < i ==> (#[trigger] values@[k]).language.engine_spec() == raw@[k].0
                    && values@[k].raw == raw@[k].1 && values@[k].millis as nat == text_millis(
                    raw@[k].2@,
                ),
            total_millis(values@) == report_total(raw@.take(i as int)),
        decreases raw@.len() - i,
    {
        let entry = &raw[i];
        let millis = match parse_millis(&entry.2) {
            Some(m) => m,
            None => 0,
        };
        let ghost prev = values@;
        values.push(
            ScoredLanguage { language: LanguageTag::from_engine(entry.0), raw: entry.1, millis },
        );
        proof {
            assert(raw@.take(i + 1).drop_last() =~= raw@.take(i as int));
            assert(values@.drop_last() =~= prev);
        }
        i = i + 1;
    }
    assert(raw@.take(i as int) =~= raw@);
    values
}

proof fn lemma_same_members(a: Seq<ScoredLanguage>, b: Seq<ScoredLanguage>, i: int)
    requires
        a.to_multiset() == b.to_multiset(),
        0 <= i < a.len(),
    ensures
        exists|q: int| 0 <= q < b.len() && b[q] == a[i],
{
    assert(a.contains(a[i]));
    assert(a.to_multiset().count(a[i]) > 0);
    assert(b.to_multiset().count(a[i]) > 0);
    assert(b.contains(a[i]));
}

/// The sentinel returned for input that is not well-formed UTF-8.
pub open spec fn invalid_utf8_text() -> Seq<char> {
    "error: invalid utf8"@
}

/// The full candidate set, in declaration order.
pub open spec fn all_languages() -> Seq<LanguageTag> {
    seq![
        LanguageTag::English,
        LanguageTag::Spanish,
        LanguageTag::French,
        LanguageTag::German,
        LanguageTag::Italian,
        LanguageTag::Portuguese,
        LanguageTag::Russian,
        LanguageTag::Japanese,
        LanguageTag::Korean,
        LanguageTag::Chinese,
        LanguageTag::Indonesian,
        LanguageTag::Malay,
        LanguageTag::Thai,
        LanguageTag::Vietnamese,
        LanguageTag::Tagalog,
    ]
}

/// The detection engine: a lingua detector and the candidate languages it was
/// built from. Immutable once built, so one instance can serve any number of
/// calls.
pub struct Detector {
    engine: lingua::LanguageDetector,
    candidates: Vec<LanguageTag>,
}

impl Detector {
    /// The candidate languages, without repetition.
    pub closed spec fn candidates(&self) -> Seq<LanguageTag> {
        self.candidates@
    }

    /// At least one candidate, none repeated, and the engine built from
    /// exactly the candidates.
    pub closed spec fn wf(&self) -> bool {
        &&& self.candidates@.len() > 0
        &&& self.candidates@.no_duplicates()
        &&& detector_languages(self.engine) == self.candidates@.map_values(
            |l: LanguageTag| l.engine_spec(),
        ).to_set()
    }

    /// A detector over all supported languages.
    pub fn new() -> (r: Detector)
        ensures
            r.wf(),
            r.candidates() == all_languages(),
    {
        let languages = vec![
            LanguageTag::English,
            LanguageTag::Spanish,
            LanguageTag::French,
            LanguageTag::German,
            LanguageTag::Italian,
            LanguageTag::Portuguese,
            LanguageTag::Russian,
            LanguageTag::Japanese,
            LanguageTag::Korean,
            LanguageTag::Chinese,
            LanguageTag::Indonesian,
            LanguageTag::Malay,
            LanguageTag::Thai,
            LanguageTag::Vietnamese,
            LanguageTag::Tagalog,
        ];
        assert(languages@ =~= all_languages());
        assert(languages@.no_duplicates()) by {
            assert forall|i: int, j: int|
                0 <= i < languages@.len() && 0 <= j < languages@.len() && i != j implies
                #[trigger] languages@[i] != #[trigger] languages@[j] by {
                lemma_language_injective(languages@[i], languages@[j]);
            }
        }
        Self::with_languages(&languages)
    }

    /// A detector over the given languages; repetitions are dropped, first
    /// occurrences kept in order.
    pub fn with_languages(languages: &Vec<LanguageTag>) -> (r: Detector)
        requires
            languages@.len() > 0,
        ensures
            r.wf(),
            r.candidates().to_set() == languages@.to_set(),
            languages@.no_duplicates() ==> r.candidates() == languages@,
    {
        let mut candidates: Vec<LanguageTag> = Vec::new();
        let mut engine_languages: Vec<lingua::Language> = Vec::new();
        let mut i: usize = 0;
        while i < languages.len()
            invariant
                i <= languages@.len(),
                i > 0 ==> candidates@.len() > 0,
                candidates@.no_duplicates(),
                candidates@.to_set() == languages@.take(i as int).to_set(),
                languages@.take(i as int).no_duplicates() ==> candidates@ == languages@.take(i as int),
                engine_languages@ == candidates@.map_values(|l: LanguageTag| l.engine_spec()),
            decreases languages@.len() - i,
        {
            let l = languages[i];
            let mut seen = false;
            let mut k: usize = 0;
            while k < candidates.len()
                invariant
                    k <= candidates@.len(),
                    seen <==> exists|m: int| 0 <= m < k && candidates@[m] == l,
                decreases candidates@.len() - k,
            {
                if candidates[k] == l {
                    seen = true;
                }
                k = k + 1;
            }
            let ghost before = candidates@;
            proof {
                assert(languages@.take(i + 1) =~= languages@.take(i as int).push(l));
                if seen {
                    assert(before.contains(l));
                    assert(before.to_set().contains(l));
                    assert(languages@.take(i as int).to_set().contains(l));
                    assert(!languages@.take(i + 1).no_duplicates()) by {
                        let t = languages@.take(i as int);
                        assert(t.contains(l));
                        let m = choose|m: int| 0 <= m < t.len() && t[m] == l;
                        assert(languages@.take(i + 1)[m] == languages@.take(i + 1)[i as int]);
                    }
                }
            }
            if !seen {
                candidates.push(l);
                engine_languages.push(l.to_engine());
                proof {
                    assert(candidates@ =~= before.push(l));
                    assert(!before.contains(l));
                    assert(engine_languages@ =~= candidates@.map_values(
                        |x: LanguageTag| x.engine_spec(),
                    ));
                }
            }
            proof {
                let t0 = languages@.take(i as int);
                let t1 = languages@.take(i + 1);
                assert forall|x: LanguageTag| candidates@.contains(x) <==> t1.contains(x) by {
                    assert(before.to_set().contains(x) == t0.to_set().contains(x));
                    if t1.contains(x) {
                        let m = choose|m: int| 0 <= m < t1.len() && t1[m] == x;
                        if m < i {
                            assert(t0[m] == x);
                            assert(t0.contains(x));
                            assert(before.contains(x));
                            let q = choose|q: int| 0 <= q < before.len() && before[q] == x;
                            assert(candidates@[q] == x);
                        } else if !seen {
                            assert(candidates@[before.len() as int] == x);
                        } else {
                            assert(x == l);
                            let q = choose|q: int| 0 <= q < before.len() && before[q] == l;
                            assert(candidates@[q] == x);
                        }
                    }
                    if candidates@.contains(x) {
                        let m = choose|m: int| 0 <= m < candidates@.len() && candidates@[m] == x;
                        if m < before.len() {
                            assert(before[m] == x);
                            let q = choose|q: int| 0 <= q < t0.len() && t0[q] == x;
                            assert(t1[q] == x);
                        } else {
                            assert(t1[i as int] == x);
                        }
                    }
                }
                assert(candidates@.to_set() =~= t1.to_set());
                if languages@.take(i + 1).no_duplicates() {
                    assert(languages@.take(i as int).no_duplicates()) by {
                        assert forall|a: int, b: int|
                            0 <= a < i && 0 <= b < i && a != b implies
                            #[trigger] languages@.take(i as int)[a] != #[trigger] languages@.take(i as int)[b] by {
                            assert(languages@.take(i + 1)[a] == languages@.take(i as int)[a]);
                            assert(languages@.take(i + 1)[b] == languages@.take(i as int)[b]);
                        }
                    }
                }
            }
            i = i + 1;
        }
        assert(languages@.take(i as int) =~= languages@);
        let engine = build_detector(&engine_languages);
        Detector { engine, candidates }
    }

    /// Ranks the candidates for `text` by the engine's confidence values.
    pub fn rank_text(&self, text: &str) -> (r: Vec<ScoredLanguage>)
        requires
            self.wf(),
        ensures
            is_detection_ranking(self.candidates(), text@, r@),
    {
        let raw = confidence_values(&self.engine, text);
        let values = scored_from_report(&raw);
        let ghost set = detector_languages(self.engine);
        let ghost cands = self.candidates@;
        let ghost vs = values@;
        proof {
            lemma_text_millis(0);
            lemma_text_millis(1000);
            assert forall|k: int| 0 <= k < vs.len() implies (#[trigger] vs[k]).millis <= FULL_CONFIDENCE
                && vs[k].raw <= ONE_BITS by {
                assert(crate::confidence::is_confidence_text(raw@[k].2@));
                assert(raw@[k].1 <= ONE_BITS);
            }
            let mapped = cands.map_values(|l: LanguageTag| l.engine_spec());
            assert forall|k: int| 0 <= k < vs.len() implies cands.contains(#[trigger] vs[k].language) by {
                assert(set.contains(raw@[k].0));
                assert(mapped.to_set().contains(raw@[k].0));
                let j = choose|j: int| 0 <= j < mapped.len() && mapped[j] == raw@[k].0;
                lemma_language_injective(cands[j], vs[k].language);
            }
            assert forall|c: LanguageTag| #[trigger] cands.contains(c) implies exists|k: int|
                0 <= k < vs.len() && vs[k].language == c by {
                let j = choose|j: int| 0 <= j < cands.len() && cands[j] == c;
                assert(mapped[j] == c.engine_spec());
                assert(mapped.to_set().contains(c.engine_spec()));
                let k = choose|k: int| 0 <= k < raw@.len() && raw@[k].0 == c.engine_spec();
                lemma_language_injective(vs[k].language, c);
            }
            assert forall|a: int, b: int| 0 <= a < b < vs.len() implies #[trigger] vs[a].language
                != #[trigger] vs[b].language by {
                assert(raw@[a].0 != raw@[b].0);
            }
            assert(is_engine_report(cands, vs));
            assert(set == engine_set(cands));
            // the engine scores nothing exactly when every value is zero
            assert(confidence_outcome(set, text@) is None <==> is_undetectable(vs)) by {
                if is_undetectable(vs) {
                    assert forall|k: int| 0 <= k < raw@.len() implies (#[trigger] raw@[k]).1 == 0 by {
                        assert(vs[k].raw == 0);
                    }
                }
                if confidence_outcome(set, text@) is None {
                    assert forall|k: int| 0 <= k < vs.len() implies (#[trigger] vs[k]).raw == 0 by {
                        assert(raw@[k].1 == 0);
                    }
                }
            }
            if text@.len() == 0 {
                assert forall|k: int| 0 <= k < vs.len() implies (#[trigger] vs[k]).raw == 0 by {
                    assert(raw@[k].1 == 0);
                }
            }
        }
        let r = rank(&values);
        proof {
            let rs = r@;
            if !is_undetectable(vs) {
                let k = choose|k: int| 0 <= k < vs.len() && (#[trigger] vs[k]).raw != 0;
                lemma_same_members(vs, rs, k);
                lemma_total_of_permutation(vs, rs);
                assert(vs.to_multiset().len() == rs.to_multiset().len());
            }
            if let Some(Some(l)) = confidence_outcome(set, text@) {
                assert forall|k: int| 0 <= k < vs.len() implies ((#[trigger] vs[k]).millis == if vs[k].language.engine_spec()
                    == l {
                    FULL_CONFIDENCE
                } else {
                    0
                }) && vs[k].raw == if vs[k].language.engine_spec() == l {
                    ONE_BITS
                } else {
                    0
                } by {
                    assert(raw@[k].1 == if raw@[k].0 == l { ONE_BITS } else { 0 });
                }
                let k = choose|k: int| 0 <= k < raw@.len() && #[trigger] raw@[k].0 == l;
                assert(vs[k].raw == ONE_BITS);
                lemma_same_members(vs, rs, k);
                let j = choose|j: int| 0 <= j < rs.len() && rs[j] == vs[k];
                if j > 0 {
                    assert(ranks_before(rs[0], rs[j]));
                }
                assert forall|i: int| 0 <= i < rs.len() implies ((#[trigger] rs[i]).millis == if rs[i].language.engine_spec()
                    == l {
                    FULL_CONFIDENCE
                } else {
                    0
                }) && rs[i].raw == if rs[i].language.engine_spec() == l {
                    ONE_BITS
                } else {
                    0
                } by {
                    lemma_same_members(rs, vs, i);
                }
                assert(rs[0].raw >= ONE_BITS);
            }
        }
        r
    }

    /// The best guess for `text`: the tag of the top-ranked language, or
    /// `unknown`.
    pub fn detect(&self, text: &[u8]) -> (r: String)
        requires
            self.wf(),
        ensures
            !vstd::utf8::valid_utf8(text@) ==> r@ == invalid_utf8_text(),
            vstd::utf8::valid_utf8(text@) ==> exists|ranked: Seq<ScoredLanguage>|
                is_detection_ranking(
                    self.candidates(),
                    vstd::utf8::decode_utf8(text@),
                    ranked,
                ) && r@ == best_guess_text(ranked),
    {
        match decode_utf8(text) {
            None => String::from_str("error: invalid utf8"),
            Some(s) => {
                let ranked = self.rank_text(s);
                best_guess(&ranked)
            },
        }
    }

    /// The best guess for `text` with its confidence, `<TAG>:<confidence>`, or
    /// `unknown:0.000`.
    pub fn detect_with_confidence(&self, text: &[u8]) -> (r: String)
        requires
            self.wf(),
        ensures
            !vstd::utf8::valid_utf8(text@) ==> r@ == invalid_utf8_text(),
            vstd::utf8::valid_utf8(text@) ==> exists|ranked: Seq<ScoredLanguage>|
                is_detection_ranking(
                    self.candidates(),
                    vstd::utf8::decode_utf8(text@),
                    ranked,
                ) && r@ == best_with_confidence_text(
                    ranked,
                ),
    {
        match decode_utf8(text) {
            None => String::from_str("error: invalid utf8"),
            Some(s) => {
                let ranked = self.rank_text(s);
                best_with_confidence(&ranked)
            },
        }
    }

    /// Every language whose confidence reaches `threshold` (its bit pattern,
    /// see [`ScoredLanguage`]), in ranked order, or `no_languages_above_threshold`.
    pub fn detect_multiple(&self, text: &[u8], threshold: u64) -> (r: String)
        requires
            self.wf(),
        ensures
            !vstd::utf8::valid_utf8(text@) ==> r@ == invalid_utf8_text(),
            vstd::utf8::valid_utf8(text@) ==> exists|ranked: Seq<ScoredLanguage>|
                is_detection_ranking(
                    self.candidates(),
                    vstd::utf8::decode_utf8(text@),
                    ranked,
                ) && r@ == multiple_text(
                    ranked,
                    threshold as nat,
                ),
    {
        match decode_utf8(text) {
            None => String::from_str("error: invalid utf8"),
            Some(s) => {
                let ranked = self.rank_text(s);
                multiple_above(&ranked, threshold)
            },
        }
    }

    /// The `n` best-ranked languages, or `no_languages_detected` when that is
    /// none.
    pub fn detect_top_n(&self, text: &[u8], n: i32) -> (r: String)
        requires
            self.wf(),
        ensures
            !vstd::utf8::valid_utf8(text@) ==> r@ == invalid_utf8_text(),
            vstd::utf8::valid_utf8(text@) ==> exists|ranked: Seq<ScoredLanguage>|
                is_detection_ranking(
                    self.candidates(),
                    vstd::utf8::decode_utf8(text@),
                    ranked,
                ) && r@ == top_text(ranked, n as int),
    {
        match decode_utf8(text) {
            None => String::from_str("error: invalid utf8"),
            Some(s) => {
                let ranked = self.rank_text(s);
                top_languages(&ranked, n)
            },
        }
    }
}

/// Best guess over all supported languages: the top-ranked tag, `unknown`,
/// or the invalid-encoding sentinel.
pub fn detect_language(text: &[u8]) -> (r: String)
    ensures
        !vstd::utf8::valid_utf8(text@) ==> r@ == invalid_utf8_text(),
        vstd::utf8::valid_utf8(text@) ==> exists|ranked: Seq<ScoredLanguage>|
            is_detection_ranking(
                all_languages(),
                vstd::utf8::decode_utf8(text@),
                ranked,
            ) && r@ == best_guess_text(ranked),
{
    Detector::new().detect(text)
}

/// Best guess over all supported languages with its confidence, formatted as
/// `<TAG>:<confidence>`, or `unknown:0.000`.
pub fn detect_language_with_confidence(text: &[u8]) -> (r: String)
    ensures
        !vstd::utf8::valid_utf8(text@) ==> r@ == invalid_utf8_text(),
        vstd::utf8::valid_utf8(text@) ==> exists|ranked: Seq<ScoredLanguage>|
            is_detection_ranking(
                all_languages(),
                vstd::utf8::decode_utf8(text@),
                ranked,
            ) && r@ == best_with_confidence_text(ranked),
{
    Detector::new().detect_with_confidence(text)
}

/// Every supported language whose confidence reaches `threshold` (its bit
/// pattern, see [`ScoredLanguage`]),
/// comma-joined in ranked order, or `no_languages_above_threshold`.
pub fn detect_multiple_languages(text: &[u8], threshold: u64) -> (r: String)
    ensures
        !vstd::utf8::valid_utf8(text@) ==> r@ == invalid_utf8_text(),
        vstd::utf8::valid_utf8(text@) ==> exists|ranked: Seq<ScoredLanguage>|
            is_detection_ranking(
                all_languages(),
                vstd::utf8::decode_utf8(text@),
                ranked,
            ) && r@ == multiple_text(
                ranked,
                threshold as nat,
            ),
{
    Detector::new().detect_multiple(text, threshold)
}

/// The `top_n` best-ranked supported languages, comma-joined, or
/// `no_languages_detected`.
pub fn detect_top_languages(text: &[u8], top_n: i32) -> (r: String)
    ensures
        !vstd::utf8::valid_utf8(text@) ==> r@ == invalid_utf8_text(),
        vstd::utf8::valid_utf8(text@) ==> exists|ranked: Seq<ScoredLanguage>|
            is_detection_ranking(
                all_languages(),
                vstd::utf8::decode_utf8(text@),
                ranked,
            ) && r@ == top_text(ranked, top_n as int),
{
    Detector::new().detect_top_n(text, top_n)
}

} // verus!
