use vstd::prelude::*;

use crate::confidence::{is_confidence_text, millis_text, text_millis, ONE_BITS};

verus! {

/// lingua's detector, carried through opaquely.
#[verifier::external_type_specification]
#[verifier::external_body]
pub struct ExLanguageDetector(lingua::LanguageDetector);

/// The languages that a lingua detector was built from.
pub uninterp spec fn detector_languages(d: lingua::LanguageDetector) -> Set<lingua::Language>;

/// What lingua's confidence computation decides for `text` over `languages`,
/// before any floating-point arithmetic: `None` when no language is scored
/// (every value stays 0.0), `Some(Some(l))` when its rules settle on `l`, one
/// of the candidates, alone, `Some(None)` when it scores them statistically.
pub uninterp spec fn confidence_outcome(
    languages: Set<lingua::Language>,
    text: Seq<char>,
) -> Option<Option<lingua::Language>>;

/// The sum of a report's confidences, in thousandths.
pub open spec fn report_total(r: Seq<(lingua::Language, u64, String)>) -> int
    decreases r.len(),
{
    if r.len() == 0 {
        0
    } else {
        report_total(r.drop_last()) + text_millis(r.last().2@)
    }
}

/// Relies on `LanguageDetectorBuilder::from_languages(..).build()`: the detector
/// evaluates exactly the languages given (kept in a set); `from_languages`
/// panics on an empty list.
#[verifier::external_body]
pub(crate) fn build_detector(languages: &Vec<lingua::Language>) -> (r: lingua::LanguageDetector)
    requires
        languages@.len() > 0,
    ensures
        detector_languages(r) == languages@.to_set(),
{
    lingua::LanguageDetectorBuilder::from_languages(languages.as_slice()).build()
}

/// Relies on `LanguageDetector::compute_language_confidence_values`: one entry
/// for each language the detector was built from, each confidence a value in
/// [0, 1] (0.0 as set, or a non-negative quotient, never -0.0 or NaN). Each
/// confidence is handed back twice: as its bit pattern (`f64::to_bits`; 0.0 is
/// 0 and 1.0 is [`ONE_BITS`]) and as `format!("{:.3}")` writes it, so as
/// `0.000` to `1.000`. Text without words leaves every value at 0.0; a
/// candidate language settled by the rules gets 1.0 and every other 0.0; a
/// statistical score sums to 1, so some value is not 0.0. Whenever a language
/// is scored the values sum to 1, so the written values, each off by at most
/// half a thousandth, sum to within half a thousandth per entry of 1.
#[verifier::external_body]
pub(crate) fn confidence_values(d: &lingua::LanguageDetector, text: &str) -> (r: Vec<
    (lingua::Language, u64, String),
>)
    ensures
        forall|i: int| 0 <= i < r@.len() ==> detector_languages(*d).contains(#[trigger] r@[i].0),
        forall|l: lingua::Language| #[trigger]
            detector_languages(*d).contains(l) ==> exists|i: int| 0 <= i < r@.len() && r@[i].0 == l,
        forall|i: int, j: int| 0 <= i < j < r@.len() ==> #[trigger] r@[i].0 != #[trigger] r@[j].0,
        forall|i: int| 0 <= i < r@.len() ==> is_confidence_text(#[trigger] r@[i].2@),
        forall|i: int| 0 <= i < r@.len() ==> (#[trigger] r@[i]).1 <= ONE_BITS,
        forall|i: int| 0 <= i < r@.len() && (#[trigger] r@[i]).1 == 0 ==> r@[i].2@ == millis_text(0),
        forall|i: int|
            0 <= i < r@.len() && (#[trigger] r@[i]).1 == ONE_BITS ==> r@[i].2@ == millis_text(1000),
        text@.len() == 0 ==> forall|i: int| 0 <= i < r@.len() ==> (#[trigger] r@[i]).1 == 0,
        confidence_outcome(detector_languages(*d), text@) is None <==> forall|i: int|
            0 <= i < r@.len() ==> (#[trigger] r@[i]).1 == 0,
        confidence_outcome(detector_languages(*d), text@) matches Some(Some(l)) ==> exists|i: int|
            0 <= i < r@.len() && #[trigger] r@[i].0 == l,
        confidence_outcome(detector_languages(*d), text@) matches Some(Some(l)) ==> forall|i: int|
            0 <= i < r@.len() ==> (#[trigger] r@[i]).1 == if r@[i].0 == l {
                ONE_BITS
            } else {
                0
            },
        confidence_outcome(detector_languages(*d), text@) is Some ==> 2 * (report_total(r@) - 1000)
            <= r@.len() && 2 * (1000 - report_total(r@)) <= r@.len(),
{
    d.compute_language_confidence_values(text)
        .into_iter()
        .map(|(l, c)| (l, c.to_bits(), format!("{:.3}", c)))
        .collect()
}

/// Relies on `std::str::from_utf8`: it accepts exactly well-formed UTF-8 and
/// decodes it.
#[verifier::external_body]
pub(crate) fn decode_utf8(bytes: &[u8]) -> (r: Option<&str>)
    ensures
        r is Some <==> vstd::utf8::valid_utf8(bytes@),
        r matches Some(s) ==> s@ == vstd::utf8::decode_utf8(bytes@),
{
    std::str::from_utf8(bytes).ok()
}

} // verus!
