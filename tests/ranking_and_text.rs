use lang_detect::confidence::{format_millis, parse_millis};
use lang_detect::facade::{
    best_guess, best_with_confidence, entry_string, join_entries, multiple_above,
    select_above_threshold, select_top, top_languages,
};
use lang_detect::ranking::rank;
use lang_detect::{LanguageTag, ScoredLanguage};

fn scored(language: LanguageTag, millis: u32) -> ScoredLanguage {
    ScoredLanguage { language, raw: (millis as f64 / 1000.0).to_bits(), millis }
}

fn bits(x: f64) -> u64 {
    x.to_bits()
}

fn sample_ranking() -> Vec<ScoredLanguage> {
    vec![
        scored(LanguageTag::Spanish, 700),
        scored(LanguageTag::Italian, 200),
        scored(LanguageTag::Portuguese, 100),
    ]
}

#[test]
fn formats_confidence_with_three_decimals() {
    assert_eq!(format_millis(290), "0.290");
    assert_eq!(format_millis(5), "0.005");
    assert_eq!(format_millis(1000), "1.000");
    assert_eq!(format_millis(0), "0.000");
}

#[test]
fn parses_confidence_text_back() {
    assert_eq!(parse_millis(&"0.290".to_string()), Some(290));
    assert_eq!(parse_millis(&"1.000".to_string()), Some(1000));
    assert_eq!(parse_millis(&"0.000".to_string()), Some(0));
    assert_eq!(parse_millis(&"1.001".to_string()), None);
    assert_eq!(parse_millis(&"0.29".to_string()), None);
    assert_eq!(parse_millis(&"-0.000".to_string()), None);
}

#[test]
fn tags_are_upper_case_identifiers() {
    assert_eq!(LanguageTag::English.tag(), "ENGLISH");
    assert_eq!(LanguageTag::Tagalog.tag(), "TAGALOG");
    assert_eq!(LanguageTag::Portuguese.index(), 5);
}

#[test]
fn entry_and_join_formatting() {
    assert_eq!(entry_string(scored(LanguageTag::German, 930)), "GERMAN:0.930");
    assert_eq!(join_entries(&sample_ranking()), "SPANISH:0.700,ITALIAN:0.200,PORTUGUESE:0.100");
    assert_eq!(join_entries(&vec![]), "");
}

#[test]
fn rank_sorts_descending_with_language_order_tie_break() {
    let values = vec![
        scored(LanguageTag::Tagalog, 100),
        scored(LanguageTag::French, 400),
        scored(LanguageTag::English, 100),
        scored(LanguageTag::German, 400),
    ];
    let ranked = rank(&values);
    assert_eq!(
        ranked,
        vec![
            scored(LanguageTag::French, 400),
            scored(LanguageTag::German, 400),
            scored(LanguageTag::English, 100),
            scored(LanguageTag::Tagalog, 100),
        ]
    );
}

#[test]
fn rank_is_independent_of_report_order() {
    let a = vec![scored(LanguageTag::Thai, 0), scored(LanguageTag::Malay, 600), scored(LanguageTag::Indonesian, 400)];
    let b = vec![scored(LanguageTag::Indonesian, 400), scored(LanguageTag::Thai, 0), scored(LanguageTag::Malay, 600)];
    assert_eq!(rank(&a), rank(&b));
}

#[test]
fn rank_of_all_zero_report_is_empty() {
    let values = vec![scored(LanguageTag::English, 0), scored(LanguageTag::Spanish, 0)];
    assert!(rank(&values).is_empty());
    assert!(rank(&vec![]).is_empty());
}

#[test]
fn best_guess_and_sentinels() {
    assert_eq!(best_guess(&sample_ranking()), "SPANISH");
    assert_eq!(best_guess(&vec![]), "unknown");
    assert_eq!(best_with_confidence(&sample_ranking()), "SPANISH:0.700");
    assert_eq!(best_with_confidence(&vec![]), "unknown:0.000");
}

#[test]
fn threshold_selection() {
    let r = sample_ranking();
    assert_eq!(select_above_threshold(&r, bits(0.2)), vec![scored(LanguageTag::Spanish, 700), scored(LanguageTag::Italian, 200)]);
    assert_eq!(multiple_above(&r, bits(0.2)), "SPANISH:0.700,ITALIAN:0.200");
    assert_eq!(multiple_above(&r, 0), join_entries(&r));
    assert_eq!(multiple_above(&r, bits(0.8)), "no_languages_above_threshold");
}

#[test]
fn full_threshold_on_uncertain_ranking_is_empty() {
    assert_eq!(multiple_above(&sample_ranking(), bits(1.0)), "no_languages_above_threshold");
    let certain = vec![scored(LanguageTag::Korean, 1000), scored(LanguageTag::English, 0)];
    assert_eq!(multiple_above(&certain, bits(1.0)), "KOREAN:1.000");
}

#[test]
fn top_n_selection() {
    let r = sample_ranking();
    assert_eq!(select_top(&r, 2), vec![scored(LanguageTag::Spanish, 700), scored(LanguageTag::Italian, 200)]);
    assert_eq!(top_languages(&r, 1), "SPANISH:0.700");
    assert_eq!(top_languages(&r, 0), "no_languages_detected");
    assert_eq!(top_languages(&r, -3), "no_languages_detected");
    assert_eq!(top_languages(&r, 3), join_entries(&r));
    assert_eq!(top_languages(&r, 99), join_entries(&r));
    assert_eq!(top_languages(&vec![], 5), "no_languages_detected");
}

#[test]
fn near_ties_rank_by_raw_confidence() {
    let english = ScoredLanguage { language: LanguageTag::English, raw: bits(0.2901), millis: 290 };
    let spanish = ScoredLanguage { language: LanguageTag::Spanish, raw: bits(0.2904), millis: 290 };
    let ranked = rank(&vec![english, spanish]);
    assert_eq!(ranked, vec![spanish, english]);
    assert_eq!(best_guess(&ranked), "SPANISH");
}

#[test]
fn threshold_compares_raw_confidence() {
    let below = ScoredLanguage { language: LanguageTag::German, raw: bits(0.2896), millis: 290 };
    assert_eq!(multiple_above(&vec![below], bits(0.29)), "no_languages_above_threshold");
    let almost = ScoredLanguage { language: LanguageTag::German, raw: bits(0.9996), millis: 1000 };
    assert_eq!(multiple_above(&vec![almost], bits(1.0)), "no_languages_above_threshold");
    assert_eq!(multiple_above(&vec![almost], bits(0.9995)), "GERMAN:1.000");
}
