use lang_detect::detector::scored_from_report;
use lang_detect::ScoredLanguage;
use lang_detect::{
    detect_language, detect_language_with_confidence, detect_multiple_languages,
    detect_top_languages, Detector, LanguageTag,
};

const INVALID: &[u8] = b"caf\xc3 \xff\xfe";

fn confidence_of(entry: &str) -> u32 {
    let (_, value) = entry.split_once(':').unwrap();
    let (whole, frac) = value.split_once('.').unwrap();
    whole.parse::<u32>().unwrap() * 1000 + frac.parse::<u32>().unwrap()
}

fn assert_detected(text: &str, tag: &str) {
    assert_eq!(detect_language(text.as_bytes()), tag);
    let with_confidence = detect_language_with_confidence(text.as_bytes());
    assert!(with_confidence.starts_with(&format!("{}:", tag)), "{}", with_confidence);
    assert!(confidence_of(&with_confidence) >= 500, "{}", with_confidence);
}

fn tags_of(list: &str) -> Vec<String> {
    let mut tags: Vec<String> = list.split(',').map(|e| e.split(':').next().unwrap().to_string()).collect();
    tags.sort();
    tags
}

#[test]
fn invalid_utf8_gives_error_sentinel() {
    assert_eq!(detect_language(INVALID), "error: invalid utf8");
    assert_eq!(detect_language_with_confidence(INVALID), "error: invalid utf8");
    assert_eq!(detect_multiple_languages(INVALID, 0), "error: invalid utf8");
    assert_eq!(detect_top_languages(INVALID, 3), "error: invalid utf8");
}

#[test]
fn empty_text_is_undetectable() {
    assert_eq!(detect_language(b""), "unknown");
    assert_eq!(detect_language_with_confidence(b""), "unknown:0.000");
    assert_eq!(detect_multiple_languages(b"", 0), "no_languages_above_threshold");
    assert_eq!(detect_top_languages(b"", 5), "no_languages_detected");
}

#[test]
fn korean_script_is_certain() {
    assert_eq!(detect_language_with_confidence("안녕하세요 만나서 반갑습니다".as_bytes()), "KOREAN:1.000");
    assert_eq!(detect_language("안녕하세요".as_bytes()), "KOREAN");
}

#[test]
fn thai_script_is_certain() {
    assert_eq!(detect_language_with_confidence("สวัสดีครับ ยินดีที่ได้รู้จัก".as_bytes()), "THAI:1.000");
}

#[test]
fn detects_english() {
    assert_detected("The quick brown fox jumps over the lazy dog while the children are playing in the garden.", "ENGLISH");
}

#[test]
fn detects_spanish() {
    assert_detected("El perro corre por el parque mientras los niños juegan con la pelota en la tarde soleada.", "SPANISH");
}

#[test]
fn detects_french() {
    assert_detected("Le chat dort tranquillement sur le canapé pendant que les enfants font leurs devoirs.", "FRENCH");
}

#[test]
fn detects_german() {
    assert_detected("Der Hund läuft schnell durch den Wald, während die Kinder im Garten spielen.", "GERMAN");
}

#[test]
fn detects_italian() {
    assert_detected("Il gatto dorme tranquillamente sul divano mentre i bambini giocano nel giardino.", "ITALIAN");
}

#[test]
fn detects_portuguese() {
    assert_detected("O cachorro corre pelo parque enquanto as crianças brincam com a bola, não é?", "PORTUGUESE");
}

#[test]
fn detects_russian() {
    assert_detected("Собака быстро бежит через лес, пока дети играют в саду.", "RUSSIAN");
}

#[test]
fn detects_japanese() {
    assert_detected("これは日本語の文章です。私は毎日学校に行きます。", "JAPANESE");
}

#[test]
fn detects_vietnamese() {
    assert_detected("Tôi đang học tiếng Việt và rất thích văn hóa của đất nước này.", "VIETNAMESE");
}

#[test]
fn detects_tagalog() {
    assert_detected("Magandang umaga po sa inyong lahat, kumusta na kayo ngayong araw na ito?", "TAGALOG");
}

#[test]
fn repeated_calls_give_identical_text() {
    let text = "Der Hund läuft schnell durch den Wald".as_bytes();
    let detector = Detector::new();
    assert_eq!(detector.detect(text), detector.detect(text));
    assert_eq!(detector.detect_with_confidence(text), detector.detect_with_confidence(text));
    assert_eq!(detector.detect_multiple(text, 0.1f64.to_bits()), detector.detect_multiple(text, 0.1f64.to_bits()));
    assert_eq!(detector.detect_top_n(text, 4), detector.detect_top_n(text, 4));
}

#[test]
fn zero_threshold_matches_top_of_all_candidates() {
    let text = "la casa es bonita".as_bytes();
    let multiple = detect_multiple_languages(text, 0);
    let top = detect_top_languages(text, 15);
    assert_eq!(tags_of(&multiple), tags_of(&top));
    assert_eq!(tags_of(&top).len(), 15);
}

#[test]
fn top_zero_and_top_all() {
    let text = "good morning everyone".as_bytes();
    assert_eq!(detect_top_languages(text, 0), "no_languages_detected");
    assert_eq!(tags_of(&detect_top_languages(text, 40)).len(), 15);
    assert_eq!(tags_of(&detect_top_languages(text, 2)).len(), 2);
}

#[test]
fn full_threshold_on_ambiguous_text() {
    assert_eq!(detect_multiple_languages("la casa".as_bytes(), 1.0f64.to_bits()), "no_languages_above_threshold");
}

#[test]
fn detector_over_a_subset_drops_repetitions() {
    let detector = Detector::with_languages(&vec![
        LanguageTag::English,
        LanguageTag::German,
        LanguageTag::English,
    ]);
    let top = detector.detect_top_n("Guten Morgen, wie geht es dir heute?".as_bytes(), 10);
    assert_eq!(tags_of(&top), vec!["ENGLISH".to_string(), "GERMAN".to_string()]);
    assert!(top.starts_with("GERMAN:"));
}

#[test]
fn detects_chinese() {
    assert_detected("我们今天去公园散步，天气非常好，大家都很开心。", "CHINESE");
}

#[test]
fn detects_indonesian() {
    assert_detected("Saya tidak bisa datang ke kantor hari ini karena mobil saya rusak dan saya tidak punya uang.", "INDONESIAN");
}

#[test]
fn detects_malay() {
    assert_detected("Saya tidak boleh datang ke pejabat hari ini kerana kereta saya rosak dan saya tiada wang.", "MALAY");
}

#[test]
fn report_entries_become_scored_languages() {
    let raw = vec![
        (lingua::Language::English, 0.93f64.to_bits(), "0.930".to_string()),
        (lingua::Language::French, 0.07f64.to_bits(), "0.070".to_string()),
        (lingua::Language::Thai, 0, "0.000".to_string()),
    ];
    assert_eq!(
        scored_from_report(&raw),
        vec![
            ScoredLanguage { language: LanguageTag::English, raw: 0.93f64.to_bits(), millis: 930 },
            ScoredLanguage { language: LanguageTag::French, raw: 0.07f64.to_bits(), millis: 70 },
            ScoredLanguage { language: LanguageTag::Thai, raw: 0, millis: 0 },
        ]
    );
}

#[test]
fn printed_confidences_sum_to_one() {
    let top = detect_top_languages("Il gatto dorme sul divano".as_bytes(), 15);
    let entries: Vec<&str> = top.split(',').collect();
    assert_eq!(entries.len(), 15);
    let total: u32 = entries.iter().map(|e| confidence_of(e)).sum();
    assert!(total.abs_diff(1000) <= 7, "{}", top);
    assert!(entries.iter().all(|e| confidence_of(e) <= 1000));
}

#[test]
fn korean_top_list_is_certain_then_zero() {
    let top = detect_top_languages("안녕하세요. 만나서 반갑습니다.".as_bytes(), 15);
    let entries: Vec<&str> = top.split(',').collect();
    assert_eq!(entries[0], "KOREAN:1.000");
    assert!(entries[1..].iter().all(|e| e.ends_with(":0.000")), "{}", top);
}
