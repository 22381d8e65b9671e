use kanjisabi::config::{
    default_capture, default_family, default_highlight, default_hint, default_hint_bg,
    default_lindera_address, default_style, same_content, Colors, Font, LinderaConfig,
};
use kanjisabi::morph::categorize;
use kanjisabi::script::{is_hiragana, is_japanese_text, is_kanji, is_katakana};
use kanjisabi::session::{step_font_scale, AnnotationSession, RetryBudget};

#[test]
fn kanji_ranges() {
    assert!(is_kanji('漢'));
    assert!(is_kanji('々'));
    assert!(!is_kanji('あ'));
    assert!(!is_kanji('a'));
}

#[test]
fn hiragana_ranges() {
    assert!(is_hiragana('あ'));
    assert!(is_hiragana('ん'));
    assert!(!is_hiragana('ア'));
    assert!(!is_hiragana('。'));
}

#[test]
fn katakana_ranges() {
    assert!(is_katakana('ア'));
    assert!(is_katakana('ー'));
    assert!(is_katakana('ヷ'));
    assert!(!is_katakana('あ'));
}

#[test]
fn japanese_text_requires_every_character() {
    assert!(is_japanese_text("降った"));
    assert!(is_japanese_text(""));
    assert!(!is_japanese_text("降ったx"));
    assert!(!is_japanese_text("２階"));
}

#[test]
fn config_defaults() {
    assert_eq!(default_family(), None);
    assert_eq!(default_style(), None);
    assert_eq!(default_capture(), 0x20002000);
    assert_eq!(default_highlight(), 0x20200000);
    assert_eq!(default_hint(), 0xFF32FF00);
    assert_eq!(default_hint_bg(), 0xC0000024);
    assert_eq!(default_lindera_address(), "0.0.0.0:3333");
    let f = Font::default();
    assert!(f.family.is_none() && f.style.is_none());
    let c = Colors::default();
    assert_eq!(c.capture, 0x20002000);
    assert_eq!(c.hint_bg, 0xC0000024);
    let l = LinderaConfig::default();
    assert_eq!(l.server_address, "0.0.0.0:3333");
}

#[test]
fn same_content_ignores_order() {
    assert!(same_content(&[1, 2, 3], &[3, 1, 2]));
    assert!(same_content::<u32>(&[], &[]));
    assert!(!same_content(&[1, 2], &[1, 2, 3]));
    assert!(!same_content(&[1, 4], &[1, 2]));
    assert!(same_content(&["LControl", "LAlt"], &["LAlt", "LControl"]));
}

#[test]
fn morph_extraction_joins_pos_levels() {
    let details: Vec<String> = vec![
        "名詞", "固有名詞", "人名", "姓", "*", "*", "ヤマダ", "山田", "山田", "ヤマダ", "山田",
        "ヤマダ", "固", "*", "*", "*", "*",
    ]
    .into_iter()
    .map(|s| s.to_string())
    .collect();
    let m = categorize(&details).unwrap();
    assert_eq!(m.part_of_speech, "名詞-固有名詞-人名-姓");
    assert_eq!(m.text, "山田");
    assert_eq!(m.lemma, "山田");
    assert_eq!(m.pronounciation, "ヤマダ");
    assert_eq!(m.inflection_type, None);
    assert_eq!(m.inflection_form, None);
}

#[test]
fn morph_extraction_keeps_filled_inflections() {
    let details: Vec<String> = vec![
        "動詞", "一般", "*", "*", "五段-ラ行", "連用形-促音便", "フル", "降る", "降っ", "フッ",
        "降る", "フル", "和", "*", "*", "*", "*",
    ]
    .into_iter()
    .map(|s| s.to_string())
    .collect();
    let m = categorize(&details).unwrap();
    assert_eq!(m.part_of_speech, "動詞-一般");
    assert_eq!(m.inflection_type.as_deref(), Some("五段-ラ行"));
    assert_eq!(m.inflection_form.as_deref(), Some("連用形-促音便"));
    assert_eq!(m.text, "降っ");
}

#[test]
fn morph_extraction_rejects_other_arities() {
    let details: Vec<String> = vec!["UNK".to_string()];
    assert!(categorize(&details).is_none());
}

#[test]
fn stale_results_are_discarded() {
    let mut s = AnnotationSession::new();
    let g1 = s.start_capture();
    let g2 = s.start_capture();
    assert_ne!(g1, g2);
    // a late delivery from the first capture changes nothing
    assert!(!s.deliver(g1, vec![]));
    assert!(s.deliver(g2, vec![]));
}

#[test]
fn next_hint_wraps_around() {
    let mut s = AnnotationSession::new();
    s.next_hint();
    assert_eq!(s.result_index, 0);

    let blank = |text: &str| kanjisabi::annotate::JpnText {
        morphemes: vec![],
        text: text.to_string(),
        x: 0,
        y: 0,
        w: 0,
        h: 0,
    };
    let g = s.start_capture();
    assert!(s.deliver(g, vec![blank("一"), blank("二")]));
    assert_eq!(s.result_index, 0);
    s.next_hint();
    assert_eq!(s.result_index, 1);
    s.next_hint();
    assert_eq!(s.result_index, 0);
}

#[test]
fn retry_budget_allows_sixteen_attempts() {
    let mut b = RetryBudget::new();
    let mut failures = 0;
    while b.record_failure() {
        failures += 1;
    }
    // fifteen retries are granted; the sixteenth failure is fatal
    assert_eq!(failures, 15);
    assert_eq!(b.attempts, 16);
}

#[test]
fn font_scale_steps_are_clamped() {
    assert_eq!(step_font_scale(100, true), 125);
    assert_eq!(step_font_scale(100, false), 75);
    assert_eq!(step_font_scale(200, true), 200);
    assert_eq!(step_font_scale(50, false), 50);
    assert_eq!(step_font_scale(60, false), 50);
}
