use kanjisabi::annotate::Morpheme;
use kanjisabi::jpn::{JpnOCR, Run};
use kanjisabi::ocr::{OCRWord, OCR};

fn ocr() -> OCR {
    OCR { lang: "jpn".to_string() }
}

fn word(text: &str, line: u32, num: u32, conf: u32, x: i32, y: i32, w: i32, h: i32) -> OCRWord {
    OCRWord { text: text.to_string(), line_id: (1, 1, 1, line), word_num: num, conf, x, y, w, h }
}

fn morpheme(text: &str) -> Morpheme {
    Morpheme { text: text.to_string(), detail: vec![] }
}

#[test]
fn maybe_word_parses_a_word_row() {
    let w = ocr()
        .maybe_word("5\t1\t2\t3\t4\t7\t10\t20\t30\t40\t96.06\t降った")
        .unwrap();
    assert_eq!(w.text, "降った");
    assert_eq!(w.line_id, (1, 2, 3, 4));
    assert_eq!(w.word_num, 7);
    assert_eq!(w.conf, 9606);
    assert_eq!((w.x, w.y, w.w, w.h), (10, 20, 30, 40));
}

#[test]
fn maybe_word_drops_short_rows() {
    assert!(ocr().maybe_word("5\t1\t2\t3\t4\t7\t10\t20\t30\t40\t96.06").is_none());
}

#[test]
fn maybe_word_drops_non_word_rows() {
    assert!(ocr().maybe_word("4\t1\t2\t3\t4\t7\t10\t20\t30\t40\t96.06\tline").is_none());
    assert!(ocr().maybe_word("55\t1\t2\t3\t4\t7\t10\t20\t30\t40\t96.06\tx").is_none());
}

#[test]
fn maybe_word_drops_non_numeric_fields() {
    assert!(ocr().maybe_word("5\t1\t2\t3\t4\t7\tten\t20\t30\t40\t96.06\tx").is_none());
    assert!(ocr().maybe_word("5\t1\t2\t3\t4\t7\t10\t20\t30\t40\tgood\tx").is_none());
}

#[test]
fn confidence_keeps_the_eighty_percent_cut() {
    let conf_of = |s: &str| {
        ocr()
            .maybe_word(&format!("5\t1\t1\t1\t1\t1\t0\t0\t1\t1\t{}\tx", s))
            .unwrap()
            .conf
    };
    assert_eq!(conf_of("80"), 8000);
    assert_eq!(conf_of("80.00"), 8000);
    assert_eq!(conf_of("80.01"), 8001);
    assert_eq!(conf_of("80.001"), 8001);
    assert_eq!(conf_of("96.063843"), 9607);
    assert_eq!(conf_of("-1"), 0);
    assert_eq!(conf_of("100"), 10000);
    assert_eq!(conf_of("123.4"), 10000);
}

#[test]
fn words_from_tsv_filters_and_orders() {
    let tsv = "1\t1\t0\t0\t0\t0\t0\t0\t640\t480\t-1\t\r\n5\t1\t1\t1\t1\t1\t10\t20\t30\t40\t95\t降っ\n5\t1\t1\t1\t1\t2\t40\t20\t20\t40\t91\tた\n";
    let ws = ocr().words_from_tsv(tsv);
    assert_eq!(ws.len(), 2);
    assert_eq!(ws[0].text, "降っ");
    assert_eq!(ws[1].text, "た");
    assert_eq!(ws[1].word_num, 2);
}

#[test]
fn from_line_splits_on_gaps_and_filters() {
    let line = vec![
        word("降", 1, 1, 9000, 0, 0, 10, 10),
        word("っ", 1, 2, 9000, 10, 0, 10, 10),
        // low confidence: excluded, closes the run
        word("た", 1, 3, 7000, 20, 0, 10, 10),
        word("雨", 1, 4, 9000, 30, 0, 10, 10),
        // gap in word numbers: starts a new run
        word("雪", 1, 6, 9000, 50, 0, 10, 10),
        // non-Japanese text: excluded
        word("abc", 1, 7, 9000, 60, 0, 10, 10),
        word("風", 1, 8, 9000, 70, 0, 10, 10),
    ];
    let runs = JpnOCR::new().from_line(&line);
    let texts: Vec<Vec<&str>> = runs
        .iter()
        .map(|r| r.words.iter().map(|w| w.text.as_str()).collect())
        .collect();
    assert_eq!(
        texts,
        vec![vec!["降", "っ"], vec!["雨"], vec!["雪"], vec!["風"]]
    );
}

#[test]
fn runs_are_contiguous_confident_japanese() {
    let line = vec![
        word("降", 1, 1, 9000, 0, 0, 10, 10),
        word("っ", 1, 2, 9000, 10, 0, 10, 10),
        word("た", 1, 4, 8500, 20, 0, 10, 10),
    ];
    let runs = JpnOCR::new().from_line(&line);
    for r in &runs {
        assert!(!r.words.is_empty());
        for w in &r.words {
            assert!(w.conf > 8000);
        }
        for pair in r.words.windows(2) {
            assert_eq!(pair[1].word_num, pair[0].word_num + 1);
        }
    }
}

#[test]
fn from_ocr_words_groups_by_line_and_sorts() {
    let words = vec![
        word("風", 2, 1, 9000, 0, 20, 10, 10),
        // line 1 arrives out of word order
        word("た", 1, 2, 9000, 10, 0, 10, 10),
        word("降っ", 1, 1, 9000, 0, 0, 10, 10),
    ];
    let runs = JpnOCR::new().from_ocr_words(&words);
    let texts: Vec<Vec<&str>> = runs
        .iter()
        .map(|r| r.words.iter().map(|w| w.text.as_str()).collect())
        .collect();
    assert_eq!(texts, vec![vec!["風"], vec!["降っ", "た"]]);
}

#[test]
fn reclustering_a_run_yields_the_same_run() {
    let words = vec![
        word("降", 1, 3, 9000, 0, 0, 10, 10),
        word("っ", 1, 4, 9500, 10, 0, 10, 10),
        word("た", 1, 5, 8200, 20, 0, 10, 10),
    ];
    let j = JpnOCR::new();
    let runs = j.from_ocr_words(&words);
    assert_eq!(runs.len(), 1);
    let again = j.from_ocr_words(&runs[0].words);
    assert_eq!(again.len(), 1);
    let a: Vec<&str> = again[0].words.iter().map(|w| w.text.as_str()).collect();
    let b: Vec<&str> = runs[0].words.iter().map(|w| w.text.as_str()).collect();
    assert_eq!(a, b);
}

#[test]
fn aggregate_box_uses_character_weighted_means() {
    let run = Run {
        words: vec![
            word("降", 1, 1, 9000, 10, 20, 30, 40),
            word("った", 1, 2, 9000, 50, 40, 20, 60),
        ],
    };
    let j = JpnOCR::new();
    assert!(run.bounded());
    let t = j.annotate_run(&run, &vec![]);
    assert_eq!(t.text, "降った");
    assert_eq!(t.x, 10);
    // rightmost extent: max(10 + 30, 50 + 20) = 70
    assert_eq!(t.w, 60);
    // three characters: y = (20 + 40) / 3, h = (40 + 60) / 3
    assert_eq!(t.y, 20);
    assert_eq!(t.h, 33);
}

#[test]
fn aligned_morphemes_span_their_characters() {
    // Three one-character words, all anchored in the box table.
    let run = Run {
        words: vec![
            word("降", 1, 1, 9000, 0, 0, 10, 12),
            word("っ", 1, 2, 9000, 12, 1, 9, 11),
            word("た", 1, 3, 9000, 23, 0, 10, 12),
        ],
    };
    let ms = vec![morpheme("降っ"), morpheme("た")];
    let t = JpnOCR::new().annotate_run(&run, &ms);
    assert_eq!(t.morphemes.len(), 2);
    assert_eq!(t.morphemes[0].morpheme.text, "降っ");
    // the first morpheme spans characters one and two
    assert_eq!(t.morphemes[0].bbox, Some((0, 0, 21, 12)));
    // the second spans character three only
    assert_eq!(t.morphemes[1].bbox, Some((23, 0, 10, 12)));
}

#[test]
fn mismatched_analysis_is_discarded_but_box_kept() {
    // Four characters of source text, morphemes totaling three.
    let run = Run {
        words: vec![
            word("きれ", 1, 1, 9000, 0, 0, 20, 10),
            word("いな", 1, 2, 9000, 20, 0, 20, 10),
        ],
    };
    let ms = vec![morpheme("きれ"), morpheme("い")];
    let t = JpnOCR::new().annotate_run(&run, &ms);
    assert!(t.morphemes.is_empty());
    assert_eq!(t.text, "きれいな");
    assert_eq!((t.x, t.y, t.w, t.h), (0, 0, 40, 5));
}

#[test]
fn character_conservation_holds_for_accepted_analyses() {
    let run = Run {
        words: vec![
            word("降っ", 1, 1, 9000, 0, 0, 20, 10),
            word("た", 1, 2, 9000, 20, 0, 10, 10),
        ],
    };
    let ms = vec![morpheme("降っ"), morpheme("た")];
    let t = JpnOCR::new().annotate_run(&run, &ms);
    assert!(!t.morphemes.is_empty());
    let morpheme_chars: usize = t.morphemes.iter().map(|m| m.morpheme.text.chars().count()).sum();
    assert_eq!(morpheme_chars, t.text.chars().count());
}

#[test]
fn unanchored_morpheme_has_no_box() {
    // One two-character word: the second character is a continuation and
    // carries no box, so a morpheme consuming only it stays unplaced.
    let run = Run { words: vec![word("った", 1, 1, 9000, 5, 6, 20, 10)] };
    let ms = vec![morpheme("っ"), morpheme("た")];
    let t = JpnOCR::new().annotate_run(&run, &ms);
    assert_eq!(t.morphemes.len(), 2);
    assert_eq!(t.morphemes[0].bbox, Some((5, 6, 20, 10)));
    assert_eq!(t.morphemes[1].bbox, None);
}

#[test]
fn bounded_rejects_out_of_range_runs() {
    let run = Run { words: vec![word("降", 1, 1, 9000, -1, 0, 10, 10)] };
    assert!(!run.bounded());
    let empty_text = Run { words: vec![word("", 1, 1, 9000, 0, 0, 10, 10)] };
    assert!(!empty_text.bounded());
    let none = Run { words: vec![] };
    assert!(!none.bounded());
}
