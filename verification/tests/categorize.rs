use kanjisabi::categorize::{categorize, categorize_details, morphemes, LexicalCategory};

fn tags(v: &[&str]) -> Vec<String> {
    v.iter().map(|s| s.to_string()).collect()
}

fn tags17(head: &[&str]) -> Vec<String> {
    let mut t = tags(head);
    while t.len() < 17 {
        t.push("*".to_string());
    }
    t
}

#[test]
fn furu_is_verb() {
    let t = tags(&["動詞", "自立", "*", "*", "五段・ラ行", "基本形", "降る", "フル", "フル"]);
    assert_eq!(categorize(&t), LexicalCategory::Verb);
}

#[test]
fn kirei_is_keiyoudoushi() {
    let t = tags(&["名詞", "形容動詞語幹", "*", "*", "*", "*", "きれい", "キレイ", "キレイ"]);
    assert_eq!(categorize(&t), LexicalCategory::Keiyoudoushi);
}

#[test]
fn ni_is_case_particle() {
    let t = tags(&["助詞", "格助詞", "*", "*", "*", "*", "に", "ニ", "ニ"]);
    assert_eq!(categorize(&t), LexicalCategory::CaseParticle);
}

#[test]
fn kuten_is_sign() {
    let t = tags(&["記号", "句点", "*", "*", "*", "*", "。", "。", "。"]);
    assert_eq!(categorize(&t), LexicalCategory::Sign);
}

#[test]
fn categorization_is_deterministic_on_equal_tuples() {
    let t = tags(&["動詞", "自立", "*", "*", "五段・ラ行", "基本形", "降る", "フル", "フル"]);
    let u = t.clone();
    assert_eq!(categorize(&t), categorize(&u));
}

#[test]
fn noun_subtypes_ipadic() {
    assert_eq!(
        categorize(&tags(&["名詞", "一般", "*", "*", "*", "*", "山", "ヤマ", "ヤマ"])),
        LexicalCategory::Noun
    );
    assert_eq!(
        categorize(&tags(&["名詞", "数", "*", "*", "*", "*", "三", "サン", "サン"])),
        LexicalCategory::Noun
    );
    assert_eq!(
        categorize(&tags(&["名詞", "副詞可能", "*", "*", "*", "*", "それぞれ", "ソレゾレ", "ソレゾレ"])),
        LexicalCategory::Noun
    );
    assert_eq!(
        categorize(&tags(&["名詞", "接尾", "一般", "*", "*", "*", "さ", "サ", "サ"])),
        LexicalCategory::NounSuffix
    );
    assert_eq!(
        categorize(&tags(&["名詞", "固有名詞", "人名", "姓", "*", "*", "山田", "ヤマダ", "ヤマダ"])),
        LexicalCategory::ProperNoun
    );
    assert_eq!(
        categorize(&tags(&["名詞", "サ変接続", "*", "*", "*", "*", "勉強", "ベンキョウ", "ベンキョー"])),
        LexicalCategory::SuruVerb
    );
    assert_eq!(
        categorize(&tags(&["名詞", "代名詞", "一般", "*", "*", "*", "これ", "コレ", "コレ"])),
        LexicalCategory::Noun
    );
}

#[test]
fn adjective_forms_ipadic() {
    assert_eq!(
        categorize(&tags(&["形容詞", "自立", "*", "*", "形容詞・イ段", "基本形", "難しい", "ムズカシイ", "ムズカシイ"])),
        LexicalCategory::AdjectiveIDictForm
    );
    assert_eq!(
        categorize(&tags(&["形容詞", "自立", "*", "*", "形容詞・アウオ段", "基本形", "ない", "ナイ", "ナイ"])),
        LexicalCategory::AdjectiveIDictForm
    );
    assert_eq!(
        categorize(&tags(&["形容詞", "自立", "*", "*", "形容詞・イ段", "連用テ接続", "難しい", "ムズカシク", "ムズカシク"])),
        LexicalCategory::Adverb
    );
    assert_eq!(
        categorize(&tags(&["形容詞", "自立", "*", "*", "形容詞・イ段", "連用タ接続", "難しい", "ムズカシカッ", "ムズカシカッ"])),
        LexicalCategory::AdjectiveIConjForm
    );
}

#[test]
fn auxiliary_forms_ipadic() {
    assert_eq!(
        categorize(&tags(&["助動詞", "*", "*", "*", "特殊・ダ", "体言接続", "だ", "ナ", "ナ"])),
        LexicalCategory::AttributiveParticle
    );
    assert_eq!(
        categorize(&tags(&["助動詞", "*", "*", "*", "特殊・ナイ", "連用テ接続", "ない", "ナク", "ナク"])),
        LexicalCategory::ContinuativeAuxiliary
    );
    assert_eq!(
        categorize(&tags(&["助動詞", "*", "*", "*", "特殊・マス", "基本形", "ます", "マス", "マス"])),
        LexicalCategory::AuxiliaryVerb
    );
}

#[test]
fn particle_subtypes_ipadic() {
    assert_eq!(
        categorize(&tags(&["助詞", "副詞化", "*", "*", "*", "*", "に", "ニ", "ニ"])),
        LexicalCategory::AdverbificationParticle
    );
    assert_eq!(
        categorize(&tags(&["助詞", "接続助詞", "*", "*", "*", "*", "て", "テ", "テ"])),
        LexicalCategory::ContinuativeParticle
    );
    assert_eq!(
        categorize(&tags(&["助詞", "連体化", "*", "*", "*", "*", "の", "ノ", "ノ"])),
        LexicalCategory::AdjectivisationParticle
    );
    assert_eq!(
        categorize(&tags(&["助詞", "係助詞", "*", "*", "*", "*", "は", "ハ", "ワ"])),
        LexicalCategory::ConnectingParticle
    );
    assert_eq!(
        categorize(&tags(&["助詞", "副助詞", "*", "*", "*", "*", "まで", "マデ", "マデ"])),
        LexicalCategory::Particle
    );
    assert_eq!(
        categorize(&tags(&["助詞", "終助詞", "*", "*", "*", "*", "よ", "ヨ", "ヨ"])),
        LexicalCategory::Particle
    );
}

#[test]
fn adverb_ipadic() {
    assert_eq!(
        categorize(&tags(&["副詞", "助詞類接続", "*", "*", "*", "*", "あまり", "アマリ", "アマリ"])),
        LexicalCategory::Adverb
    );
}

#[test]
fn unmatched_and_unknown_arity_are_other() {
    assert_eq!(
        categorize(&tags(&["感動詞", "*", "*", "*", "*", "*", "はい", "ハイ", "ハイ"])),
        LexicalCategory::Other
    );
    assert_eq!(categorize(&tags(&["動詞", "自立"])), LexicalCategory::Other);
    assert_eq!(categorize(&tags(&[])), LexicalCategory::Other);
}

#[test]
fn verb_and_nouns_unidic() {
    assert_eq!(categorize(&tags17(&["動詞", "一般"])), LexicalCategory::Verb);
    assert_eq!(categorize(&tags17(&["名詞", "普通名詞"])), LexicalCategory::Noun);
    assert_eq!(categorize(&tags17(&["接頭辞"])), LexicalCategory::Noun);
    assert_eq!(categorize(&tags17(&["形状詞", "一般"])), LexicalCategory::Keiyoudoushi);
}

#[test]
fn auxiliary_forms_unidic() {
    let mut na = tags17(&["助動詞", "*", "*", "*", "助動詞-ダ", "連体形-一般"]);
    na[8] = "な".to_string();
    assert_eq!(categorize(&na), LexicalCategory::AttributiveParticle);

    let mut ni = tags17(&["助動詞", "*", "*", "*", "助動詞-ダ", "連用形-ニ"]);
    ni[8] = "に".to_string();
    assert_eq!(categorize(&ni), LexicalCategory::AdverbificationParticle);

    let cont = tags17(&["助動詞", "*", "*", "*", "助動詞-タ", "連用形-一般"]);
    assert_eq!(categorize(&cont), LexicalCategory::ContinuativeAuxiliary);

    let aux = tags17(&["助動詞", "*", "*", "*", "助動詞-マス", "終止形-一般"]);
    assert_eq!(categorize(&aux), LexicalCategory::AuxiliaryVerb);
}

#[test]
fn particles_unidic() {
    let mut te = tags17(&["助詞", "接続助詞"]);
    te[8] = "て".to_string();
    assert_eq!(categorize(&te), LexicalCategory::ContinuativeParticle);

    assert_eq!(categorize(&tags17(&["助詞", "格助詞"])), LexicalCategory::CaseParticle);
    assert_eq!(categorize(&tags17(&["助詞", "係助詞"])), LexicalCategory::ConnectingParticle);
    assert_eq!(categorize(&tags17(&["助詞", "副助詞"])), LexicalCategory::Other);
}

#[test]
fn negation_and_adjective_forms_unidic() {
    let mut neg_dict = tags17(&["形容詞", "非自立可能", "*", "*", "形容詞", "終止形-一般"]);
    neg_dict[7] = "無い".to_string();
    assert_eq!(categorize(&neg_dict), LexicalCategory::NegationDictForm);

    let mut neg_conj = tags17(&["形容詞", "非自立可能", "*", "*", "形容詞", "連用形-一般"]);
    neg_conj[7] = "無い".to_string();
    assert_eq!(categorize(&neg_conj), LexicalCategory::NegationConjForm);

    let mut neg_onbin = tags17(&["形容詞", "非自立可能", "*", "*", "形容詞", "連用形-促音便"]);
    neg_onbin[7] = "無い".to_string();
    assert_eq!(categorize(&neg_onbin), LexicalCategory::NegationConjForm);

    assert_eq!(
        categorize(&tags17(&["形容詞", "一般", "*", "*", "形容詞", "終止形-一般"])),
        LexicalCategory::AdjectiveIDictForm
    );
    assert_eq!(
        categorize(&tags17(&["形容詞", "一般", "*", "*", "形容詞", "連用形-一般"])),
        LexicalCategory::AdjectiveIConjForm
    );
    assert_eq!(
        categorize(&tags17(&["形容詞", "一般", "*", "*", "形容詞", "連用形-促音便"])),
        LexicalCategory::AdjectiveIConjForm
    );
}

#[test]
fn sign_and_adverb_unidic() {
    assert_eq!(categorize(&tags17(&["補助記号", "句点"])), LexicalCategory::Sign);
    assert_eq!(categorize(&tags17(&["副詞"])), LexicalCategory::Adverb);
}

#[test]
fn categorize_details_reads_surface_and_dict_form() {
    let mut d = tags17(&["動詞", "一般"]);
    d[8] = "降っ".to_string();
    d[10] = "降る".to_string();
    let m = categorize_details(&d).unwrap();
    assert_eq!(m.text, "降っ");
    assert_eq!(m.dict_form, "降る");
    assert_eq!(m.category, LexicalCategory::Verb);
}

#[test]
fn categorize_details_rejects_other_arities() {
    assert!(categorize_details(&tags(&["動詞", "自立", "*", "*", "*", "*", "x", "y", "z"])).is_none());
    assert!(categorize_details(&tags(&[])).is_none());
}

#[test]
fn morphemes_drop_unknown_schemas() {
    let mut good = tags17(&["補助記号", "句点"]);
    good[8] = "。".to_string();
    good[10] = "。".to_string();
    let bad = tags(&["UNK"]);
    let ms = morphemes(&vec![bad, good]);
    assert_eq!(ms.len(), 1);
    assert_eq!(ms[0].text, "。");
    assert_eq!(ms[0].category, LexicalCategory::Sign);
}
