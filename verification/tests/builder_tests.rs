use segmenter::builder::{
    add_conjugations, add_reading_conjugations, add_word, enter_forms, is_convertible, verb_type,
};
use segmenter::conjugation::{conjugate, Inflected, VerbType, FORM_COUNT};
use segmenter::dictionary::{Dictionary, DictionaryEntry, InflectionType, PartOfSpeech, Tag, TermEntry};
use segmenter::tokenizer::Tokenizer;
use std::sync::Arc;

fn strings(words: &[&str]) -> Vec<String> {
    words.iter().map(|word| word.to_string()).collect()
}

fn readings(words: &[Inflected]) -> Vec<(String, Option<String>)> {
    words.iter().map(|word| (word.kana.clone(), word.kanji.clone())).collect()
}

fn pairs(words: &[(&str, &str)]) -> Vec<(String, Option<String>)> {
    words.iter().map(|(kana, kanji)| (kana.to_string(), Some(kanji.to_string()))).collect()
}

fn blank() -> DictionaryEntry {
    DictionaryEntry { term_id: 0, pos: PartOfSpeech::empty(), tag: Tag::empty() }
}

fn entry_indices(terms: &[TermEntry]) -> Vec<u32> {
    terms.iter().map(|term| term.entry_index).collect()
}

#[test]
fn forms_of_a_godan_verb() {
    let words = conjugate(VerbType::Godan, "ならう", Some("習う")).unwrap();
    assert_eq!(words.len(), FORM_COUNT);
    assert_eq!(
        readings(&words),
        pairs(&[
            ("ならわない", "習わない"),
            ("ならいません", "習いません"),
            ("ならって", "習って"),
            ("ならわなくて", "習わなくて"),
            ("ならった", "習った"),
            ("ならいました", "習いました"),
            ("ならわなかった", "習わなかった"),
            ("ならいませんでした", "習いませんでした"),
            ("ならえる", "習える"),
            ("ならえます", "習えます"),
            ("ならえない", "習えない"),
            ("ならえません", "習えません"),
            ("ならえ", "習え"),
            ("ならうな", "習うな"),
            ("ならわせる", "習わせる"),
            ("ならわされる", "習わされる"),
            ("ならわされない", "習わされない"),
            ("ならわせない", "習わせない"),
            ("ならわれる", "習われる"),
            ("ならわれない", "習われない"),
        ])
    );
}

#[test]
fn forms_of_an_ichidan_verb() {
    let words = conjugate(VerbType::Ichidan, "たべる", Some("食べる")).unwrap();
    assert_eq!(
        readings(&words),
        pairs(&[
            ("たべない", "食べない"),
            ("たべません", "食べません"),
            ("たべて", "食べて"),
            ("たべなくて", "食べなくて"),
            ("たべた", "食べた"),
            ("たべました", "食べました"),
            ("たべなかった", "食べなかった"),
            ("たべませんでした", "食べませんでした"),
            ("たべられる", "食べられる"),
            ("たべられます", "食べられます"),
            ("たべられない", "食べられない"),
            ("たべられません", "食べられません"),
            ("たべろ", "食べろ"),
            ("たべるな", "食べるな"),
            ("たべさせる", "食べさせる"),
            ("たべさせられる", "食べさせられる"),
            ("たべさせられない", "食べさせられない"),
            ("たべさせない", "食べさせない"),
            ("たべられる", "食べられる"),
            ("たべられない", "食べられない"),
        ])
    );
}

#[test]
fn forms_of_a_verb_without_ideographs() {
    let words = conjugate(VerbType::Godan, "はしる", None).unwrap();
    assert_eq!(words.len(), FORM_COUNT);
    assert!(words.iter().all(|word| word.kanji.is_none()));
    assert_eq!(words[4].kana, "はしった");
    assert_eq!(words[2].kana, "はしって");
}

#[test]
fn class_of_the_verb_decides_the_forms() {
    let godan = conjugate(VerbType::Godan, "きる", Some("切る")).unwrap();
    let ichidan = conjugate(VerbType::Ichidan, "きる", Some("着る")).unwrap();
    assert_eq!(godan[0].kana, "きらない");
    assert_eq!(ichidan[0].kana, "きない");
    assert_eq!(godan[4].kana, "きった");
    assert_eq!(ichidan[4].kana, "きた");
}

#[test]
fn word_that_is_no_verb_has_no_forms() {
    assert!(conjugate(VerbType::Godan, "ねこ", Some("猫")).is_none());
    assert!(conjugate(VerbType::Ichidan, "えいご", Some("英語")).is_none());
    assert!(conjugate(VerbType::Godan, "", None).is_none());
    assert!(conjugate(VerbType::Godan, "ナラウ", Some("習う")).is_none());
}

#[test]
fn verb_type_reads_the_codes() {
    assert_eq!(verb_type(&strings(&["v5u", "vt"])), Some(VerbType::Godan));
    assert_eq!(verb_type(&strings(&["vi", "v5r-i"])), Some(VerbType::Godan));
    assert_eq!(verb_type(&strings(&["v1"])), Some(VerbType::Ichidan));
    assert_eq!(verb_type(&strings(&["n", "v1-s"])), Some(VerbType::Ichidan));
    assert_eq!(verb_type(&strings(&["v1", "v5k"])), Some(VerbType::Godan));
    assert_eq!(verb_type(&strings(&["v5"])), Some(VerbType::Godan));
}

#[test]
fn verb_type_of_other_words_is_none() {
    assert_eq!(verb_type(&strings(&[])), None);
    assert_eq!(verb_type(&strings(&["n", "adj-i"])), None);
    assert_eq!(verb_type(&strings(&["v", "vs", "vk", "vt", "vi"])), None);
    assert_eq!(verb_type(&strings(&["xv5", " v1", "V5", "ｖ5"])), None);
    assert_eq!(verb_type(&strings(&[""])), None);
}

#[test]
fn enter_forms_enters_what_is_absent() {
    let mut dictionary = Dictionary::new();
    dictionary.add_entry(blank());
    dictionary.add_entry(blank());
    let present = TermEntry { entry_index: 0, inflection_type: InflectionType::Past };
    assert!(dictionary.add_kanji("習った", present));
    assert!(dictionary.add_kana("ならって", present));
    let words = vec![
        Inflected { kana: "ならった".to_string(), kanji: Some("習った".to_string()) },
        Inflected { kana: "ならって".to_string(), kanji: Some("習って".to_string()) },
        Inflected { kana: "ならえ".to_string(), kanji: None },
        Inflected { kana: "ならえ".to_string(), kanji: Some("習え".to_string()) },
    ];
    enter_forms(&mut dictionary, &words, 1);
    assert_eq!(entry_indices(dictionary.lookup_kanji("習った").unwrap()), vec![0]);
    assert_eq!(entry_indices(dictionary.lookup_kana("ならった").unwrap()), vec![1]);
    assert_eq!(entry_indices(dictionary.lookup_kanji("習って").unwrap()), vec![1]);
    assert_eq!(entry_indices(dictionary.lookup_kana("ならって").unwrap()), vec![0]);
    assert_eq!(entry_indices(dictionary.lookup_kana("ならえ").unwrap()), vec![1]);
    assert_eq!(entry_indices(dictionary.lookup_kanji("習え").unwrap()), vec![1]);
    assert_eq!(
        dictionary.lookup_kana("ならった").unwrap()[0].inflection_type,
        InflectionType::DictionaryForm
    );
    assert_eq!(
        dictionary.kanji_surfaces(),
        &strings(&["習った", "習って", "習え"])
    );
    assert_eq!(
        dictionary.kana_surfaces(),
        &strings(&["ならって", "ならった", "ならえ"])
    );
}

#[test]
fn enter_forms_for_a_missing_entry_enters_nothing() {
    let mut dictionary = Dictionary::new();
    let words = vec![Inflected { kana: "ならった".to_string(), kanji: Some("習った".to_string()) }];
    enter_forms(&mut dictionary, &words, 0);
    assert!(dictionary.lookup_kanji("習った").is_none());
    assert!(dictionary.lookup_kana("ならった").is_none());
}

#[test]
fn add_conjugations_enters_every_form() {
    let mut dictionary = Dictionary::new();
    dictionary.add_entry(blank());
    assert!(add_conjugations(&mut dictionary, VerbType::Godan, "ならう", Some("習う"), 0));
    assert_eq!(dictionary.kanji_surfaces().len(), 20);
    assert_eq!(dictionary.kana_surfaces().len(), 20);
    assert_eq!(entry_indices(dictionary.lookup_kanji("習わなかった").unwrap()), vec![0]);
    assert_eq!(entry_indices(dictionary.lookup_kana("ならわなかった").unwrap()), vec![0]);
    // The dictionary form itself is not among the forms.
    assert!(dictionary.lookup_kanji("習う").is_none());
    // A second time nothing is absent.
    assert!(add_conjugations(&mut dictionary, VerbType::Godan, "ならう", Some("習う"), 0));
    assert_eq!(dictionary.kanji_surfaces().len(), 20);
    assert_eq!(entry_indices(dictionary.lookup_kanji("習わなかった").unwrap()), vec![0]);
}

#[test]
fn add_conjugations_counts_equal_forms_once() {
    // The potential and the passive of an Ichidan verb are written alike.
    let mut dictionary = Dictionary::new();
    dictionary.add_entry(blank());
    assert!(add_conjugations(&mut dictionary, VerbType::Ichidan, "たべる", Some("食べる"), 0));
    assert_eq!(dictionary.kanji_surfaces().len(), 18);
    assert_eq!(dictionary.kana_surfaces().len(), 18);
    assert_eq!(entry_indices(dictionary.lookup_kanji("食べられる").unwrap()), vec![0]);
}

#[test]
fn add_conjugations_of_no_verb_changes_nothing() {
    let mut dictionary = Dictionary::new();
    dictionary.add_entry(blank());
    assert!(!add_conjugations(&mut dictionary, VerbType::Godan, "ねこ", Some("猫"), 0));
    assert!(dictionary.kanji_surfaces().is_empty());
    assert!(dictionary.kana_surfaces().is_empty());
}

#[test]
fn add_word_enters_a_noun_under_its_surfaces() {
    let mut dictionary = Dictionary::new();
    let entered = add_word(&mut dictionary, &strings(&["猫"]), &strings(&["ねこ", "ネコ"]), &strings(&["n"])).unwrap();
    assert_eq!(entered.entry_index, 0);
    assert!(entered.conjugated);
    assert_eq!(dictionary.entries().len(), 1);
    assert_eq!(dictionary.entries()[0].term_id, 0);
    assert_eq!(dictionary.entries()[0].pos.bits(), 0);
    assert_eq!(dictionary.entries()[0].tag.bits(), 0);
    assert_eq!(dictionary.kanji_surfaces(), &strings(&["猫"]));
    assert_eq!(dictionary.kana_surfaces(), &strings(&["ねこ", "ネコ"]));
    let entered = add_word(&mut dictionary, &strings(&[]), &strings(&["ねこ"]), &strings(&["n"])).unwrap();
    assert_eq!(entered.entry_index, 1);
    assert_eq!(entry_indices(dictionary.lookup_kana("ねこ").unwrap()), vec![0, 1]);
    assert_eq!(entry_indices(dictionary.lookup_kana("ネコ").unwrap()), vec![0]);
    assert_eq!(entry_indices(dictionary.lookup_kanji("猫").unwrap()), vec![0]);
}

#[test]
fn add_word_enters_a_verb_under_its_forms() {
    let mut dictionary = Dictionary::new();
    add_word(&mut dictionary, &strings(&["猫"]), &strings(&["ねこ"]), &strings(&["n"])).unwrap();
    let entered = add_word(
        &mut dictionary,
        &strings(&["習う"]),
        &strings(&["ならう"]),
        &strings(&["v5u", "vt"]),
    )
    .unwrap();
    assert_eq!(entered.entry_index, 1);
    assert!(entered.conjugated);
    assert_eq!(entry_indices(dictionary.lookup_kanji("習う").unwrap()), vec![1]);
    assert_eq!(entry_indices(dictionary.lookup_kana("ならう").unwrap()), vec![1]);
    assert_eq!(entry_indices(dictionary.lookup_kanji("習った").unwrap()), vec![1]);
    assert_eq!(entry_indices(dictionary.lookup_kana("ならった").unwrap()), vec![1]);
    assert_eq!(dictionary.kanji_surfaces().len(), 22);
    assert_eq!(dictionary.kana_surfaces().len(), 22);
    assert_eq!(dictionary.kanji_surfaces()[1], "習う");
    assert_eq!(dictionary.kanji_surfaces()[2], "習わない");
    assert_eq!(dictionary.kana_surfaces()[1], "ならわない");
    assert_eq!(dictionary.kana_surfaces()[21], "ならう");
}

#[test]
fn add_word_inflects_the_reading_in_hiragana() {
    let mut dictionary = Dictionary::new();
    let entered = add_word(&mut dictionary, &strings(&[]), &strings(&["ナラウ"]), &strings(&["v5u"])).unwrap();
    assert!(entered.conjugated);
    assert!(dictionary.contains_kana("ナラウ"));
    assert!(dictionary.contains_kana("ならった"));
    assert!(!dictionary.contains_kana("ならう"));
    assert!(dictionary.kanji_surfaces().is_empty());
}

#[test]
fn add_word_reports_a_verb_that_cannot_be_inflected() {
    let mut dictionary = Dictionary::new();
    let entered = add_word(&mut dictionary, &strings(&["猫"]), &strings(&["ねこ"]), &strings(&["v1"])).unwrap();
    assert_eq!(entered.entry_index, 0);
    assert!(!entered.conjugated);
    assert_eq!(dictionary.kanji_surfaces(), &strings(&["猫"]));
    assert_eq!(dictionary.kana_surfaces(), &strings(&["ねこ"]));
}

#[test]
fn add_word_takes_godan_before_ichidan() {
    let mut dictionary = Dictionary::new();
    add_word(&mut dictionary, &strings(&["切る"]), &strings(&["きる"]), &strings(&["v1", "v5r"])).unwrap();
    assert!(dictionary.contains_kana("きった"));
    assert!(!dictionary.contains_kana("きた"));
}

#[test]
fn built_dictionary_serves_the_tokenizer() {
    let mut dictionary = Dictionary::new();
    add_word(&mut dictionary, &strings(&["私"]), &strings(&["わたし"]), &strings(&["pn"])).unwrap();
    add_word(&mut dictionary, &strings(&["走る"]), &strings(&["はしる"]), &strings(&["v5r", "vi"])).unwrap();
    let tokenizer = Tokenizer::new(Arc::new(dictionary)).unwrap();
    let tokens = tokenizer.tokenize("私走った。");
    let surfaces: Vec<&str> = tokens.iter().map(|token| token.token).collect();
    assert_eq!(surfaces, vec!["私", "走った"]);
    assert_eq!(tokens[0].term_id, Some(0));
    assert_eq!(tokens[1].term_id, Some(0));
}

#[test]
fn texts_without_half_width_sound_marks_are_convertible() {
    assert!(is_convertible(""));
    assert!(is_convertible("ならう"));
    assert!(is_convertible("ナラウ"));
    assert!(is_convertible("ｱｲｳｴｵ"));
    assert!(is_convertible("narau 習う ﾝ\u{FF9D}\u{FFA0}"));
}

#[test]
fn texts_with_a_half_width_sound_mark_are_not_convertible() {
    assert!(!is_convertible("\u{FF9E}"));
    assert!(!is_convertible("\u{FF9F}"));
    assert!(!is_convertible("ｱ\u{FF9E}"));
    assert!(!is_convertible("ｶﾞ"));
    assert!(!is_convertible("ﾊﾟ"));
    assert!(!is_convertible("ならう\u{FF9F}"));
    assert!(!is_convertible("\u{FF9E}ならう"));
}

#[test]
fn reading_is_turned_into_hiragana_before_it_is_inflected() {
    let mut dictionary = Dictionary::new();
    dictionary.add_entry(blank());
    assert!(add_reading_conjugations(&mut dictionary, VerbType::Godan, "ナラウ", Some("習う"), 0));
    assert!(dictionary.contains_kana("ならった"));
    assert!(dictionary.contains_kanji("習った"));
    assert!(!dictionary.contains_kana("ナラッタ"));
    assert_eq!(dictionary.kana_surfaces().len(), 20);
}

#[test]
fn reading_with_a_half_width_sound_mark_is_not_inflected() {
    let mut dictionary = Dictionary::new();
    dictionary.add_entry(blank());
    for reading in ["\u{FF9E}", "ｱ\u{FF9E}", "ｶﾞｳ", "なら\u{FF9F}う"] {
        assert!(!add_reading_conjugations(&mut dictionary, VerbType::Godan, reading, None, 0));
        assert!(!add_reading_conjugations(
            &mut dictionary,
            VerbType::Ichidan,
            reading,
            Some("習う"),
            0
        ));
    }
    assert!(dictionary.kanji_surfaces().is_empty());
    assert!(dictionary.kana_surfaces().is_empty());
}

#[test]
fn reading_that_is_no_verb_is_not_inflected() {
    let mut dictionary = Dictionary::new();
    dictionary.add_entry(blank());
    assert!(!add_reading_conjugations(&mut dictionary, VerbType::Godan, "ネコ", Some("猫"), 0));
    assert!(dictionary.kana_surfaces().is_empty());
}

#[test]
fn add_word_reports_a_verb_whose_reading_cannot_be_turned() {
    let mut dictionary = Dictionary::new();
    let entered = add_word(
        &mut dictionary,
        &strings(&["習う"]),
        &strings(&["ならう", "ﾅﾗｳ\u{FF9E}"]),
        &strings(&["v5u"]),
    )
    .unwrap();
    assert_eq!(entered.entry_index, 0);
    assert!(!entered.conjugated);
    // The word and the forms of the reading that can be turned are entered.
    assert!(dictionary.contains_kanji("習う"));
    assert!(dictionary.contains_kana("ならう"));
    assert!(dictionary.contains_kana("ﾅﾗｳ\u{FF9E}"));
    assert!(dictionary.contains_kana("ならった"));
    assert_eq!(dictionary.kana_surfaces().len(), 22);
    assert_eq!(dictionary.kanji_surfaces().len(), 21);
}

#[test]
fn add_word_turns_no_reading_of_a_word_that_is_no_verb() {
    let mut dictionary = Dictionary::new();
    let entered = add_word(
        &mut dictionary,
        &strings(&[]),
        &strings(&["\u{FF9E}", "ｶﾞ"]),
        &strings(&["n"]),
    )
    .unwrap();
    assert!(entered.conjugated);
    assert_eq!(dictionary.kana_surfaces(), &strings(&["\u{FF9E}", "ｶﾞ"]));
}

#[test]
fn negative_imperative_puts_one_kana_behind_the_verb() {
    for (kana, kanji) in [
        ("かう", "買う"), ("かく", "書く"), ("およぐ", "泳ぐ"), ("はなす", "話す"),
        ("たつ", "立つ"), ("しぬ", "死ぬ"), ("あそぶ", "遊ぶ"), ("よむ", "読む"),
        ("はしる", "走る"), ("ゆ", "湯"), ("ず", "図"), ("づ", "づ"), ("ふ", "譜"), ("ぷ", "ぷ"),
    ] {
        for verb_type in [VerbType::Godan, VerbType::Ichidan] {
            let words = conjugate(verb_type, kana, Some(kanji));
            if let Some(words) = words {
                assert_eq!(words[13].kana, format!("{}な", kana));
                assert_eq!(words[13].kanji, Some(format!("{}な", kanji)));
            }
        }
    }
    let words = conjugate(VerbType::Godan, "かう", None).unwrap();
    assert_eq!(words[13].kana, "かうな");
    assert_eq!(words[13].kanji, None);
}

#[test]
fn reading_that_ends_in_no_u_kana_has_no_forms() {
    for kana in ["", "ねこ", "かわ", "を", "ん", "っ", "ゔ", "ウ", "u", "かうー", "ぅ"] {
        assert!(conjugate(VerbType::Godan, kana, None).is_none(), "{}", kana);
        assert!(conjugate(VerbType::Ichidan, kana, Some("猫")).is_none(), "{}", kana);
    }
}
