use segmenter::dictionary::{Dictionary, DictionaryEntry, InflectionType, PartOfSpeech, Tag, TermEntry};

fn numbered(term_id: u32) -> DictionaryEntry {
    DictionaryEntry { term_id, pos: PartOfSpeech::empty(), tag: Tag::empty() }
}

fn term_of(entry_index: u32, inflection_type: InflectionType) -> TermEntry {
    TermEntry { entry_index, inflection_type }
}

fn indices(terms: &[TermEntry]) -> Vec<(u32, InflectionType)> {
    terms.iter().map(|term| (term.entry_index, term.inflection_type)).collect()
}

#[test]
fn part_of_speech_bits() {
    assert_eq!(PartOfSpeech::NONE, 0);
    assert_eq!(PartOfSpeech::ADJECTIVE_PRENOMINAL, 1 << 0);
    assert_eq!(PartOfSpeech::ADJECTIVE, 1 << 1);
    assert_eq!(PartOfSpeech::ADJECTIVE_NO, 1 << 2);
    assert_eq!(PartOfSpeech::ADVERB, 1 << 3);
    assert_eq!(PartOfSpeech::ADVERB_TO, 1 << 4);
    assert_eq!(PartOfSpeech::AUXILIARY, 1 << 5);
    assert_eq!(PartOfSpeech::AUXILIARY_ADJECTIVE, 1 << 6);
    assert_eq!(PartOfSpeech::AUXILIARY_VERB, 1 << 7);
    assert_eq!(PartOfSpeech::CONJUNCTION, 1 << 8);
    assert_eq!(PartOfSpeech::COPULA, 1 << 9);
    assert_eq!(PartOfSpeech::COUNTER, 1 << 10);
    assert_eq!(PartOfSpeech::EXPRESSION, 1 << 11);
    assert_eq!(PartOfSpeech::INTERJECTION, 1 << 12);
    assert_eq!(PartOfSpeech::NOUN, 1 << 13);
    assert_eq!(PartOfSpeech::NOUN_ADVERB, 1 << 14);
    assert_eq!(PartOfSpeech::NOUN_PROPER, 1 << 15);
    assert_eq!(PartOfSpeech::NOUN_PREFIX, 1 << 16);
    assert_eq!(PartOfSpeech::NOUN_SUFFIX, 1 << 17);
    assert_eq!(PartOfSpeech::NOUN_TEMPORAL, 1 << 18);
    assert_eq!(PartOfSpeech::NUMERIC, 1 << 19);
    assert_eq!(PartOfSpeech::PRONOUN, 1 << 20);
    assert_eq!(PartOfSpeech::PREFIX, 1 << 21);
    assert_eq!(PartOfSpeech::PARTICLE, 1 << 22);
    assert_eq!(PartOfSpeech::SUFFIX, 1 << 23);
    assert_eq!(PartOfSpeech::ICHIDAN_VERB, 1 << 24);
    assert_eq!(PartOfSpeech::GODAN_VERB, 1 << 25);
    assert_eq!(PartOfSpeech::INTRANSITIVE_VERB, 1 << 26);
    assert_eq!(PartOfSpeech::KURU_VERB, 1 << 27);
    assert_eq!(PartOfSpeech::SURU_VERB, 1 << 28);
    assert_eq!(PartOfSpeech::TRANSITIVE_VERB, 1 << 29);
    assert_eq!(PartOfSpeech::PRE_NOUN_ADJECTIVAL, 1 << 30);
}

#[test]
fn tag_bits() {
    assert_eq!(Tag::NONE, 0);
    assert_eq!(Tag::USUALLY_KANA, 1 << 0);
    assert_eq!(Tag::ABBREVIATION, 1 << 1);
    assert_eq!(Tag::ARCHAIC, 1 << 2);
    assert_eq!(Tag::DATED_TERM, 1 << 3);
    assert_eq!(Tag::HISTORICAL_TERM, 1 << 4);
    assert_eq!(Tag::SONKEIGO, 1 << 5);
    assert_eq!(Tag::KENJOUGO, 1 << 6);
    assert_eq!(Tag::TEINEIGO, 1 << 7);
    assert_eq!(Tag::IDIOMATIC_EXPRESSION, 1 << 8);
    assert_eq!(Tag::OBSOLETE_TERM, 1 << 9);
    assert_eq!(Tag::RARE, 1 << 10);
    assert_eq!(Tag::YOJIJUKUGO, 1 << 11);
}

#[test]
fn is_particle_reads_the_particle_bit() {
    assert!(PartOfSpeech::from_bits_retain(PartOfSpeech::PARTICLE).is_particle());
    assert!(PartOfSpeech::from_bits_retain(PartOfSpeech::PARTICLE | PartOfSpeech::NOUN).is_particle());
    assert!(PartOfSpeech::from_bits_retain(u32::MAX).is_particle());
    assert!(!PartOfSpeech::empty().is_particle());
    assert!(!PartOfSpeech::from_bits_retain(PartOfSpeech::PREFIX | PartOfSpeech::SUFFIX).is_particle());
    assert!(!PartOfSpeech::from_bits_retain(!PartOfSpeech::PARTICLE).is_particle());
}

#[test]
fn contains_asks_for_every_bit() {
    let noun = PartOfSpeech::from_bits_retain(PartOfSpeech::NOUN);
    let verb = PartOfSpeech::from_bits_retain(PartOfSpeech::GODAN_VERB);
    let both = noun.union(verb);
    assert_eq!(both.bits(), PartOfSpeech::NOUN | PartOfSpeech::GODAN_VERB);
    assert!(both.contains(noun));
    assert!(both.contains(verb));
    assert!(both.contains(both));
    assert!(!noun.contains(both));
    assert!(!noun.contains(verb));
    assert!(noun.contains(PartOfSpeech::empty()));
    assert!(PartOfSpeech::empty().contains(PartOfSpeech::empty()));

    let rare = Tag::from_bits_retain(Tag::RARE);
    let idiom = Tag::from_bits_retain(Tag::IDIOMATIC_EXPRESSION);
    assert_eq!(rare.union(idiom).bits(), Tag::RARE | Tag::IDIOMATIC_EXPRESSION);
    assert!(rare.union(idiom).contains(idiom));
    assert!(!rare.contains(idiom));
    assert!(Tag::empty().contains(Tag::empty()));
}

#[test]
fn bits_are_kept_as_given() {
    assert_eq!(PartOfSpeech::from_bits_retain(0x8000_0001).bits(), 0x8000_0001);
    assert_eq!(Tag::from_bits_retain(0xF00F).bits(), 0xF00F);
    assert_eq!(PartOfSpeech::empty().bits(), 0);
    assert_eq!(Tag::empty().bits(), 0);
}

#[test]
fn new_dictionary_is_empty() {
    let dictionary = Dictionary::new();
    assert!(dictionary.entries().is_empty());
    assert!(dictionary.kanji_surfaces().is_empty());
    assert!(dictionary.kana_surfaces().is_empty());
    assert!(dictionary.lookup_kanji("猫").is_none());
    assert!(dictionary.lookup_kana("ねこ").is_none());
    assert!(!dictionary.contains_kanji("猫"));
    assert!(!dictionary.contains_kana("ねこ"));
}

#[test]
fn entries_are_numbered_from_zero() {
    let mut dictionary = Dictionary::new();
    assert_eq!(dictionary.add_entry(numbered(10)), Some(0));
    assert_eq!(dictionary.add_entry(numbered(20)), Some(1));
    assert_eq!(dictionary.add_entry(numbered(10)), Some(2));
    let ids: Vec<u32> = dictionary.entries().iter().map(|entry| entry.term_id).collect();
    assert_eq!(ids, vec![10, 20, 10]);
}

#[test]
fn terms_under_one_surface_keep_their_order() {
    let mut dictionary = Dictionary::new();
    for term_id in 0..3 {
        dictionary.add_entry(numbered(term_id));
    }
    assert!(dictionary.add_kanji("生", term_of(2, InflectionType::DictionaryForm)));
    assert!(dictionary.add_kanji("生", term_of(0, InflectionType::Past)));
    assert!(dictionary.add_kanji("生", term_of(2, InflectionType::DictionaryForm)));
    assert!(dictionary.add_kanji("死", term_of(1, InflectionType::Te)));
    assert_eq!(
        indices(dictionary.lookup_kanji("生").unwrap()),
        vec![
            (2, InflectionType::DictionaryForm),
            (0, InflectionType::Past),
            (2, InflectionType::DictionaryForm),
        ]
    );
    assert_eq!(indices(dictionary.lookup_kanji("死").unwrap()), vec![(1, InflectionType::Te)]);
    assert!(dictionary.contains_kanji("生"));
    assert!(!dictionary.contains_kana("生"));
    assert!(dictionary.lookup_kana("生").is_none());
}

#[test]
fn forms_in_kana_are_kept_apart_from_forms_with_ideographs() {
    let mut dictionary = Dictionary::new();
    dictionary.add_entry(numbered(0));
    dictionary.add_entry(numbered(1));
    assert!(dictionary.add_kanji("かな", term_of(0, InflectionType::DictionaryForm)));
    assert!(dictionary.add_kana("かな", term_of(1, InflectionType::Negative)));
    assert_eq!(
        indices(dictionary.lookup_kanji("かな").unwrap()),
        vec![(0, InflectionType::DictionaryForm)]
    );
    assert_eq!(indices(dictionary.lookup_kana("かな").unwrap()), vec![(1, InflectionType::Negative)]);
}

#[test]
fn term_without_entry_is_refused() {
    let mut dictionary = Dictionary::new();
    assert!(!dictionary.add_kanji("猫", term_of(0, InflectionType::DictionaryForm)));
    assert!(!dictionary.add_kana("ねこ", term_of(0, InflectionType::DictionaryForm)));
    dictionary.add_entry(numbered(5));
    assert!(!dictionary.add_kanji("猫", term_of(1, InflectionType::DictionaryForm)));
    assert!(!dictionary.add_kana("ねこ", term_of(u32::MAX, InflectionType::DictionaryForm)));
    assert!(dictionary.lookup_kanji("猫").is_none());
    assert!(dictionary.lookup_kana("ねこ").is_none());
    assert!(dictionary.kanji_surfaces().is_empty());
    assert!(dictionary.kana_surfaces().is_empty());
    assert!(dictionary.add_kanji("猫", term_of(0, InflectionType::DictionaryForm)));
    assert!(dictionary.add_kana("ねこ", term_of(0, InflectionType::DictionaryForm)));
}

#[test]
fn surfaces_are_listed_once_in_the_order_of_entry() {
    let mut dictionary = Dictionary::new();
    dictionary.add_entry(numbered(0));
    for surface in ["犬", "猫", "犬", "鳥", "猫", "犬"] {
        assert!(dictionary.add_kanji(surface, term_of(0, InflectionType::DictionaryForm)));
    }
    for surface in ["いぬ", "ねこ", "いぬ"] {
        assert!(dictionary.add_kana(surface, term_of(0, InflectionType::DictionaryForm)));
    }
    assert_eq!(dictionary.kanji_surfaces(), &vec!["犬".to_string(), "猫".to_string(), "鳥".to_string()]);
    assert_eq!(dictionary.kana_surfaces(), &vec!["いぬ".to_string(), "ねこ".to_string()]);
    assert_eq!(dictionary.lookup_kanji("犬").unwrap().len(), 3);
    assert_eq!(dictionary.lookup_kanji("猫").unwrap().len(), 2);
    assert_eq!(dictionary.lookup_kanji("鳥").unwrap().len(), 1);
    assert_eq!(dictionary.lookup_kana("いぬ").unwrap().len(), 2);
}
