use segmenter::word::{
    category_of_matches, WordCategorizer, WordCategory, KANA_PATTERN, KATAKANA_PATTERN,
    NON_WORD_PATTERN, WORD_PATTERN,
};

#[test]
fn patterns_are_the_four_expressions() {
    assert_eq!(KATAKANA_PATTERN, r"^\p{Katakana}+$");
    assert_eq!(KANA_PATTERN, r"^(\p{Katakana}|\p{Hiragana})+$");
    assert_eq!(WORD_PATTERN, r"^(\p{Han}|\p{Hiragana})+$");
    assert_eq!(NON_WORD_PATTERN, r"^[^々一-龯ァ-ヺヽヾぁ-ゔゝゞー]+$");
}

#[test]
fn first_match_decides() {
    assert_eq!(category_of_matches(&vec![true, true, true, true]), WordCategory::Katakana);
    assert_eq!(category_of_matches(&vec![true, false, false, false]), WordCategory::Katakana);
    assert_eq!(category_of_matches(&vec![false, true, true, true]), WordCategory::Kana);
    assert_eq!(category_of_matches(&vec![false, true, false, false]), WordCategory::Kana);
    assert_eq!(category_of_matches(&vec![false, false, true, true]), WordCategory::Word);
    assert_eq!(category_of_matches(&vec![false, false, true, false]), WordCategory::Word);
    assert_eq!(category_of_matches(&vec![false, false, false, true]), WordCategory::NonWord);
}

#[test]
fn no_match_is_a_non_word() {
    assert_eq!(category_of_matches(&vec![false, false, false, false]), WordCategory::NonWord);
    assert_eq!(category_of_matches(&vec![]), WordCategory::NonWord);
    assert_eq!(category_of_matches(&vec![false]), WordCategory::NonWord);
    assert_eq!(category_of_matches(&vec![false, false]), WordCategory::NonWord);
}

#[test]
fn short_lists_of_matches_are_read_as_far_as_they_go() {
    assert_eq!(category_of_matches(&vec![true]), WordCategory::Katakana);
    assert_eq!(category_of_matches(&vec![false, true]), WordCategory::Kana);
    assert_eq!(category_of_matches(&vec![false, false, true]), WordCategory::Word);
}

#[test]
fn words_in_katakana() {
    let categorizer = WordCategorizer::new().unwrap();
    assert_eq!(categorizer.categorize_word("カタカナ"), WordCategory::Katakana);
    assert_eq!(categorizer.categorize_word("ア"), WordCategory::Katakana);
    assert_eq!(categorizer.categorize_word("ｶﾀｶﾅ"), WordCategory::Katakana);
}

#[test]
fn words_in_kana() {
    let categorizer = WordCategorizer::new().unwrap();
    assert_eq!(categorizer.categorize_word("ひらがな"), WordCategory::Kana);
    assert_eq!(categorizer.categorize_word("は"), WordCategory::Kana);
    assert_eq!(categorizer.categorize_word("カタかな"), WordCategory::Kana);
}

#[test]
fn words_with_ideographs() {
    let categorizer = WordCategorizer::new().unwrap();
    assert_eq!(categorizer.categorize_word("漢字"), WordCategory::Word);
    assert_eq!(categorizer.categorize_word("猫"), WordCategory::Word);
    assert_eq!(categorizer.categorize_word("走った"), WordCategory::Word);
    assert_eq!(categorizer.categorize_word("々"), WordCategory::Word);
}

#[test]
fn everything_else_is_a_non_word() {
    let categorizer = WordCategorizer::new().unwrap();
    assert_eq!(categorizer.categorize_word("ABC"), WordCategory::NonWord);
    assert_eq!(categorizer.categorize_word("123 !?"), WordCategory::NonWord);
    assert_eq!(categorizer.categorize_word("a\nb"), WordCategory::NonWord);
    // No pattern matches the empty word.
    assert_eq!(categorizer.categorize_word(""), WordCategory::NonWord);
    // No pattern matches a word that mixes ideographs with Katakana or with
    // Latin letters.
    assert_eq!(categorizer.categorize_word("漢カ"), WordCategory::NonWord);
    assert_eq!(categorizer.categorize_word("漢a"), WordCategory::NonWord);
    assert_eq!(categorizer.categorize_word("カa"), WordCategory::NonWord);
    // The prolonged sound mark is not Katakana by script.
    assert_eq!(categorizer.categorize_word("ラーメン"), WordCategory::NonWord);
}
