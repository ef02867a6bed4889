//! The script category of a candidate word, decided by four patterns that are
//! tried in order.

use regex::RegexSet;
use vstd::prelude::*;

verus! {

/// The script category of a substring of the text.
#[derive(Debug, Clone, Copy, PartialEq, Eq)]
pub enum WordCategory {
    /// Every code point is Katakana.
    Katakana,
    /// Every code point is Katakana or Hiragana.
    Kana,
    /// Every code point is an ideograph or Hiragana.
    Word,
    /// Anything else.
    NonWord,
}

/// Matches a word of Katakana alone.
pub const KATAKANA_PATTERN: &'static str = "^\\p{Katakana}+$";

/// Matches a word of Katakana and Hiragana.
pub const KANA_PATTERN: &'static str = "^(\\p{Katakana}|\\p{Hiragana})+$";

/// Matches a word of ideographs and Hiragana.
pub const WORD_PATTERN: &'static str = "^(\\p{Han}|\\p{Hiragana})+$";

/// Matches a word without ideographs, kana, or the marks that lengthen or
/// repeat them.
pub const NON_WORD_PATTERN: &'static str =
    "^[^\u{3005}\u{4E00}-\u{9FAF}\u{30A1}-\u{30FA}\u{30FD}\u{30FE}\u{3041}-\u{3094}\u{309D}\u{309E}\u{30FC}]+$";

/// The four patterns, in the order in which they are tried.
pub open spec fn category_patterns() -> Seq<Seq<char>> {
    seq![KATAKANA_PATTERN@, KANA_PATTERN@, WORD_PATTERN@, NON_WORD_PATTERN@]
}

/// The category of the first pattern that matched; `NonWord` where none did.
pub open spec fn first_category(matched: Seq<bool>) -> WordCategory {
    if matched.len() > 0 && matched[0] {
        WordCategory::Katakana
    } else if matched.len() > 1 && matched[1] {
        WordCategory::Kana
    } else if matched.len() > 2 && matched[2] {
        WordCategory::Word
    } else {
        WordCategory::NonWord
    }
}

/// The category of the first pattern that matched; `NonWord` where none did.
pub fn category_of_matches(matched: &Vec<bool>) -> (category: WordCategory)
    ensures
        category == first_category(matched@),
{
    if matched.len() > 0 && matched[0] {
        WordCategory::Katakana
    } else if matched.len() > 1 && matched[1] {
        WordCategory::Kana
    } else if matched.len() > 2 && matched[2] {
        WordCategory::Word
    } else {
        WordCategory::NonWord
    }
}

/// The type `regex::RegexSet`: a set of compiled patterns, of which nothing
/// is known here but what the functions below say.
#[verifier::external_type_specification]
#[verifier::external_body]
pub struct ExRegexSet(regex::RegexSet);

/// The patterns that a `regex::RegexSet` was made from, in their order: what
/// `RegexSet::patterns` returns.
pub uninterp spec fn set_patterns(set: RegexSet) -> Seq<Seq<char>>;

/// Whether `regex::RegexSet::new` accepts the patterns.
pub uninterp spec fn patterns_compile(patterns: Seq<Seq<char>>) -> bool;

/// For each pattern of a set made from `patterns`, whether
/// `regex::RegexSet::matches` reports a match in `text`.
pub uninterp spec fn pattern_matches(patterns: Seq<Seq<char>>, text: Seq<char>) -> Seq<bool>;

/// Calls `regex::RegexSet::new`. It returns a set exactly where `regex`
/// accepts every pattern, and the set then holds these patterns in this
/// order.
#[verifier::external_body]
fn compile_patterns(patterns: &Vec<String>) -> (compiled: Option<RegexSet>)
    ensures
        compiled.is_some() == patterns_compile(patterns.deep_view()),
        compiled matches Some(set) ==> set_patterns(set) == patterns.deep_view(),
{
    RegexSet::new(patterns).ok()
}

/// Calls `regex::RegexSet::matches` and reads, with `SetMatches::matched`,
/// each pattern's outcome: one flag per pattern, in the patterns' order. The
/// library makes its sets with `RegexSet::new` alone, so what a set answers
/// depends on its patterns and on the text.
#[verifier::external_body]
fn matching_patterns(set: &RegexSet, text: &str) -> (matched: Vec<bool>)
    ensures
        matched@ == pattern_matches(set_patterns(*set), text@),
        matched@.len() == set_patterns(*set).len(),
{
    let found = set.matches(text);
    (0..found.len()).map(|index| found.matched(index)).collect()
}

/// The script category of `word`.
pub open spec fn word_category(word: Seq<char>) -> WordCategory {
    first_category(pattern_matches(category_patterns(), word))
}

/// The four patterns, compiled.
pub struct WordCategorizer {
    set: RegexSet,
}

impl WordCategorizer {
    #[verifier::type_invariant]
    spec fn holds_category_patterns(&self) -> bool {
        set_patterns(self.set) == category_patterns()
    }

    /// Compiles the four patterns; `None` where the patterns do not compile.
    pub fn new() -> (categorizer: Option<WordCategorizer>)
        ensures
            categorizer.is_some() == patterns_compile(category_patterns()),
    {
        let mut patterns: Vec<String> = Vec::new();
        patterns.push(KATAKANA_PATTERN.to_owned());
        patterns.push(KANA_PATTERN.to_owned());
        patterns.push(WORD_PATTERN.to_owned());
        patterns.push(NON_WORD_PATTERN.to_owned());
        assert(patterns.deep_view() =~= category_patterns());
        match compile_patterns(&patterns) {
            Some(set) => Some(WordCategorizer { set }),
            None => None,
        }
    }

    /// The script category of `word`.
    pub fn categorize_word(&self, word: &str) -> (category: WordCategory)
        ensures
            category == word_category(word@),
    {
        proof {
            use_type_invariant(self);
        }
        let matched = matching_patterns(&self.set, word);
        category_of_matches(&matched)
    }
}

} // verus!
