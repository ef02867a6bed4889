//! Building a dictionary from the words of a lexical database: each word is
//! entered under its writings and readings, and a verb under its inflected
//! forms too.

use crate::conjugation::{
    conjugate, conjugated_forms, form_views, text_view, Inflected, Reading, VerbType,
};
use crate::dictionary::{
    Dictionary, DictionaryEntry, DictionaryView, InflectionType, PartOfSpeech, Tag, TermEntry,
};
use vstd::prelude::*;
use vstd::string::StrSliceExecFns;

verus! {

/// The text can be turned into Hiragana: it holds neither of the half-width
/// sound marks U+FF9E and U+FF9F, which `wana_kana` cannot take where they
/// follow no half-width kana that carries them.
pub open spec fn convertible(text: Seq<char>) -> bool {
    forall|i: int|
        0 <= i < text.len() ==> (#[trigger] text[i]) as u32 != 0xFF9E && text[i] as u32 != 0xFF9F
}

/// Whether the text can be turned into Hiragana.
pub fn is_convertible(text: &str) -> (ok: bool)
    ensures
        ok == convertible(text@),
{
    let length = text.unicode_len();
    let mut i: usize = 0;
    while i < length
        invariant
            i <= length,
            length == text@.len(),
            forall|j: int|
                0 <= j < i ==> (#[trigger] text@[j]) as u32 != 0xFF9E && text@[j] as u32 != 0xFF9F,
        decreases length - i,
    {
        let code = text.get_char(i) as u32;
        if code == 0xFF9E || code == 0xFF9F {
            return false;
        }
        i += 1;
    }
    true
}

/// What `wana_kana::ConvertJapanese::to_hiragana` returns for the text.
pub uninterp spec fn hiragana_of(text: Seq<char>) -> Seq<char>;

/// Calls `wana_kana::ConvertJapanese::to_hiragana`: the text with its kana and
/// its Latin letters turned into Hiragana, which depends on the text alone.
/// A text with a half-width sound mark is kept out: on a mark that follows no
/// kana carrying it the call does not return.
#[verifier::external_body]
fn to_hiragana(text: &str) -> (hiragana: String)
    requires
        convertible(text@),
    ensures
        hiragana@ == hiragana_of(text@),
{
    wana_kana::ConvertJapanese::to_hiragana(text)
}

/// The term by which a surface names the entry at `entry_index`.
pub open spec fn dictionary_form(entry_index: u32) -> TermEntry {
    TermEntry { entry_index, inflection_type: InflectionType::DictionaryForm }
}

/// The entry that is made for a word.
pub open spec fn blank_entry() -> DictionaryEntry {
    DictionaryEntry { term_id: 0, pos: PartOfSpeech(0), tag: Tag(0) }
}

/// The dictionary with a form entered for the entry at `entry_index`: under
/// its writing with ideographs, if it has one and no term is entered under it
/// yet, and under its reading, if no term is entered under it yet.
pub open spec fn with_form(
    dictionary: DictionaryView,
    word: Reading,
    entry_index: u32,
) -> DictionaryView {
    let term = dictionary_form(entry_index);
    let written = match word.1 {
        Some(kanji) => if dictionary.kanji.contains_key(kanji) {
            dictionary
        } else {
            dictionary.with_kanji(kanji, term)
        },
        None => dictionary,
    };
    if written.kana.contains_key(word.0) {
        written
    } else {
        written.with_kana(word.0, term)
    }
}

/// The dictionary with the forms entered one after the other.
pub open spec fn with_forms(
    dictionary: DictionaryView,
    words: Seq<Reading>,
    entry_index: u32,
) -> DictionaryView
    decreases words.len(),
{
    if words.len() == 0 {
        dictionary
    } else {
        with_form(with_forms(dictionary, words.drop_last(), entry_index), words.last(), entry_index)
    }
}

/// A dictionary that is being built, and whether every verb met so far could
/// be inflected.
pub struct Build {
    pub dictionary: DictionaryView,
    pub complete: bool,
}

/// A build from its parts.
pub open spec fn build_of(dictionary: DictionaryView, complete: bool) -> Build {
    Build { dictionary, complete }
}

/// The build with the forms of a verb entered; where the verb cannot be
/// inflected, the dictionary is left as it is and the build is not complete.
pub open spec fn with_conjugations(
    build: Build,
    verb_type: VerbType,
    kana: Seq<char>,
    kanji: Option<Seq<char>>,
    entry_index: u32,
) -> Build {
    match conjugated_forms(verb_type is Ichidan, kana, kanji) {
        Some(forms) => Build {
            dictionary: with_forms(build.dictionary, forms, entry_index),
            complete: build.complete,
        },
        None => Build { dictionary: build.dictionary, complete: false },
    }
}

/// The build with the forms of a verb entered whose reading is turned into
/// Hiragana first; where the reading cannot be turned, or the verb cannot be
/// inflected, the dictionary is left as it is and the build is not complete.
pub open spec fn with_reading_conjugated(
    build: Build,
    verb_type: VerbType,
    reading: Seq<char>,
    kanji: Option<Seq<char>>,
    entry_index: u32,
) -> Build {
    if convertible(reading) {
        with_conjugations(build, verb_type, hiragana_of(reading), kanji, entry_index)
    } else {
        Build { dictionary: build.dictionary, complete: false }
    }
}

/// Enters each form for the entry at `entry_index`, unless a term is entered
/// under it already.
pub fn enter_forms(dictionary: &mut Dictionary, words: &Vec<Inflected>, entry_index: u32)
    ensures
        old(dictionary)@.well_formed() ==> final(dictionary)@.well_formed(),
        final(dictionary)@ == with_forms(old(dictionary)@, form_views(words@), entry_index),
{
    let ghost forms = form_views(words@);
    let mut k: usize = 0;
    assert(forms.take(0) =~= Seq::<Reading>::empty());
    while k < words.len()
        invariant
            k <= words@.len(),
            forms == form_views(words@),
            old(dictionary)@.well_formed() ==> dictionary@.well_formed(),
            dictionary@ == with_forms(old(dictionary)@, forms.take(k as int), entry_index),
        decreases words@.len() - k,
    {
        let word = &words[k];
        assert(forms[k as int] == words@[k as int]@);
        let term = TermEntry { entry_index, inflection_type: InflectionType::DictionaryForm };
        if let Some(kanji) = &word.kanji {
            if !dictionary.contains_kanji(kanji.as_str()) {
                dictionary.add_kanji(kanji.as_str(), term);
            }
        }
        if !dictionary.contains_kana(word.kana.as_str()) {
            dictionary.add_kana(word.kana.as_str(), term);
        }
        assert(forms.take(k + 1).drop_last() =~= forms.take(k as int));
        k += 1;
    }
    assert(forms.take(forms.len() as int) =~= forms);
}

/// Enters the inflected forms of a verb for the entry at `entry_index`.
/// Returns whether the verb could be inflected; where it could not, the
/// dictionary is left as it is.
pub fn add_conjugations(
    dictionary: &mut Dictionary,
    verb_type: VerbType,
    kana: &str,
    kanji: Option<&str>,
    entry_index: u32,
) -> (added: bool)
    ensures
        old(dictionary)@.well_formed() ==> final(dictionary)@.well_formed(),
        added == conjugated_forms(verb_type is Ichidan, kana@, text_view(kanji)) is Some,
        final(dictionary)@ == with_conjugations(
            build_of(old(dictionary)@, true),
            verb_type,
            kana@,
            text_view(kanji),
            entry_index,
        ).dictionary,
{
    match conjugate(verb_type, kana, kanji) {
        Some(words) => {
            enter_forms(dictionary, &words, entry_index);
            true
        },
        None => false,
    }
}

/// Enters the inflected forms of a verb for the entry at `entry_index`, with
/// the reading turned into Hiragana first. Returns whether the forms were
/// entered; where the reading cannot be turned or the verb cannot be
/// inflected, the dictionary is left as it is.
pub fn add_reading_conjugations(
    dictionary: &mut Dictionary,
    verb_type: VerbType,
    reading: &str,
    kanji: Option<&str>,
    entry_index: u32,
) -> (added: bool)
    ensures
        old(dictionary)@.well_formed() ==> final(dictionary)@.well_formed(),
        added == (convertible(reading@) && conjugated_forms(
            verb_type is Ichidan,
            hiragana_of(reading@),
            text_view(kanji),
        ) is Some),
        final(dictionary)@ == with_reading_conjugated(
            build_of(old(dictionary)@, true),
            verb_type,
            reading@,
            text_view(kanji),
            entry_index,
        ).dictionary,
        added == with_reading_conjugated(
            build_of(old(dictionary)@, true),
            verb_type,
            reading@,
            text_view(kanji),
            entry_index,
        ).complete,
{
    if !is_convertible(reading) {
        return false;
    }
    let kana = to_hiragana(reading);
    add_conjugations(dictionary, verb_type, kana.as_str(), kanji, entry_index)
}

/// The text begins with the two characters.
pub open spec fn has_prefix(text: Seq<char>, first: char, second: char) -> bool {
    text.len() >= 2 && text[0] == first && text[1] == second
}

/// One of the texts begins with the two characters.
pub open spec fn any_has_prefix(texts: Seq<Seq<char>>, first: char, second: char) -> bool {
    exists|i: int| 0 <= i < texts.len() && has_prefix(#[trigger] texts[i], first, second)
}

/// The class of verb that the part-of-speech codes of a word name: a code
/// that begins with `v5` names a Godan verb, one that begins with `v1` an
/// Ichidan verb, and Godan goes first.
pub open spec fn verb_type_of(parts_of_speech: Seq<Seq<char>>) -> Option<VerbType> {
    if any_has_prefix(parts_of_speech, 'v', '5') {
        Some(VerbType::Godan)
    } else if any_has_prefix(parts_of_speech, 'v', '1') {
        Some(VerbType::Ichidan)
    } else {
        None
    }
}

fn any_starts_with(texts: &Vec<String>, first: char, second: char) -> (found: bool)
    ensures
        found == any_has_prefix(texts.deep_view(), first, second),
{
    let mut i: usize = 0;
    while i < texts.len()
        invariant
            i <= texts@.len(),
            forall|j: int|
                0 <= j < i ==> !has_prefix(#[trigger] texts.deep_view()[j], first, second),
        decreases texts@.len() - i,
    {
        let text = texts[i].as_str();
        assert(text@ == texts.deep_view()[i as int]);
        if text.unicode_len() >= 2 && text.get_char(0) == first && text.get_char(1) == second {
            return true;
        }
        i += 1;
    }
    false
}

/// The class of verb that the part-of-speech codes of a word name.
pub fn verb_type(parts_of_speech: &Vec<String>) -> (found: Option<VerbType>)
    ensures
        found == verb_type_of(parts_of_speech.deep_view()),
{
    if any_starts_with(parts_of_speech, 'v', '5') {
        Some(VerbType::Godan)
    } else if any_starts_with(parts_of_speech, 'v', '1') {
        Some(VerbType::Ichidan)
    } else {
        None
    }
}

/// The build with the verb inflected once for each of the first `count`
/// readings, together with one writing.
pub open spec fn conjugated_readings(
    build: Build,
    verb_type: VerbType,
    kana_words: Seq<Seq<char>>,
    kanji: Seq<char>,
    entry_index: u32,
    count: int,
) -> Build
    decreases count,
{
    if count <= 0 {
        build
    } else {
        with_reading_conjugated(
            conjugated_readings(build, verb_type, kana_words, kanji, entry_index, count - 1),
            verb_type,
            kana_words[count - 1],
            Some(kanji),
            entry_index,
        )
    }
}

/// The build with the verb inflected once for each of the first `count`
/// writings, together with one reading.
pub open spec fn conjugated_writings(
    build: Build,
    verb_type: VerbType,
    reading: Seq<char>,
    kanji_words: Seq<Seq<char>>,
    entry_index: u32,
    count: int,
) -> Build
    decreases count,
{
    if count <= 0 {
        build
    } else {
        with_reading_conjugated(
            conjugated_writings(build, verb_type, reading, kanji_words, entry_index, count - 1),
            verb_type,
            reading,
            Some(kanji_words[count - 1]),
            entry_index,
        )
    }
}

/// The build with the first `count` writings of a word entered, each followed
/// by the forms that a verb has with it.
pub open spec fn with_kanji_words(
    build: Build,
    verb_type: Option<VerbType>,
    kanji_words: Seq<Seq<char>>,
    kana_words: Seq<Seq<char>>,
    entry_index: u32,
    count: int,
) -> Build
    decreases count,
{
    if count <= 0 {
        build
    } else {
        let before = with_kanji_words(
            build,
            verb_type,
            kanji_words,
            kana_words,
            entry_index,
            count - 1,
        );
        let entered = Build {
            dictionary: before.dictionary.with_kanji(
                kanji_words[count - 1],
                dictionary_form(entry_index),
            ),
            complete: before.complete,
        };
        match verb_type {
            Some(verb_type) => conjugated_readings(
                entered,
                verb_type,
                kana_words,
                kanji_words[count - 1],
                entry_index,
                kana_words.len() as int,
            ),
            None => entered,
        }
    }
}

/// The build with the first `count` readings of a word entered, each followed
/// by the forms that a verb has with it: one set of forms for each writing,
/// or one without a writing where the word has none.
pub open spec fn with_kana_words(
    build: Build,
    verb_type: Option<VerbType>,
    kanji_words: Seq<Seq<char>>,
    kana_words: Seq<Seq<char>>,
    entry_index: u32,
    count: int,
) -> Build
    decreases count,
{
    if count <= 0 {
        build
    } else {
        let before = with_kana_words(
            build,
            verb_type,
            kanji_words,
            kana_words,
            entry_index,
            count - 1,
        );
        let entered = Build {
            dictionary: before.dictionary.with_kana(
                kana_words[count - 1],
                dictionary_form(entry_index),
            ),
            complete: before.complete,
        };
        let reading = kana_words[count - 1];
        match verb_type {
            Some(verb_type) => if kanji_words.len() > 0 {
                conjugated_writings(
                    entered,
                    verb_type,
                    reading,
                    kanji_words,
                    entry_index,
                    kanji_words.len() as int,
                )
            } else {
                with_reading_conjugated(entered, verb_type, reading, None, entry_index)
            },
            None => entered,
        }
    }
}

/// The build with a word entered: a new entry, the word's writings and
/// readings as surfaces of that entry, and for a verb its inflected forms.
/// A dictionary that has no room for the entry is left as it is.
pub open spec fn with_word(
    dictionary: DictionaryView,
    kanji_words: Seq<Seq<char>>,
    kana_words: Seq<Seq<char>>,
    parts_of_speech: Seq<Seq<char>>,
) -> Build {
    if dictionary.entries.len() > u32::MAX {
        Build { dictionary, complete: false }
    } else {
        let entry_index = dictionary.entries.len() as u32;
        let verb_type = verb_type_of(parts_of_speech);
        let begun = Build { dictionary: dictionary.with_entry(blank_entry()), complete: true };
        let written = with_kanji_words(
            begun,
            verb_type,
            kanji_words,
            kana_words,
            entry_index,
            kanji_words.len() as int,
        );
        with_kana_words(
            written,
            verb_type,
            kanji_words,
            kana_words,
            entry_index,
            kana_words.len() as int,
        )
    }
}

/// What entering a word gave: the index of its entry, and whether every
/// inflection of it could be made.
#[derive(Debug, Clone, Copy)]
pub struct WordEntered {
    pub entry_index: u32,
    pub conjugated: bool,
}

/// Enters a word of the lexical database: a new entry, the word's writings
/// and readings as surfaces of that entry, and, where the part-of-speech
/// codes name a verb, its inflected forms, made from each reading turned into
/// Hiragana. A reading that cannot be turned, or that gives no forms, is left
/// without forms and reported by `conjugated`. Returns `None`, with the
/// dictionary unchanged, where the dictionary has no room for another entry.
pub fn add_word(
    dictionary: &mut Dictionary,
    kanji_words: &Vec<String>,
    kana_words: &Vec<String>,
    parts_of_speech: &Vec<String>,
) -> (entered: Option<WordEntered>)
    ensures
        old(dictionary)@.well_formed() ==> final(dictionary)@.well_formed(),
        final(dictionary)@ == with_word(
            old(dictionary)@,
            kanji_words.deep_view(),
            kana_words.deep_view(),
            parts_of_speech.deep_view(),
        ).dictionary,
        match entered {
            Some(entered) => entered.entry_index == old(dictionary)@.entries.len()
                && entered.conjugated == with_word(
                old(dictionary)@,
                kanji_words.deep_view(),
                kana_words.deep_view(),
                parts_of_speech.deep_view(),
            ).complete,
            None => old(dictionary)@.entries.len() > u32::MAX,
        },
{
    let ghost kanji_views = kanji_words.deep_view();
    let ghost kana_views = kana_words.deep_view();
    let verb = verb_type(parts_of_speech);
    let entry = DictionaryEntry { term_id: 0, pos: PartOfSpeech::empty(), tag: Tag::empty() };
    let entry_index = match dictionary.add_entry(entry) {
        Some(index) => index,
        None => {
            return None;
        },
    };
    let term = TermEntry { entry_index, inflection_type: InflectionType::DictionaryForm };
    let ghost begun = build_of(dictionary@, true);
    let mut complete = true;
    let mut i: usize = 0;
    while i < kanji_words.len()
        invariant
            i <= kanji_words@.len(),
            kanji_views == kanji_words.deep_view(),
            kana_views == kana_words.deep_view(),
            term == dictionary_form(entry_index),
            old(dictionary)@.well_formed() ==> dictionary@.well_formed(),
            build_of(dictionary@, complete) == with_kanji_words(
                begun,
                verb,
                kanji_views,
                kana_views,
                entry_index,
                i as int,
            ),
        decreases kanji_words@.len() - i,
    {
        let kanji = kanji_words[i].as_str();
        assert(kanji@ == kanji_views[i as int]);
        dictionary.add_kanji(kanji, term);
        if let Some(verb_type) = verb {
            let ghost entered = build_of(dictionary@, complete);
            let mut j: usize = 0;
            while j < kana_words.len()
                invariant
                    j <= kana_words@.len(),
                    kana_views == kana_words.deep_view(),
                    old(dictionary)@.well_formed() ==> dictionary@.well_formed(),
                    build_of(dictionary@, complete) == conjugated_readings(
                        entered,
                        verb_type,
                        kana_views,
                        kanji@,
                        entry_index,
                        j as int,
                    ),
                decreases kana_words@.len() - j,
            {
                let reading = kana_words[j].as_str();
                assert(reading@ == kana_views[j as int]);
                if !add_reading_conjugations(
                    dictionary,
                    verb_type,
                    reading,
                    Some(kanji),
                    entry_index,
                ) {
                    complete = false;
                }
                j += 1;
            }
        }
        i += 1;
    }
    let ghost written = build_of(dictionary@, complete);
    let mut j: usize = 0;
    while j < kana_words.len()
        invariant
            j <= kana_words@.len(),
            kanji_views == kanji_words.deep_view(),
            kana_views == kana_words.deep_view(),
            term == dictionary_form(entry_index),
            old(dictionary)@.well_formed() ==> dictionary@.well_formed(),
            build_of(dictionary@, complete) == with_kana_words(
                written,
                verb,
                kanji_views,
                kana_views,
                entry_index,
                j as int,
            ),
        decreases kana_words@.len() - j,
    {
        let reading = kana_words[j].as_str();
        assert(reading@ == kana_views[j as int]);
        dictionary.add_kana(reading, term);
        if let Some(verb_type) = verb {
            if kanji_words.len() > 0 {
                let ghost entered = build_of(dictionary@, complete);
                let mut i: usize = 0;
                while i < kanji_words.len()
                    invariant
                        i <= kanji_words@.len(),
                        kanji_views == kanji_words.deep_view(),
                        old(dictionary)@.well_formed() ==> dictionary@.well_formed(),
                        build_of(dictionary@, complete) == conjugated_writings(
                            entered,
                            verb_type,
                            reading@,
                            kanji_views,
                            entry_index,
                            i as int,
                        ),
                    decreases kanji_words@.len() - i,
                {
                    let kanji = kanji_words[i].as_str();
                    assert(kanji@ == kanji_views[i as int]);
                    if !add_reading_conjugations(
                        dictionary,
                        verb_type,
                        reading,
                        Some(kanji),
                        entry_index,
                    ) {
                        complete = false;
                    }
                    i += 1;
                }
            } else {
                if !add_reading_conjugations(dictionary, verb_type, reading, None, entry_index) {
                    complete = false;
                }
            }
        }
        j += 1;
    }
    Some(WordEntered { entry_index, conjugated: complete })
}

} // verus!
