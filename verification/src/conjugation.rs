//! The inflected forms of a verb, as the crate `jp_inflections` gives them.

use jp_inflections::Word;
use vstd::prelude::*;

verus! {

/// The class of a verb, by which its forms are made.
#[derive(Debug, Clone, Copy, PartialEq, Eq)]
pub enum VerbType {
    Godan,
    Ichidan,
}

/// The register of a form: plain or polite.
#[derive(Debug, Clone, Copy, PartialEq, Eq)]
pub enum WordForm {
    Short,
    Long,
}

/// A form of a word: its reading in kana, and its writing with ideographs
/// where it has one.
#[derive(Debug, Clone)]
pub struct Inflected {
    pub kana: String,
    pub kanji: Option<String>,
}

/// The characters of a form: those of its reading, and those of its writing
/// with ideographs.
pub type Reading = (Seq<char>, Option<Seq<char>>);

impl View for Inflected {
    type V = Reading;

    open spec fn view(&self) -> Reading {
        (
            self.kana@,
            match self.kanji {
                Some(kanji) => Some(kanji@),
                None => None,
            },
        )
    }
}

/// The characters of an optional form.
pub open spec fn form_view(word: Option<Inflected>) -> Option<Reading> {
    match word {
        Some(word) => Some(word@),
        None => None,
    }
}

/// The characters of an optional text.
pub open spec fn text_view(text: Option<&str>) -> Option<Seq<char>> {
    match text {
        Some(text) => Some(text@),
        None => None,
    }
}

/// The negative form that `jp_inflections::Verb::negative` gives for the verb
/// of this class and these readings, in the plain register or with `long` in
/// the polite one; `None` where it gives an error for the word or for the form.
pub uninterp spec fn verb_negative(
    ichidan: bool,
    kana: Seq<char>,
    kanji: Option<Seq<char>>,
    long: bool,
) -> Option<Reading>;

/// Makes the verb with `jp_inflections::Word::new` and `Word::into_verb` and
/// calls `jp_inflections::Verb::negative` on it. What comes back depends on the
/// class, the register and the readings alone; an error becomes `None`.
#[verifier::external_body]
fn negative(
    verb_type: VerbType,
    kana: &str,
    kanji: Option<&str>,
    form: WordForm,
) -> (word: Option<Inflected>)
    ensures
        form_view(word) == verb_negative(
            verb_type is Ichidan,
            kana@,
            text_view(kanji),
            form is Long,
        ),
{
    let class = match verb_type {
        VerbType::Godan => jp_inflections::VerbType::Godan,
        VerbType::Ichidan => jp_inflections::VerbType::Ichidan,
    };
    let form = match form {
        WordForm::Short => jp_inflections::WordForm::Short,
        WordForm::Long => jp_inflections::WordForm::Long,
    };
    let verb = Word::new(kana, kanji).into_verb(class).ok()?;
    let word = verb.negative(form).ok()?;
    Some(Inflected { kana: word.kana, kanji: word.kanji })
}

/// The te form that `jp_inflections::Verb::te_form` gives for the verb of this
/// class and these readings; `None` where it gives an error for the word or for
/// the form.
pub uninterp spec fn verb_te_form(
    ichidan: bool,
    kana: Seq<char>,
    kanji: Option<Seq<char>>,
) -> Option<Reading>;

/// Makes the verb with `jp_inflections::Word::new` and `Word::into_verb` and
/// calls `jp_inflections::Verb::te_form` on it. What comes back depends on the
/// class and the readings alone; an error becomes `None`.
#[verifier::external_body]
fn te_form(
    verb_type: VerbType,
    kana: &str,
    kanji: Option<&str>,
) -> (word: Option<Inflected>)
    ensures
        form_view(word) == verb_te_form(verb_type is Ichidan, kana@, text_view(kanji)),
{
    let class = match verb_type {
        VerbType::Godan => jp_inflections::VerbType::Godan,
        VerbType::Ichidan => jp_inflections::VerbType::Ichidan,
    };
    let verb = Word::new(kana, kanji).into_verb(class).ok()?;
    let word = verb.te_form().ok()?;
    Some(Inflected { kana: word.kana, kanji: word.kanji })
}

/// The negative te form that `jp_inflections::Verb::negative_te_form` gives for
/// the verb of this class and these readings; `None` where it gives an error
/// for the word or for the form.
pub uninterp spec fn verb_negative_te_form(
    ichidan: bool,
    kana: Seq<char>,
    kanji: Option<Seq<char>>,
) -> Option<Reading>;

/// Makes the verb with `jp_inflections::Word::new` and `Word::into_verb` and
/// calls `jp_inflections::Verb::negative_te_form` on it. What comes back
/// depends on the class and the readings alone; an error becomes `None`.
#[verifier::external_body]
fn negative_te_form(
    verb_type: VerbType,
    kana: &str,
    kanji: Option<&str>,
) -> (word: Option<Inflected>)
    ensures
        form_view(word) == verb_negative_te_form(verb_type is Ichidan, kana@, text_view(kanji)),
{
    let class = match verb_type {
        VerbType::Godan => jp_inflections::VerbType::Godan,
        VerbType::Ichidan => jp_inflections::VerbType::Ichidan,
    };
    let verb = Word::new(kana, kanji).into_verb(class).ok()?;
    let word = verb.negative_te_form().ok()?;
    Some(Inflected { kana: word.kana, kanji: word.kanji })
}

/// The past form that `jp_inflections::Verb::past` gives for the verb of this
/// class and these readings, in the plain register or with `long` in the polite
/// one; `None` where it gives an error for the word or for the form.
pub uninterp spec fn verb_past(
    ichidan: bool,
    kana: Seq<char>,
    kanji: Option<Seq<char>>,
    long: bool,
) -> Option<Reading>;

/// Makes the verb with `jp_inflections::Word::new` and `Word::into_verb` and
/// calls `jp_inflections::Verb::past` on it. What comes back depends on the
/// class, the register and the readings alone; an error becomes `None`.
#[verifier::external_body]
fn past(
    verb_type: VerbType,
    kana: &str,
    kanji: Option<&str>,
    form: WordForm,
) -> (word: Option<Inflected>)
    ensures
        form_view(word) == verb_past(
            verb_type is Ichidan,
            kana@,
            text_view(kanji),
            form is Long,
        ),
{
    let class = match verb_type {
        VerbType::Godan => jp_inflections::VerbType::Godan,
        VerbType::Ichidan => jp_inflections::VerbType::Ichidan,
    };
    let form = match form {
        WordForm::Short => jp_inflections::WordForm::Short,
        WordForm::Long => jp_inflections::WordForm::Long,
    };
    let verb = Word::new(kana, kanji).into_verb(class).ok()?;
    let word = verb.past(form).ok()?;
    Some(Inflected { kana: word.kana, kanji: word.kanji })
}

/// The negative past form that `jp_inflections::Verb::negative_past` gives for
/// the verb of this class and these readings, in the plain register or with
/// `long` in the polite one; `None` where it gives an error for the word or for
/// the form.
pub uninterp spec fn verb_negative_past(
    ichidan: bool,
    kana: Seq<char>,
    kanji: Option<Seq<char>>,
    long: bool,
) -> Option<Reading>;

/// Makes the verb with `jp_inflections::Word::new` and `Word::into_verb` and
/// calls `jp_inflections::Verb::negative_past` on it. What comes back depends
/// on the class, the register and the readings alone; an error becomes `None`.
#[verifier::external_body]
fn negative_past(
    verb_type: VerbType,
    kana: &str,
    kanji: Option<&str>,
    form: WordForm,
) -> (word: Option<Inflected>)
    ensures
        form_view(word) == verb_negative_past(
            verb_type is Ichidan,
            kana@,
            text_view(kanji),
            form is Long,
        ),
{
    let class = match verb_type {
        VerbType::Godan => jp_inflections::VerbType::Godan,
        VerbType::Ichidan => jp_inflections::VerbType::Ichidan,
    };
    let form = match form {
        WordForm::Short => jp_inflections::WordForm::Short,
        WordForm::Long => jp_inflections::WordForm::Long,
    };
    let verb = Word::new(kana, kanji).into_verb(class).ok()?;
    let word = verb.negative_past(form).ok()?;
    Some(Inflected { kana: word.kana, kanji: word.kanji })
}

/// The potential form that `jp_inflections::Verb::potential` gives for the verb
/// of this class and these readings, in the plain register or with `long` in
/// the polite one; `None` where it gives an error for the word or for the form.
pub uninterp spec fn verb_potential(
    ichidan: bool,
    kana: Seq<char>,
    kanji: Option<Seq<char>>,
    long: bool,
) -> Option<Reading>;

/// Makes the verb with `jp_inflections::Word::new` and `Word::into_verb` and
/// calls `jp_inflections::Verb::potential` on it. What comes back depends on
/// the class, the register and the readings alone; an error becomes `None`.
#[verifier::external_body]
fn potential(
    verb_type: VerbType,
    kana: &str,
    kanji: Option<&str>,
    form: WordForm,
) -> (word: Option<Inflected>)
    ensures
        form_view(word) == verb_potential(
            verb_type is Ichidan,
            kana@,
            text_view(kanji),
            form is Long,
        ),
{
    let class = match verb_type {
        VerbType::Godan => jp_inflections::VerbType::Godan,
        VerbType::Ichidan => jp_inflections::VerbType::Ichidan,
    };
    let form = match form {
        WordForm::Short => jp_inflections::WordForm::Short,
        WordForm::Long => jp_inflections::WordForm::Long,
    };
    let verb = Word::new(kana, kanji).into_verb(class).ok()?;
    let word = verb.potential(form).ok()?;
    Some(Inflected { kana: word.kana, kanji: word.kanji })
}

/// The negative potential form that `jp_inflections::Verb::negative_potential`
/// gives for the verb of this class and these readings, in the plain register
/// or with `long` in the polite one; `None` where it gives an error for the
/// word or for the form.
pub uninterp spec fn verb_negative_potential(
    ichidan: bool,
    kana: Seq<char>,
    kanji: Option<Seq<char>>,
    long: bool,
) -> Option<Reading>;

/// Makes the verb with `jp_inflections::Word::new` and `Word::into_verb` and
/// calls `jp_inflections::Verb::negative_potential` on it. What comes back
/// depends on the class, the register and the readings alone; an error becomes
/// `None`.
#[verifier::external_body]
fn negative_potential(
    verb_type: VerbType,
    kana: &str,
    kanji: Option<&str>,
    form: WordForm,
) -> (word: Option<Inflected>)
    ensures
        form_view(word) == verb_negative_potential(
            verb_type is Ichidan,
            kana@,
            text_view(kanji),
            form is Long,
        ),
{
    let class = match verb_type {
        VerbType::Godan => jp_inflections::VerbType::Godan,
        VerbType::Ichidan => jp_inflections::VerbType::Ichidan,
    };
    let form = match form {
        WordForm::Short => jp_inflections::WordForm::Short,
        WordForm::Long => jp_inflections::WordForm::Long,
    };
    let verb = Word::new(kana, kanji).into_verb(class).ok()?;
    let word = verb.negative_potential(form).ok()?;
    Some(Inflected { kana: word.kana, kanji: word.kanji })
}

/// The imperative form that `jp_inflections::Verb::imperative` gives for the
/// verb of this class and these readings; `None` where it gives an error for
/// the word or for the form.
pub uninterp spec fn verb_imperative(
    ichidan: bool,
    kana: Seq<char>,
    kanji: Option<Seq<char>>,
) -> Option<Reading>;

/// Makes the verb with `jp_inflections::Word::new` and `Word::into_verb` and
/// calls `jp_inflections::Verb::imperative` on it. What comes back depends on
/// the class and the readings alone; an error becomes `None`.
#[verifier::external_body]
fn imperative(
    verb_type: VerbType,
    kana: &str,
    kanji: Option<&str>,
) -> (word: Option<Inflected>)
    ensures
        form_view(word) == verb_imperative(verb_type is Ichidan, kana@, text_view(kanji)),
{
    let class = match verb_type {
        VerbType::Godan => jp_inflections::VerbType::Godan,
        VerbType::Ichidan => jp_inflections::VerbType::Ichidan,
    };
    let verb = Word::new(kana, kanji).into_verb(class).ok()?;
    let word = verb.imperative().ok()?;
    Some(Inflected { kana: word.kana, kanji: word.kanji })
}

/// The kana that end in the vowel u: the last kana of the reading of a verb in
/// its dictionary form.
pub open spec fn ends_in_u(kana: char) -> bool {
    let code = kana as u32;
    ||| code == 0x3046
    ||| code == 0x304F
    ||| code == 0x3050
    ||| code == 0x3059
    ||| code == 0x305A
    ||| code == 0x3064
    ||| code == 0x3065
    ||| code == 0x306C
    ||| code == 0x3075
    ||| code == 0x3076
    ||| code == 0x3077
    ||| code == 0x3080
    ||| code == 0x3086
    ||| code == 0x308B
}

/// The reading is one that `jp_inflections::Word::into_verb` takes for a
/// verb: it is not empty and its last kana ends in the vowel u.
pub open spec fn is_verb_reading(kana: Seq<char>) -> bool {
    kana.len() > 0 && ends_in_u(kana.last())
}

/// The negative imperative form that
/// `jp_inflections::Verb::imperative_negative` gives for the verb of these
/// readings, whatever its class: the kana U+306A behind the reading and
/// behind the writing; `None` where the reading is none of a verb.
pub open spec fn verb_imperative_negative(
    ichidan: bool,
    kana: Seq<char>,
    kanji: Option<Seq<char>>,
) -> Option<Reading> {
    if is_verb_reading(kana) {
        Some(
            (
                kana.push('\u{306A}'),
                match kanji {
                    Some(kanji) => Some(kanji.push('\u{306A}')),
                    None => None,
                },
            ),
        )
    } else {
        None
    }
}

/// Makes the verb with `jp_inflections::Word::new` and `Word::into_verb` and
/// calls `jp_inflections::Verb::imperative_negative` on it. `into_verb` takes
/// a reading whose last kana ends in the vowel u, and the call then puts one
/// kana behind both the reading and the writing; an error becomes `None`.
#[verifier::external_body]
fn imperative_negative(
    verb_type: VerbType,
    kana: &str,
    kanji: Option<&str>,
) -> (word: Option<Inflected>)
    ensures
        form_view(word) == verb_imperative_negative(verb_type is Ichidan, kana@, text_view(kanji)),
{
    let class = match verb_type {
        VerbType::Godan => jp_inflections::VerbType::Godan,
        VerbType::Ichidan => jp_inflections::VerbType::Ichidan,
    };
    let verb = Word::new(kana, kanji).into_verb(class).ok()?;
    let word = verb.imperative_negative().ok()?;
    Some(Inflected { kana: word.kana, kanji: word.kanji })
}

/// The causative form that `jp_inflections::Verb::causative` gives for the verb
/// of this class and these readings; `None` where it gives an error for the
/// word or for the form.
pub uninterp spec fn verb_causative(
    ichidan: bool,
    kana: Seq<char>,
    kanji: Option<Seq<char>>,
) -> Option<Reading>;

/// Makes the verb with `jp_inflections::Word::new` and `Word::into_verb` and
/// calls `jp_inflections::Verb::causative` on it. What comes back depends on
/// the class and the readings alone; an error becomes `None`.
#[verifier::external_body]
fn causative(
    verb_type: VerbType,
    kana: &str,
    kanji: Option<&str>,
) -> (word: Option<Inflected>)
    ensures
        form_view(word) == verb_causative(verb_type is Ichidan, kana@, text_view(kanji)),
{
    let class = match verb_type {
        VerbType::Godan => jp_inflections::VerbType::Godan,
        VerbType::Ichidan => jp_inflections::VerbType::Ichidan,
    };
    let verb = Word::new(kana, kanji).into_verb(class).ok()?;
    let word = verb.causative().ok()?;
    Some(Inflected { kana: word.kana, kanji: word.kanji })
}

/// The causative passive form that `jp_inflections::Verb::causative_passive`
/// gives for the verb of this class and these readings; `None` where it gives
/// an error for the word or for the form.
pub uninterp spec fn verb_causative_passive(
    ichidan: bool,
    kana: Seq<char>,
    kanji: Option<Seq<char>>,
) -> Option<Reading>;

/// Makes the verb with `jp_inflections::Word::new` and `Word::into_verb` and
/// calls `jp_inflections::Verb::causative_passive` on it. What comes back
/// depends on the class and the readings alone; an error becomes `None`.
#[verifier::external_body]
fn causative_passive(
    verb_type: VerbType,
    kana: &str,
    kanji: Option<&str>,
) -> (word: Option<Inflected>)
    ensures
        form_view(word) == verb_causative_passive(verb_type is Ichidan, kana@, text_view(kanji)),
{
    let class = match verb_type {
        VerbType::Godan => jp_inflections::VerbType::Godan,
        VerbType::Ichidan => jp_inflections::VerbType::Ichidan,
    };
    let verb = Word::new(kana, kanji).into_verb(class).ok()?;
    let word = verb.causative_passive().ok()?;
    Some(Inflected { kana: word.kana, kanji: word.kanji })
}

/// The negative causative passive form that
/// `jp_inflections::Verb::negative_causative_passive` gives for the verb of
/// this class and these readings; `None` where it gives an error for the word
/// or for the form.
pub uninterp spec fn verb_negative_causative_passive(
    ichidan: bool,
    kana: Seq<char>,
    kanji: Option<Seq<char>>,
) -> Option<Reading>;

/// Makes the verb with `jp_inflections::Word::new` and `Word::into_verb` and
/// calls `jp_inflections::Verb::negative_causative_passive` on it. What comes
/// back depends on the class and the readings alone; an error becomes `None`.
#[verifier::external_body]
fn negative_causative_passive(
    verb_type: VerbType,
    kana: &str,
    kanji: Option<&str>,
) -> (word: Option<Inflected>)
    ensures
        form_view(word) == verb_negative_causative_passive(
            verb_type is Ichidan,
            kana@,
            text_view(kanji),
        ),
{
    let class = match verb_type {
        VerbType::Godan => jp_inflections::VerbType::Godan,
        VerbType::Ichidan => jp_inflections::VerbType::Ichidan,
    };
    let verb = Word::new(kana, kanji).into_verb(class).ok()?;
    let word = verb.negative_causative_passive().ok()?;
    Some(Inflected { kana: word.kana, kanji: word.kanji })
}

/// The negative causative form that `jp_inflections::Verb::negative_causative`
/// gives for the verb of this class and these readings; `None` where it gives
/// an error for the word or for the form.
pub uninterp spec fn verb_negative_causative(
    ichidan: bool,
    kana: Seq<char>,
    kanji: Option<Seq<char>>,
) -> Option<Reading>;

/// Makes the verb with `jp_inflections::Word::new` and `Word::into_verb` and
/// calls `jp_inflections::Verb::negative_causative` on it. What comes back
/// depends on the class and the readings alone; an error becomes `None`.
#[verifier::external_body]
fn negative_causative(
    verb_type: VerbType,
    kana: &str,
    kanji: Option<&str>,
) -> (word: Option<Inflected>)
    ensures
        form_view(word) == verb_negative_causative(verb_type is Ichidan, kana@, text_view(kanji)),
{
    let class = match verb_type {
        VerbType::Godan => jp_inflections::VerbType::Godan,
        VerbType::Ichidan => jp_inflections::VerbType::Ichidan,
    };
    let verb = Word::new(kana, kanji).into_verb(class).ok()?;
    let word = verb.negative_causative().ok()?;
    Some(Inflected { kana: word.kana, kanji: word.kanji })
}

/// The passive form that `jp_inflections::Verb::passive` gives for the verb of
/// this class and these readings; `None` where it gives an error for the word
/// or for the form.
pub uninterp spec fn verb_passive(
    ichidan: bool,
    kana: Seq<char>,
    kanji: Option<Seq<char>>,
) -> Option<Reading>;

/// Makes the verb with `jp_inflections::Word::new` and `Word::into_verb` and
/// calls `jp_inflections::Verb::passive` on it. What comes back depends on the
/// class and the readings alone; an error becomes `None`.
#[verifier::external_body]
fn passive(
    verb_type: VerbType,
    kana: &str,
    kanji: Option<&str>,
) -> (word: Option<Inflected>)
    ensures
        form_view(word) == verb_passive(verb_type is Ichidan, kana@, text_view(kanji)),
{
    let class = match verb_type {
        VerbType::Godan => jp_inflections::VerbType::Godan,
        VerbType::Ichidan => jp_inflections::VerbType::Ichidan,
    };
    let verb = Word::new(kana, kanji).into_verb(class).ok()?;
    let word = verb.passive().ok()?;
    Some(Inflected { kana: word.kana, kanji: word.kanji })
}

/// The negative passive form that `jp_inflections::Verb::negative_passive`
/// gives for the verb of this class and these readings; `None` where it gives
/// an error for the word or for the form.
pub uninterp spec fn verb_negative_passive(
    ichidan: bool,
    kana: Seq<char>,
    kanji: Option<Seq<char>>,
) -> Option<Reading>;

/// Makes the verb with `jp_inflections::Word::new` and `Word::into_verb` and
/// calls `jp_inflections::Verb::negative_passive` on it. What comes back
/// depends on the class and the readings alone; an error becomes `None`.
#[verifier::external_body]
fn negative_passive(
    verb_type: VerbType,
    kana: &str,
    kanji: Option<&str>,
) -> (word: Option<Inflected>)
    ensures
        form_view(word) == verb_negative_passive(verb_type is Ichidan, kana@, text_view(kanji)),
{
    let class = match verb_type {
        VerbType::Godan => jp_inflections::VerbType::Godan,
        VerbType::Ichidan => jp_inflections::VerbType::Ichidan,
    };
    let verb = Word::new(kana, kanji).into_verb(class).ok()?;
    let word = verb.negative_passive().ok()?;
    Some(Inflected { kana: word.kana, kanji: word.kanji })
}

/// The number of forms that are made of a verb.
pub const FORM_COUNT: usize = 20;

/// The forms of a verb as `jp_inflections` gives them, in the order in which
/// they are entered into a dictionary: each is `None` where it gives an error.
pub open spec fn verb_forms(ichidan: bool, kana: Seq<char>, kanji: Option<Seq<char>>) -> Seq<
    Option<Reading>,
> {
    seq![
        verb_negative(ichidan, kana, kanji, false),
        verb_negative(ichidan, kana, kanji, true),
        verb_te_form(ichidan, kana, kanji),
        verb_negative_te_form(ichidan, kana, kanji),
        verb_past(ichidan, kana, kanji, false),
        verb_past(ichidan, kana, kanji, true),
        verb_negative_past(ichidan, kana, kanji, false),
        verb_negative_past(ichidan, kana, kanji, true),
        verb_potential(ichidan, kana, kanji, false),
        verb_potential(ichidan, kana, kanji, true),
        verb_negative_potential(ichidan, kana, kanji, false),
        verb_negative_potential(ichidan, kana, kanji, true),
        verb_imperative(ichidan, kana, kanji),
        verb_imperative_negative(ichidan, kana, kanji),
        verb_causative(ichidan, kana, kanji),
        verb_causative_passive(ichidan, kana, kanji),
        verb_negative_causative_passive(ichidan, kana, kanji),
        verb_negative_causative(ichidan, kana, kanji),
        verb_passive(ichidan, kana, kanji),
        verb_negative_passive(ichidan, kana, kanji),
    ]
}

/// The forms of a verb, where `jp_inflections` gives every one of them.
pub open spec fn conjugated_forms(
    ichidan: bool,
    kana: Seq<char>,
    kanji: Option<Seq<char>>,
) -> Option<Seq<Reading>> {
    let forms = verb_forms(ichidan, kana, kanji);
    if forall|i: int| 0 <= i < forms.len() ==> (#[trigger] forms[i]) is Some {
        Some(forms.map_values(|form: Option<Reading>| form.unwrap()))
    } else {
        None
    }
}

/// The characters of the forms.
pub open spec fn form_views(words: Seq<Inflected>) -> Seq<Reading> {
    words.map_values(|word: Inflected| word@)
}

/// The characters of optional forms.
pub open spec fn forms_view(words: Option<Vec<Inflected>>) -> Option<Seq<Reading>> {
    match words {
        Some(words) => Some(form_views(words@)),
        None => None,
    }
}

/// Puts the form behind `words`, if there is one.
fn keep(words: &mut Vec<Inflected>, word: Option<Inflected>) -> (kept: bool)
    ensures
        kept == word is Some,
        kept ==> form_views(final(words)@) == form_views(old(words)@).push(word.unwrap()@),
        !kept ==> final(words)@ == old(words)@,
{
    match word {
        Some(word) => {
            words.push(word);
            assert(form_views(words@) =~= form_views(old(words)@).push(word@));
            true
        },
        None => false,
    }
}

/// The forms of the verb with the given class and readings, in the order in
/// which they are entered into a dictionary; `None` where `jp_inflections`
/// gives an error for one of them.
pub fn conjugate(verb_type: VerbType, kana: &str, kanji: Option<&str>) -> (words: Option<
    Vec<Inflected>,
>)
    ensures
        forms_view(words) == conjugated_forms(verb_type is Ichidan, kana@, text_view(kanji)),
        words matches Some(words) ==> words@.len() == FORM_COUNT,
        words is Some ==> is_verb_reading(kana@),
{
    let ghost forms = verb_forms(verb_type is Ichidan, kana@, text_view(kanji));
    let mut words: Vec<Inflected> = Vec::new();
    assert(form_views(words@) =~= Seq::<Reading>::empty());
    if !keep(&mut words, negative(verb_type, kana, kanji, WordForm::Short)) {
        assert(forms[0] is None);
        return None;
    }
    if !keep(&mut words, negative(verb_type, kana, kanji, WordForm::Long)) {
        assert(forms[1] is None);
        return None;
    }
    if !keep(&mut words, te_form(verb_type, kana, kanji)) {
        assert(forms[2] is None);
        return None;
    }
    if !keep(&mut words, negative_te_form(verb_type, kana, kanji)) {
        assert(forms[3] is None);
        return None;
    }
    if !keep(&mut words, past(verb_type, kana, kanji, WordForm::Short)) {
        assert(forms[4] is None);
        return None;
    }
    if !keep(&mut words, past(verb_type, kana, kanji, WordForm::Long)) {
        assert(forms[5] is None);
        return None;
    }
    if !keep(&mut words, negative_past(verb_type, kana, kanji, WordForm::Short)) {
        assert(forms[6] is None);
        return None;
    }
    if !keep(&mut words, negative_past(verb_type, kana, kanji, WordForm::Long)) {
        assert(forms[7] is None);
        return None;
    }
    if !keep(&mut words, potential(verb_type, kana, kanji, WordForm::Short)) {
        assert(forms[8] is None);
        return None;
    }
    if !keep(&mut words, potential(verb_type, kana, kanji, WordForm::Long)) {
        assert(forms[9] is None);
        return None;
    }
    if !keep(&mut words, negative_potential(verb_type, kana, kanji, WordForm::Short)) {
        assert(forms[10] is None);
        return None;
    }
    if !keep(&mut words, negative_potential(verb_type, kana, kanji, WordForm::Long)) {
        assert(forms[11] is None);
        return None;
    }
    if !keep(&mut words, imperative(verb_type, kana, kanji)) {
        assert(forms[12] is None);
        return None;
    }
    if !keep(&mut words, imperative_negative(verb_type, kana, kanji)) {
        assert(forms[13] is None);
        return None;
    }
    if !keep(&mut words, causative(verb_type, kana, kanji)) {
        assert(forms[14] is None);
        return None;
    }
    if !keep(&mut words, causative_passive(verb_type, kana, kanji)) {
        assert(forms[15] is None);
        return None;
    }
    if !keep(&mut words, negative_causative_passive(verb_type, kana, kanji)) {
        assert(forms[16] is None);
        return None;
    }
    if !keep(&mut words, negative_causative(verb_type, kana, kanji)) {
        assert(forms[17] is None);
        return None;
    }
    if !keep(&mut words, passive(verb_type, kana, kanji)) {
        assert(forms[18] is None);
        return None;
    }
    if !keep(&mut words, negative_passive(verb_type, kana, kanji)) {
        assert(forms[19] is None);
        return None;
    }
    assert(form_views(words@) =~= forms.map_values(|form: Option<Reading>| form.unwrap()));
    assert(forms[13] is Some);
    Some(words)
}

} // verus!
