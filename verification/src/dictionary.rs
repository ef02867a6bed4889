//! The lexicon that the tokenizer reads: dictionary entries, and the surface
//! forms under which they are found.

use vstd::hash_map::StringHashMap;
use vstd::prelude::*;

verus! {

/// The grammatical roles of a dictionary entry, as a set of bits.
#[derive(Clone, Copy, Debug, PartialEq, Eq, Hash)]
pub struct PartOfSpeech(pub u32);

impl PartOfSpeech {
    pub const NONE: u32 = 0;

    /// Noun or verb acting prenominally
    pub const ADJECTIVE_PRENOMINAL: u32 = 0x0000_0001;

    /// Adjective
    pub const ADJECTIVE: u32 = 0x0000_0002;

    /// Nouns which may take the genitive case particle 'no'
    pub const ADJECTIVE_NO: u32 = 0x0000_0004;

    /// Adverb (fukushi)
    pub const ADVERB: u32 = 0x0000_0008;

    /// Adverb taking the 'to' particle
    pub const ADVERB_TO: u32 = 0x0000_0010;

    /// Auxiliary
    pub const AUXILIARY: u32 = 0x0000_0020;

    /// Auxiliary adjective
    pub const AUXILIARY_ADJECTIVE: u32 = 0x0000_0040;

    /// Auxiliary verb
    pub const AUXILIARY_VERB: u32 = 0x0000_0080;

    /// Conjunction
    pub const CONJUNCTION: u32 = 0x0000_0100;

    /// Copula
    pub const COPULA: u32 = 0x0000_0200;

    /// Counter
    pub const COUNTER: u32 = 0x0000_0400;

    /// Expressions (phrases, clauses, etc.)
    pub const EXPRESSION: u32 = 0x0000_0800;

    /// Interjection (kandoushi)
    pub const INTERJECTION: u32 = 0x0000_1000;

    /// Noun (common) (futsuumeishi)
    pub const NOUN: u32 = 0x0000_2000;

    /// Adverbial noun (fukushitekimeishi)
    pub const NOUN_ADVERB: u32 = 0x0000_4000;

    /// Proper noun
    pub const NOUN_PROPER: u32 = 0x0000_8000;

    /// Noun, used as a prefix
    pub const NOUN_PREFIX: u32 = 0x0001_0000;

    /// Noun, used as a suffix
    pub const NOUN_SUFFIX: u32 = 0x0002_0000;

    /// Noun (temporal) (jisoumeishi)
    pub const NOUN_TEMPORAL: u32 = 0x0004_0000;

    /// Numeric
    pub const NUMERIC: u32 = 0x0008_0000;

    /// Pronoun
    pub const PRONOUN: u32 = 0x0010_0000;

    /// Prefix
    pub const PREFIX: u32 = 0x0020_0000;

    /// Particle
    pub const PARTICLE: u32 = 0x0040_0000;

    /// Suffix
    pub const SUFFIX: u32 = 0x0080_0000;

    /// Ichidan verb
    pub const ICHIDAN_VERB: u32 = 0x0100_0000;

    /// Godan verb
    pub const GODAN_VERB: u32 = 0x0200_0000;

    /// Intransitive verb
    pub const INTRANSITIVE_VERB: u32 = 0x0400_0000;

    /// Kuru verb - special class
    pub const KURU_VERB: u32 = 0x0800_0000;

    /// Suru verb
    pub const SURU_VERB: u32 = 0x1000_0000;

    /// Transitive verb
    pub const TRANSITIVE_VERB: u32 = 0x2000_0000;

    /// pre-noun adjectival
    pub const PRE_NOUN_ADJECTIVAL: u32 = 0x4000_0000;

    /// Every bit of `other` is set in `self`.
    pub open spec fn has(&self, other: PartOfSpeech) -> bool {
        self.0 & other.0 == other.0
    }

    /// The set that holds exactly the given bits.
    pub fn from_bits_retain(bits: u32) -> (set: PartOfSpeech)
        ensures
            set.0 == bits,
    {
        PartOfSpeech(bits)
    }

    /// The set with no role in it.
    pub fn empty() -> (set: PartOfSpeech)
        ensures
            set.0 == 0,
    {
        PartOfSpeech(0)
    }

    /// The bits of the set.
    pub fn bits(&self) -> (bits: u32)
        ensures
            bits == self.0,
    {
        self.0
    }

    /// The roles of `self` together with those of `other`.
    pub fn union(self, other: PartOfSpeech) -> (set: PartOfSpeech)
        ensures
            set.0 == self.0 | other.0,
    {
        PartOfSpeech(self.0 | other.0)
    }

    /// Whether every role of `other` is in `self`.
    #[verifier::when_used_as_spec(has)]
    pub fn contains(&self, other: PartOfSpeech) -> (found: bool)
        ensures
            found == self.has(other),
    {
        self.0 & other.0 == other.0
    }

    /// Whether the particle role is in the set.
    pub fn is_particle(&self) -> (found: bool)
        ensures
            found == self.has(PartOfSpeech(PartOfSpeech::PARTICLE)),
    {
        self.contains(PartOfSpeech(PartOfSpeech::PARTICLE))
    }
}

/// The usage labels of a dictionary entry, as a set of bits.
#[derive(Clone, Copy, Debug, PartialEq, Eq, Hash)]
pub struct Tag(pub u16);

impl Tag {
    pub const NONE: u16 = 0;

    /// Word usually written using kana alone
    pub const USUALLY_KANA: u16 = 0x0001;

    /// Abbreviation
    pub const ABBREVIATION: u16 = 0x0002;

    /// Archaic
    pub const ARCHAIC: u16 = 0x0004;

    /// Dated term
    pub const DATED_TERM: u16 = 0x0008;

    /// Historical term
    pub const HISTORICAL_TERM: u16 = 0x0010;

    /// Honorific or respectful (sonkeigo) language
    pub const SONKEIGO: u16 = 0x0020;

    /// humble (kenjougo) language
    pub const KENJOUGO: u16 = 0x0040;

    /// Polite (teineigo) language
    pub const TEINEIGO: u16 = 0x0080;

    /// Idiomatic expression
    pub const IDIOMATIC_EXPRESSION: u16 = 0x0100;

    /// Obsolete term
    pub const OBSOLETE_TERM: u16 = 0x0200;

    /// Rare term
    pub const RARE: u16 = 0x0400;

    /// yojijukugo
    pub const YOJIJUKUGO: u16 = 0x0800;

    /// Every bit of `other` is set in `self`.
    pub open spec fn has(&self, other: Tag) -> bool {
        self.0 & other.0 == other.0
    }

    /// The set that holds exactly the given bits.
    pub fn from_bits_retain(bits: u16) -> (set: Tag)
        ensures
            set.0 == bits,
    {
        Tag(bits)
    }

    /// The set with no label in it.
    pub fn empty() -> (set: Tag)
        ensures
            set.0 == 0,
    {
        Tag(0)
    }

    /// The bits of the set.
    pub fn bits(&self) -> (bits: u16)
        ensures
            bits == self.0,
    {
        self.0
    }

    /// The labels of `self` together with those of `other`.
    pub fn union(self, other: Tag) -> (set: Tag)
        ensures
            set.0 == self.0 | other.0,
    {
        Tag(self.0 | other.0)
    }

    /// Whether every label of `other` is in `self`.
    #[verifier::when_used_as_spec(has)]
    pub fn contains(&self, other: Tag) -> (found: bool)
        ensures
            found == self.has(other),
    {
        self.0 & other.0 == other.0
    }
}

/// The form of a word under which a surface was entered.
#[derive(Debug, Clone, Copy, PartialEq, Eq, Hash)]
pub enum InflectionType {
    DictionaryForm,
    Negative,
    Te,
    NegativeTe,
    Past,
    NegativePast,
    Potential,
    NegativePotential,
    Imperative,
    ImperativeNegative,
    Causative,
    CausativePassive,
    NegativeCausativePassive,
    NegativeCausative,
    Passive,
    NegativePassive,
}

/// An entry of the lexicon: its identifier, its grammatical roles and its
/// usage labels.
#[derive(Debug, Copy, Clone)]
pub struct DictionaryEntry {
    pub term_id: u32,
    pub pos: PartOfSpeech,
    pub tag: Tag,
}

/// One reading of a surface: the entry it belongs to, and the form it has.
#[derive(Debug, Copy, Clone)]
pub struct TermEntry {
    pub entry_index: u32,
    pub inflection_type: InflectionType,
}

/// The mathematical content of a dictionary.
pub struct DictionaryView {
    pub entries: Seq<DictionaryEntry>,
    /// The terms under each form with ideographs.
    pub kanji: Map<Seq<char>, Seq<TermEntry>>,
    /// The terms under each form in kana.
    pub kana: Map<Seq<char>, Seq<TermEntry>>,
    /// The forms with ideographs, in the order in which they were first
    /// entered.
    pub kanji_surfaces: Seq<Seq<char>>,
    /// The forms in kana, in the order in which they were first entered.
    pub kana_surfaces: Seq<Seq<char>>,
}

/// Every term of the list names an entry among the first `count`.
pub open spec fn terms_within(terms: Seq<TermEntry>, count: nat) -> bool {
    forall|i: int| 0 <= i < terms.len() ==> (#[trigger] terms[i]).entry_index < count
}

/// `surfaces` names each surface of `map` once, and nothing else.
pub open spec fn lists_surfaces(
    surfaces: Seq<Seq<char>>,
    map: Map<Seq<char>, Seq<TermEntry>>,
) -> bool {
    &&& surfaces.no_duplicates()
    &&& forall|surface: Seq<char>|
        #[trigger] map.contains_key(surface) <==> surfaces.contains(surface)
}

impl DictionaryView {
    /// Every term under every surface names an entry of the dictionary, and
    /// the lists of surfaces name the surfaces that have terms.
    pub open spec fn well_formed(self) -> bool {
        &&& forall|surface: Seq<char>| #[trigger]
            self.kanji.contains_key(surface) ==> terms_within(
                self.kanji[surface],
                self.entries.len(),
            )
        &&& forall|surface: Seq<char>| #[trigger]
            self.kana.contains_key(surface) ==> terms_within(
                self.kana[surface],
                self.entries.len(),
            )
        &&& lists_surfaces(self.kanji_surfaces, self.kanji)
        &&& lists_surfaces(self.kana_surfaces, self.kana)
    }
}

/// The entries of a lexicon, and the surfaces under which they are found:
/// `kanji` for forms written with ideographs, `kana` for forms in kana alone.
pub struct Dictionary {
    entries: Vec<DictionaryEntry>,
    kanji: StringHashMap<Vec<TermEntry>>,
    kana: StringHashMap<Vec<TermEntry>>,
    kanji_surfaces: Vec<String>,
    kana_surfaces: Vec<String>,
}

impl View for Dictionary {
    type V = DictionaryView;

    closed spec fn view(&self) -> DictionaryView {
        DictionaryView {
            entries: self.entries@,
            kanji: self.kanji@.map_values(|terms: Vec<TermEntry>| terms@),
            kana: self.kana@.map_values(|terms: Vec<TermEntry>| terms@),
            kanji_surfaces: self.kanji_surfaces.deep_view(),
            kana_surfaces: self.kana_surfaces.deep_view(),
        }
    }
}

/// The terms under `surface` with `term` behind them.
pub open spec fn with_term(
    map: Map<Seq<char>, Seq<TermEntry>>,
    surface: Seq<char>,
    term: TermEntry,
) -> Map<Seq<char>, Seq<TermEntry>> {
    if map.contains_key(surface) {
        map.insert(surface, map[surface].push(term))
    } else {
        map.insert(surface, seq![term])
    }
}

/// The list of surfaces once `surface` has a term: a new surface stands at
/// the end.
pub open spec fn with_surface(
    surfaces: Seq<Seq<char>>,
    map: Map<Seq<char>, Seq<TermEntry>>,
    surface: Seq<char>,
) -> Seq<Seq<char>> {
    if map.contains_key(surface) {
        surfaces
    } else {
        surfaces.push(surface)
    }
}

impl DictionaryView {
    /// The dictionary with `entry` behind its entries; unchanged where the
    /// index of the entry would not fit a term.
    pub open spec fn with_entry(self, entry: DictionaryEntry) -> DictionaryView {
        if self.entries.len() <= u32::MAX {
            DictionaryView { entries: self.entries.push(entry), ..self }
        } else {
            self
        }
    }

    /// The dictionary with `term` entered under `surface` among the forms with
    /// ideographs; unchanged where the term names no entry.
    pub open spec fn with_kanji(self, surface: Seq<char>, term: TermEntry) -> DictionaryView {
        if term.entry_index < self.entries.len() {
            DictionaryView {
                kanji: with_term(self.kanji, surface, term),
                kanji_surfaces: with_surface(self.kanji_surfaces, self.kanji, surface),
                ..self
            }
        } else {
            self
        }
    }

    /// The dictionary with `term` entered under `surface` among the forms in
    /// kana; unchanged where the term names no entry.
    pub open spec fn with_kana(self, surface: Seq<char>, term: TermEntry) -> DictionaryView {
        if term.entry_index < self.entries.len() {
            DictionaryView {
                kana: with_term(self.kana, surface, term),
                kana_surfaces: with_surface(self.kana_surfaces, self.kana, surface),
                ..self
            }
        } else {
            self
        }
    }
}

/// A map whose terms name entries still does so with one more term that
/// names an entry, and its list of surfaces is still right.
proof fn lemma_with_term_within(
    map: Map<Seq<char>, Seq<TermEntry>>,
    surfaces: Seq<Seq<char>>,
    surface: Seq<char>,
    term: TermEntry,
    count: nat,
)
    requires
        forall|key: Seq<char>| #[trigger] map.contains_key(key) ==> terms_within(map[key], count),
        lists_surfaces(surfaces, map),
        term.entry_index < count,
    ensures
        forall|key: Seq<char>| #[trigger]
            with_term(map, surface, term).contains_key(key) ==> terms_within(
                with_term(map, surface, term)[key],
                count,
            ),
        lists_surfaces(with_surface(surfaces, map, surface), with_term(map, surface, term)),
{
    let grown = with_term(map, surface, term);
    let listed = with_surface(surfaces, map, surface);
    assert forall|key: Seq<char>| #[trigger] grown.contains_key(key) implies terms_within(
        grown[key],
        count,
    ) by {
        if key == surface {
            if map.contains_key(surface) {
                assert(terms_within(map[surface], count));
            }
        } else {
            assert(map.contains_key(key));
        }
    }
    assert forall|key: Seq<char>| #[trigger] grown.contains_key(key) <==> listed.contains(key) by {
        if grown.contains_key(key) {
            if map.contains_key(key) {
                let at = choose|at: int| 0 <= at < surfaces.len() && surfaces[at] == key;
                assert(listed[at] == key);
            } else {
                assert(key == surface);
                assert(listed[surfaces.len() as int] == key);
            }
        }
        if listed.contains(key) {
            let at = choose|at: int| 0 <= at < listed.len() && listed[at] == key;
            if at < surfaces.len() {
                assert(surfaces[at] == key);
                assert(surfaces.contains(key));
                assert(map.contains_key(key));
            }
        }
    }
    if !map.contains_key(surface) {
        assert forall|i: int, j: int|
            0 <= i < listed.len() && 0 <= j < listed.len() && i != j implies listed[i]
            != listed[j] by {
            if i < surfaces.len() && j < surfaces.len() {
            } else if i < surfaces.len() {
                assert(surfaces.contains(surfaces[i]));
            } else {
                assert(surfaces.contains(surfaces[j]));
            }
        }
    }
}

/// Puts `term` behind the terms that `map` holds under `surface`, and a new
/// surface at the end of `surfaces`.
fn append_term(
    map: &mut StringHashMap<Vec<TermEntry>>,
    surfaces: &mut Vec<String>,
    surface: &str,
    term: TermEntry,
)
    ensures
        final(map)@.map_values(|terms: Vec<TermEntry>| terms@) == with_term(
            old(map)@.map_values(|terms: Vec<TermEntry>| terms@),
            surface@,
            term,
        ),
        final(surfaces).deep_view() == with_surface(
            old(surfaces).deep_view(),
            old(map)@.map_values(|terms: Vec<TermEntry>| terms@),
            surface@,
        ),
{
    let mut terms: Vec<TermEntry> = Vec::new();
    match map.get(surface) {
        Some(present) => {
            let mut i: usize = 0;
            while i < present.len()
                invariant
                    i <= present@.len(),
                    terms@ == present@.take(i as int),
                decreases present@.len() - i,
            {
                terms.push(present[i]);
                assert(present@.take(i + 1) =~= present@.take(i as int).push(present@[i as int]));
                i += 1;
            }
            assert(present@.take(present@.len() as int) =~= present@);
        },
        None => {
            surfaces.push(surface.to_owned());
            assert(surfaces.deep_view() =~= old(surfaces).deep_view().push(surface@));
        },
    }
    terms.push(term);
    map.insert(surface.to_owned(), terms);
    assert(final(map)@.map_values(|terms: Vec<TermEntry>| terms@) =~= with_term(
        old(map)@.map_values(|terms: Vec<TermEntry>| terms@),
        surface@,
        term,
    ));
}

impl Dictionary {
    /// A dictionary without entries.
    pub fn new() -> (dictionary: Dictionary)
        ensures
            dictionary@.well_formed(),
            dictionary@.entries == Seq::<DictionaryEntry>::empty(),
            dictionary@.kanji == Map::<Seq<char>, Seq<TermEntry>>::empty(),
            dictionary@.kana == Map::<Seq<char>, Seq<TermEntry>>::empty(),
            dictionary@.kanji_surfaces == Seq::<Seq<char>>::empty(),
            dictionary@.kana_surfaces == Seq::<Seq<char>>::empty(),
    {
        let dictionary = Dictionary {
            entries: Vec::new(),
            kanji: StringHashMap::new(),
            kana: StringHashMap::new(),
            kanji_surfaces: Vec::new(),
            kana_surfaces: Vec::new(),
        };
        assert(dictionary@.kanji =~= Map::<Seq<char>, Seq<TermEntry>>::empty());
        assert(dictionary@.kana =~= Map::<Seq<char>, Seq<TermEntry>>::empty());
        assert(dictionary@.kanji_surfaces =~= Seq::<Seq<char>>::empty());
        assert(dictionary@.kana_surfaces =~= Seq::<Seq<char>>::empty());
        dictionary
    }

    /// The entries, by index.
    pub fn entries(&self) -> (entries: &Vec<DictionaryEntry>)
        ensures
            entries@ == self@.entries,
    {
        &self.entries
    }

    /// The forms with ideographs that have terms, in the order in which they
    /// were first entered.
    pub fn kanji_surfaces(&self) -> (surfaces: &Vec<String>)
        ensures
            surfaces.deep_view() == self@.kanji_surfaces,
    {
        &self.kanji_surfaces
    }

    /// The forms in kana that have terms, in the order in which they were
    /// first entered.
    pub fn kana_surfaces(&self) -> (surfaces: &Vec<String>)
        ensures
            surfaces.deep_view() == self@.kana_surfaces,
    {
        &self.kana_surfaces
    }

    /// Appends `entry` and returns its index; `None`, with the dictionary
    /// unchanged, where the index would not fit a term.
    pub fn add_entry(&mut self, entry: DictionaryEntry) -> (index: Option<u32>)
        ensures
            old(self)@.well_formed() ==> final(self)@.well_formed(),
            final(self)@ == old(self)@.with_entry(entry),
            match index {
                Some(index) => index == old(self)@.entries.len(),
                None => old(self)@.entries.len() > u32::MAX,
            },
    {
        let count = self.entries.len();
        if count > 0xFFFF_FFFF {
            return None;
        }
        self.entries.push(entry);
        proof {
            if old(self)@.well_formed() {
                assert forall|surface: Seq<char>| #[trigger]
                    self@.kanji.contains_key(surface) implies terms_within(
                    self@.kanji[surface],
                    self@.entries.len(),
                ) by {
                    assert(terms_within(old(self)@.kanji[surface], old(self)@.entries.len()));
                }
                assert forall|surface: Seq<char>| #[trigger]
                    self@.kana.contains_key(surface) implies terms_within(
                    self@.kana[surface],
                    self@.entries.len(),
                ) by {
                    assert(terms_within(old(self)@.kana[surface], old(self)@.entries.len()));
                }
            }
        }
        Some(count as u32)
    }

    /// The terms entered under `surface` among the forms with ideographs.
    pub fn lookup_kanji(&self, surface: &str) -> (found: Option<&Vec<TermEntry>>)
        ensures
            match found {
                Some(terms) => self@.kanji.contains_key(surface@) && terms@
                    == self@.kanji[surface@],
                None => !self@.kanji.contains_key(surface@),
            },
    {
        self.kanji.get(surface)
    }

    /// The terms entered under `surface` among the forms in kana.
    pub fn lookup_kana(&self, surface: &str) -> (found: Option<&Vec<TermEntry>>)
        ensures
            match found {
                Some(terms) => self@.kana.contains_key(surface@) && terms@ == self@.kana[surface@],
                None => !self@.kana.contains_key(surface@),
            },
    {
        self.kana.get(surface)
    }

    /// Whether any term is entered under `surface` among the forms with
    /// ideographs.
    pub fn contains_kanji(&self, surface: &str) -> (found: bool)
        ensures
            found == self@.kanji.contains_key(surface@),
    {
        self.kanji.contains_key(surface)
    }

    /// Whether any term is entered under `surface` among the forms in kana.
    pub fn contains_kana(&self, surface: &str) -> (found: bool)
        ensures
            found == self@.kana.contains_key(surface@),
    {
        self.kana.contains_key(surface)
    }

    /// Enters `term` under `surface` among the forms with ideographs, behind
    /// the terms that are there. A term that names no entry is not entered.
    pub fn add_kanji(&mut self, surface: &str, term: TermEntry) -> (added: bool)
        ensures
            old(self)@.well_formed() ==> final(self)@.well_formed(),
            added == (term.entry_index < old(self)@.entries.len()),
            final(self)@ == old(self)@.with_kanji(surface@, term),
    {
        if term.entry_index as usize >= self.entries.len() {
            return false;
        }
        append_term(&mut self.kanji, &mut self.kanji_surfaces, surface, term);
        proof {
            assert(self@.kanji == with_term(old(self)@.kanji, surface@, term));
            assert(self@.kana == old(self)@.kana);
            assert(self@.entries == old(self)@.entries);
            if old(self)@.well_formed() {
                lemma_with_term_within(
                    old(self)@.kanji,
                    old(self)@.kanji_surfaces,
                    surface@,
                    term,
                    self@.entries.len(),
                );
            }
        }
        true
    }

    /// Enters `term` under `surface` among the forms in kana, behind the terms
    /// that are there. A term that names no entry is not entered.
    pub fn add_kana(&mut self, surface: &str, term: TermEntry) -> (added: bool)
        ensures
            old(self)@.well_formed() ==> final(self)@.well_formed(),
            added == (term.entry_index < old(self)@.entries.len()),
            final(self)@ == old(self)@.with_kana(surface@, term),
    {
        if term.entry_index as usize >= self.entries.len() {
            return false;
        }
        append_term(&mut self.kana, &mut self.kana_surfaces, surface, term);
        proof {
            assert(self@.kana == with_term(old(self)@.kana, surface@, term));
            assert(self@.kanji == old(self)@.kanji);
            assert(self@.entries == old(self)@.entries);
            if old(self)@.well_formed() {
                lemma_with_term_within(
                    old(self)@.kana,
                    old(self)@.kana_surfaces,
                    surface@,
                    term,
                    self@.entries.len(),
                );
            }
        }
        true
    }
}

} // verus!
