//! The tokenizer: it lists the candidate spans of a text, scores them, lays
//! them into a lattice, and turns the best path into tokens.

use crate::character::{categories, category_at, CharCategory, CATEGORY_COUNT};
use crate::dictionary::{Dictionary, DictionaryEntry, DictionaryView, PartOfSpeech, Tag, TermEntry};
use crate::guarantees::{
    is_dictionary_term, joined_surfaces, lemma_surfaces_cover_text,
    lemma_tokens_are_adjacent_spans, lemma_tokens_name_dictionary_terms,
};
use crate::lattice::{best_path, is_chain, nodes_of, Lattice, LatticeNode};
use crate::word::{
    category_patterns, patterns_compile, word_category, WordCategorizer, WordCategory,
};
use std::sync::Arc;
use vstd::prelude::*;
use vstd::string::StrSliceExecFns;

verus! {

/// A piece of the text: a dictionary term, or a span that is in no dictionary.
#[derive(Debug, Copy, Clone)]
pub struct Token<'a> {
    pub term_id: Option<u32>,
    pub token: &'a str,
}

/// The mathematical content of a token.
pub struct TokenView {
    pub term_id: Option<u32>,
    pub surface: Seq<char>,
}

impl<'a> View for Token<'a> {
    type V = TokenView;

    open spec fn view(&self) -> TokenView {
        TokenView { term_id: self.term_id, surface: self.token@ }
    }
}

/// A span `[start, end)` of the text in code points, with the characters it
/// covers.
#[derive(Debug, Copy, Clone)]
pub struct Candidate<'a> {
    pub surface: &'a str,
    pub start: usize,
    pub end: usize,
}

/// The span of a candidate.
pub open spec fn span_of(candidate: Candidate) -> (int, int) {
    (candidate.start as int, candidate.end as int)
}

/// The spans of the candidates.
pub open spec fn spans_of(candidates: Seq<Candidate>) -> Seq<(int, int)> {
    candidates.map_values(|candidate: Candidate| span_of(candidate))
}

/// The surface of the candidate is what its span covers of `text`.
pub open spec fn is_cut_from(candidate: Candidate, text: Seq<char>) -> bool {
    candidate.surface@ == text.subrange(candidate.start as int, candidate.end as int)
}

/// The candidate is the span `[start, end)` of `text`.
pub open spec fn is_span_of(candidate: Candidate, text: Seq<char>, start: int, end: int) -> bool {
    &&& candidate.start == start
    &&& candidate.end == end
    &&& candidate.surface@ == text.subrange(start, end)
}

/// The factor of a score that does not depend on the length: 1, and 15 more
/// for a word in Katakana; for a dictionary entry 5 more, with 4 for a
/// particle, 2 for an expression and 8 for an idiomatic expression.
pub open spec fn score_base(category: WordCategory, entry: Option<DictionaryEntry>) -> nat {
    let script: nat = if category is Katakana {
        16
    } else {
        1
    };
    script + match entry {
        Some(entry) => {
            let particle: nat = if entry.pos.has(PartOfSpeech(PartOfSpeech::PARTICLE)) {
                4
            } else {
                0
            };
            let expression: nat = if entry.pos.has(PartOfSpeech(PartOfSpeech::EXPRESSION)) {
                2
            } else {
                0
            };
            let idiom: nat = if entry.tag.has(Tag(Tag::IDIOMATIC_EXPRESSION)) {
                8
            } else {
                0
            };
            5 + particle + expression + idiom
        },
        None => 0,
    }
}

/// The factor of a score that grows with the length: its cube for a word of
/// ideographs and Hiragana, its square otherwise.
pub open spec fn length_power(length: nat, category: WordCategory) -> nat {
    if category is Word {
        length * length * length
    } else {
        length * length
    }
}

/// The score of a span of `length` code points, as a number without bound.
pub open spec fn exact_score(
    length: nat,
    category: WordCategory,
    entry: Option<DictionaryEntry>,
) -> nat {
    score_base(category, entry) * length_power(length, category)
}

/// The score of a span of `length` code points: the exact score, or the
/// greatest number that a score can hold where the exact score is beyond it.
pub open spec fn score_of(
    length: nat,
    category: WordCategory,
    entry: Option<DictionaryEntry>,
) -> u64 {
    if exact_score(length, category, entry) <= u64::MAX {
        exact_score(length, category, entry) as u64
    } else {
        u64::MAX
    }
}

/// The entry that an optional reference points to.
pub open spec fn entry_of(entry: Option<&DictionaryEntry>) -> Option<DictionaryEntry> {
    match entry {
        Some(entry) => Some(*entry),
        None => None,
    }
}

/// The number of characters of the kind that follow one another from `from`
/// on, counting no character at `limit - 1` or behind it.
pub open spec fn run_length(text: Seq<char>, category: CharCategory, from: int, limit: int) -> nat
    decreases limit - from,
{
    if 0 <= from < text.len() && from + 1 < limit && category.holds(text[from]) {
        1 + run_length(text, category, from + 1, limit)
    } else {
        0
    }
}

/// The unknown span that one kind of character gives at `start`, if any:
/// for a grouped kind the run of its characters from `start` on, for another
/// the character at `start`. A kind that is not always tried gives a span
/// only with `force`.
pub open spec fn unknown_span(
    text: Seq<char>,
    start: int,
    length: int,
    force: bool,
    category: CharCategory,
) -> Option<(int, int)> {
    if !force && !category.is_invoked() {
        None
    } else if category.is_grouped() {
        let count = run_length(text, category, start, length);
        if count == 0 {
            None
        } else {
            Some((start, start + count))
        }
    } else if category.holds(text[start]) {
        Some((start, start + 1))
    } else {
        None
    }
}

/// The unknown spans at `start` that the first `tried` kinds give, in the
/// order of the kinds.
pub open spec fn unknown_spans(
    text: Seq<char>,
    start: int,
    length: int,
    force: bool,
    tried: int,
) -> Seq<(int, int)>
    decreases tried,
{
    if tried <= 0 {
        Seq::empty()
    } else {
        let before = unknown_spans(text, start, length, force, tried - 1);
        match unknown_span(text, start, length, force, categories()[tried - 1]) {
            Some(span) => before.push(span),
            None => before,
        }
    }
}

/// The terms that the dictionary holds for a surface of the given category:
/// a word in kana is looked up among the forms in kana, a word with
/// ideographs among the forms with ideographs, and anything else not at all.
pub open spec fn dictionary_terms(
    dictionary: DictionaryView,
    surface: Seq<char>,
    category: WordCategory,
) -> Seq<TermEntry> {
    match category {
        WordCategory::Katakana | WordCategory::Kana => if dictionary.kana.contains_key(surface) {
            dictionary.kana[surface]
        } else {
            Seq::empty()
        },
        WordCategory::Word => if dictionary.kanji.contains_key(surface) {
            dictionary.kanji[surface]
        } else {
            Seq::empty()
        },
        WordCategory::NonWord => Seq::empty(),
    }
}

/// The lattice node for one term found under the span `[start, end)`.
pub open spec fn term_node(
    dictionary: DictionaryView,
    term: TermEntry,
    start: int,
    end: int,
    category: WordCategory,
) -> LatticeNode {
    let entry = dictionary.entries[term.entry_index as int];
    LatticeNode {
        term_id: Some(entry.term_id),
        start: start as usize,
        end: end as usize,
        score: score_of((end - start) as nat, category, Some(entry)),
    }
}

/// The lattice nodes for the terms found under the span `[start, end)`, in the
/// order in which the dictionary holds them.
pub open spec fn term_nodes(
    dictionary: DictionaryView,
    text: Seq<char>,
    start: int,
    end: int,
) -> Seq<LatticeNode> {
    let surface = text.subrange(start, end);
    let category = word_category(surface);
    let terms = dictionary_terms(dictionary, surface, category);
    Seq::new(terms.len(), |k: int| term_node(dictionary, terms[k], start, end, category))
}

/// The lattice nodes for the terms found under the spans that start at `start`
/// and end before `limit`, shortest span first.
pub open spec fn dictionary_nodes(
    dictionary: DictionaryView,
    text: Seq<char>,
    start: int,
    limit: int,
) -> Seq<LatticeNode>
    decreases limit - start,
{
    if limit <= start + 1 {
        Seq::empty()
    } else {
        dictionary_nodes(dictionary, text, start, limit - 1) + term_nodes(
            dictionary,
            text,
            start,
            limit - 1,
        )
    }
}

/// The lattice node for an unknown span.
pub open spec fn unknown_node(text: Seq<char>, span: (int, int)) -> LatticeNode {
    LatticeNode {
        term_id: None,
        start: span.0 as usize,
        end: span.1 as usize,
        score: score_of(
            (span.1 - span.0) as nat,
            word_category(text.subrange(span.0, span.1)),
            None,
        ),
    }
}

/// The lattice nodes for the unknown spans at `start`.
pub open spec fn unknown_nodes(text: Seq<char>, start: int, force: bool) -> Seq<LatticeNode> {
    unknown_spans(text, start, text.len() as int, force, CATEGORY_COUNT as int).map_values(
        |span: (int, int)| unknown_node(text, span),
    )
}

/// The lattice nodes for position `start`: those of the dictionary terms
/// that start there, then the unknown spans, with every kind of character
/// tried where no term starts there.
pub open spec fn position_nodes(dictionary: DictionaryView, text: Seq<char>, start: int) -> Seq<
    LatticeNode,
> {
    let found = dictionary_nodes(dictionary, text, start, text.len() as int);
    found + unknown_nodes(text, start, found.len() == 0)
}

/// The lattice nodes for the positions before `position`, in the order in
/// which they are inserted.
pub open spec fn lattice_nodes(dictionary: DictionaryView, text: Seq<char>, position: int) -> Seq<
    LatticeNode,
>
    decreases position,
{
    if position <= 0 {
        Seq::empty()
    } else {
        lattice_nodes(dictionary, text, position - 1) + position_nodes(
            dictionary,
            text,
            position - 1,
        )
    }
}

/// The token that a node of the path becomes.
pub open spec fn token_of(text: Seq<char>, node: LatticeNode) -> TokenView {
    TokenView { term_id: node.term_id, surface: text.subrange(node.start as int, node.end as int) }
}

/// The nodes of the best path through the lattice of the text.
pub open spec fn token_nodes(dictionary: DictionaryView, text: Seq<char>) -> Seq<LatticeNode> {
    best_path(lattice_nodes(dictionary, text, text.len() as int), text.len())
}

/// The tokens of a text: the nodes of the best path through its lattice, each
/// with the characters that it covers.
pub open spec fn tokens_of(dictionary: DictionaryView, text: Seq<char>) -> Seq<TokenView> {
    token_nodes(dictionary, text).map_values(|node: LatticeNode| token_of(text, node))
}

/// The mathematical content of a sequence of tokens.
pub open spec fn token_views(tokens: Seq<Token>) -> Seq<TokenView> {
    tokens.map_values(|token: Token| token@)
}

/// Every term of the list names an entry of the dictionary.
pub open spec fn terms_name(terms: Seq<TermEntry>, dictionary: DictionaryView) -> bool {
    forall|i: int|
        0 <= i < terms.len() ==> (#[trigger] terms[i]).entry_index < dictionary.entries.len()
}

/// A run of characters from `from` ends before `limit - 1`, or is empty.
pub proof fn lemma_run_length_within(text: Seq<char>, category: CharCategory, from: int, limit: int)
    ensures
        run_length(text, category, from, limit) > 0 ==> 0 <= from && from + run_length(
            text,
            category,
            from,
            limit,
        ) < limit && from + run_length(text, category, from, limit) <= text.len(),
    decreases limit - from,
{
    if 0 <= from < text.len() && from + 1 < limit && category.holds(text[from]) {
        lemma_run_length_within(text, category, from + 1, limit);
    }
}

/// Every unknown span at a position of the text is a non-empty span of the
/// text that starts there.
pub proof fn lemma_unknown_spans_within(
    text: Seq<char>,
    start: int,
    length: int,
    force: bool,
    tried: int,
)
    requires
        0 <= start < text.len(),
        length <= text.len(),
    ensures
        forall|k: int|
            0 <= k < unknown_spans(text, start, length, force, tried).len() ==> {
                let span = #[trigger] unknown_spans(text, start, length, force, tried)[k];
                span.0 == start && start < span.1 <= text.len()
            },
    decreases tried,
{
    if tried > 0 {
        lemma_unknown_spans_within(text, start, length, force, tried - 1);
        lemma_run_length_within(text, categories()[tried - 1], start, length);
        let before = unknown_spans(text, start, length, force, tried - 1);
        let spans = unknown_spans(text, start, length, force, tried);
        assert forall|k: int| 0 <= k < spans.len() implies (#[trigger] spans[k]).0 == start && start
            < spans[k].1 <= text.len() by {
            if k < before.len() {
                assert(spans[k] == before[k]);
            }
        }
    }
}

/// Segments text into the terms of a dictionary.
pub struct Tokenizer {
    dictionary: Arc<Dictionary>,
    categorizer: WordCategorizer,
}

impl Tokenizer {
    #[verifier::type_invariant]
    spec fn holds_sound_dictionary(&self) -> bool {
        self.dictionary@.well_formed()
    }

    /// The dictionary that the tokenizer reads.
    pub closed spec fn dictionary(&self) -> Dictionary {
        *self.dictionary
    }

    /// A tokenizer over `dictionary`; `None` where the patterns that tell the
    /// scripts apart do not compile.
    pub fn new(dictionary: Arc<Dictionary>) -> (tokenizer: Option<Tokenizer>)
        requires
            dictionary@.well_formed(),
        ensures
            tokenizer.is_some() == patterns_compile(category_patterns()),
            tokenizer matches Some(tokenizer) ==> tokenizer.dictionary() == *dictionary
                && tokenizer.dictionary()@.well_formed(),
    {
        match WordCategorizer::new() {
            Some(categorizer) => Some(Self::with_categorizer(dictionary, categorizer)),
            None => None,
        }
    }

    /// A tokenizer over `dictionary` that tells the scripts apart with
    /// `categorizer`.
    pub fn with_categorizer(
        dictionary: Arc<Dictionary>,
        categorizer: WordCategorizer,
    ) -> (tokenizer: Tokenizer)
        requires
            dictionary@.well_formed(),
        ensures
            tokenizer.dictionary() == *dictionary,
            tokenizer.dictionary()@.well_formed(),
    {
        Tokenizer { dictionary, categorizer }
    }

    /// The score of a span of `text_len` code points.
    pub fn get_score(
        text_len: usize,
        category: WordCategory,
        dictionary_entry: &Option<&DictionaryEntry>,
    ) -> (score: u64)
        ensures
            score == score_of(text_len as nat, category, entry_of(*dictionary_entry)),
    {
        let mut base: u64 = 1;
        // If it's written only in katakana, then most likely it is a word.
        if let WordCategory::Katakana = category {
            base += 15;
        }
        if let Some(entry) = dictionary_entry {
            // Boost terms that exist in the dictionary
            base += 5;
            if entry.pos.is_particle() {
                base += 4;
            }
            if entry.pos.contains(PartOfSpeech(PartOfSpeech::EXPRESSION)) {
                base += 2;
            }
            if entry.tag.contains(Tag(Tag::IDIOMATIC_EXPRESSION)) {
                base += 8;
            }
        }
        assert(base == score_base(category, entry_of(*dictionary_entry)));
        let cubed = match category {
            WordCategory::Word => true,
            _ => false,
        };
        let ghost exact = exact_score(text_len as nat, category, entry_of(*dictionary_entry));
        let ghost power = length_power(text_len as nat, category);
        let length = text_len as u128;
        assert(length * length <= 0xFFFF_FFFF_FFFF_FFFF * 0xFFFF_FFFF_FFFF_FFFF)
            by (nonlinear_arith)
            requires
                0 <= length <= 0xFFFF_FFFF_FFFF_FFFF,
        ;
        let square = length * length;
        if square > 0xFFFF_FFFF_FFFF_FFFF {
            proof {
                assert(power >= square) by (nonlinear_arith)
                    requires
                        square == length * length,
                        square > 0,
                        length >= 0,
                        power == length * length * length || power == length * length,
                ;
                assert(exact >= power) by (nonlinear_arith)
                    requires
                        exact == base * power,
                        base >= 1,
                        power >= 0,
                ;
            }
            return u64::MAX;
        }
        let raised = if cubed {
            assert(square * length <= 0xFFFF_FFFF_FFFF_FFFF * 0xFFFF_FFFF_FFFF_FFFF)
                by (nonlinear_arith)
                requires
                    0 <= length <= 0xFFFF_FFFF_FFFF_FFFF,
                    0 <= square <= 0xFFFF_FFFF_FFFF_FFFF,
            ;
            square * length
        } else {
            square
        };
        assert(raised == power);
        if raised > 0xFFFF_FFFF_FFFF_FFFF {
            proof {
                assert(exact >= power) by (nonlinear_arith)
                    requires
                        exact == base * power,
                        base >= 1,
                        power >= 0,
                ;
            }
            return u64::MAX;
        }
        assert(base * raised <= 35 * 0xFFFF_FFFF_FFFF_FFFF) by (nonlinear_arith)
            requires
                0 <= base <= 35,
                0 <= raised <= 0xFFFF_FFFF_FFFF_FFFF,
        ;
        let product = base as u128 * raised;
        if product > 0xFFFF_FFFF_FFFF_FFFF {
            u64::MAX
        } else {
            product as u64
        }
    }

    /// The spans that start at `start` and end before `length`, shortest
    /// first: the candidates to look up in the dictionary.
    pub fn inner_loop<'a>(text: &'a str, start: usize, length: usize) -> (candidates: Vec<
        Candidate<'a>,
    >)
        requires
            length <= text@.len(),
        ensures
            candidates@.len() == if start + 1 < length {
                length - start - 1
            } else {
                0
            },
            forall|k: int|
                0 <= k < candidates@.len() ==> is_span_of(
                    #[trigger] candidates@[k],
                    text@,
                    start as int,
                    start + 1 + k,
                ),
    {
        let mut candidates: Vec<Candidate<'a>> = Vec::new();
        if start >= length {
            return candidates;
        }
        let mut end: usize = start + 1;
        while end < length
            invariant
                start < end <= length <= text@.len(),
                candidates@.len() == end - start - 1,
                forall|k: int|
                    0 <= k < candidates@.len() ==> is_span_of(
                        #[trigger] candidates@[k],
                        text@,
                        start as int,
                        start + 1 + k,
                    ),
            decreases length - end,
        {
            let surface = text.substring_char(start, end);
            candidates.push(Candidate { surface, start, end });
            end += 1;
        }
        candidates
    }

    /// The spans at `start` that stand for text outside the dictionary: for
    /// each kind of character that is tried, the span that it gives.
    pub fn inner_loop_unknown_term<'a>(
        force: bool,
        text: &'a str,
        start: usize,
        length: usize,
    ) -> (candidates: Vec<Candidate<'a>>)
        requires
            start < text@.len() <= usize::MAX,
            length <= text@.len(),
        ensures
            spans_of(candidates@) == unknown_spans(
                text@,
                start as int,
                length as int,
                force,
                CATEGORY_COUNT as int,
            ),
            forall|k: int|
                0 <= k < candidates@.len() ==> is_cut_from(#[trigger] candidates@[k], text@),
    {
        let mut candidates: Vec<Candidate<'a>> = Vec::new();
        let mut tried: usize = 0;
        while tried < CATEGORY_COUNT
            invariant
                tried <= CATEGORY_COUNT,
                start < text@.len() <= usize::MAX,
                length <= text@.len(),
                spans_of(candidates@) == unknown_spans(
                    text@,
                    start as int,
                    length as int,
                    force,
                    tried as int,
                ),
                forall|k: int|
                    0 <= k < candidates@.len() ==> is_cut_from(#[trigger] candidates@[k], text@),
            decreases CATEGORY_COUNT - tried,
        {
            let category = category_at(tried);
            tried += 1;
            if !force && !category.invoke() {
                continue ;
            }
            if category.group() {
                let limit: usize = if length == 0 {
                    0
                } else {
                    length - 1
                };
                let mut end: usize = start;
                while end < limit && category.contains(text.get_char(end))
                    invariant
                        start <= end < text@.len(),
                        length <= text@.len(),
                        limit + 1 == length || (limit == 0 && length == 0),
                        run_length(text@, category, start as int, length as int) == (end - start)
                            + run_length(text@, category, end as int, length as int),
                    decreases limit - end,
                {
                    end += 1;
                }
                if end == start {
                    continue ;
                }
                let surface = text.substring_char(start, end);
                let ghost listed = candidates@;
                candidates.push(Candidate { surface, start, end });
                assert(spans_of(candidates@) =~= spans_of(listed).push((start as int, end as int)));
            } else {
                if !category.contains(text.get_char(start)) {
                    continue ;
                }
                let end = start + 1;
                let surface = text.substring_char(start, end);
                let ghost listed = candidates@;
                candidates.push(Candidate { surface, start, end });
                assert(spans_of(candidates@) =~= spans_of(listed).push((start as int, end as int)));
            }
        }
        candidates
    }

    /// Looks every candidate up in the dictionary and lays a node into the
    /// lattice for every term found. Returns whether any term was found.
    fn add_terms<'a>(
        &self,
        lattice: &mut Lattice,
        text: &'a str,
        candidates: &Vec<Candidate<'a>>,
    ) -> (found_any_term: bool)
        requires
            old(lattice).well_formed(),
            old(lattice)@.length == text@.len(),
            candidates@.len() > 0 ==> candidates@[0].start + candidates@.len() < text@.len(),
            forall|k: int|
                0 <= k < candidates@.len() ==> is_span_of(
                    #[trigger] candidates@[k],
                    text@,
                    candidates@[0].start as int,
                    candidates@[0].start + 1 + k,
                ),
        ensures
            final(lattice).well_formed(),
            final(lattice)@.length == old(lattice)@.length,
            candidates@.len() > 0 ==> final(lattice)@.nodes == old(lattice)@.nodes
                + dictionary_nodes(
                self.dictionary()@,
                text@,
                candidates@[0].start as int,
                candidates@[0].start + 1 + candidates@.len(),
            ),
            candidates@.len() > 0 ==> found_any_term == (dictionary_nodes(
                self.dictionary()@,
                text@,
                candidates@[0].start as int,
                candidates@[0].start + 1 + candidates@.len(),
            ).len() > 0),
            candidates@.len() == 0 ==> final(lattice)@.nodes == old(lattice)@.nodes
                && !found_any_term,
    {
        proof {
            use_type_invariant(self);
        }
        let ghost dictionary = self.dictionary@;
        let ghost before = lattice@.nodes;
        let mut found_any_term = false;
        if candidates.len() == 0 {
            return false;
        }
        let start = candidates[0].start;
        let mut k: usize = 0;
        while k < candidates.len()
            invariant
                k <= candidates@.len(),
                candidates@.len() > 0,
                start == candidates@[0].start,
                dictionary == self.dictionary@,
                dictionary.well_formed(),
                lattice.well_formed(),
                lattice@.length == text@.len(),
                start + candidates@.len() < text@.len(),
                forall|k: int|
                    0 <= k < candidates@.len() ==> is_span_of(
                        #[trigger] candidates@[k],
                        text@,
                        start as int,
                        start + 1 + k,
                    ),
                lattice@.nodes == before + dictionary_nodes(
                    dictionary,
                    text@,
                    start as int,
                    start + 1 + k,
                ),
                found_any_term == (dictionary_nodes(
                    dictionary,
                    text@,
                    start as int,
                    start + 1 + k,
                ).len() > 0),
            decreases candidates@.len() - k,
        {
            let candidate = candidates[k];
            assert(is_span_of(candidates@[k as int], text@, start as int, start + 1 + k));
            let category = self.categorizer.categorize_word(candidate.surface);
            let term_entry = match category {
                WordCategory::Kana | WordCategory::Katakana => self.dictionary.lookup_kana(
                    candidate.surface,
                ),
                WordCategory::Word => self.dictionary.lookup_kanji(candidate.surface),
                WordCategory::NonWord => None,
            };
            let ghost laid = lattice@.nodes;
            let ghost here = term_nodes(dictionary, text@, start as int, start + 1 + k);
            let ghost found_before = found_any_term;
            if let Some(term_entries) = term_entry {
                assert(term_entries@ == dictionary_terms(dictionary, candidate.surface@, category));
                let mut i: usize = 0;
                while i < term_entries.len()
                    invariant
                        i <= term_entries@.len(),
                        dictionary == self.dictionary@,
                        dictionary.well_formed(),
                        lattice.well_formed(),
                        lattice@.length == text@.len(),
                        candidate.start == start,
                        candidate.end == start + 1 + k,
                        candidate.end < text@.len(),
                        candidate.surface@ == text@.subrange(start as int, start + 1 + k),
                        category == word_category(candidate.surface@),
                        term_entries@ == dictionary_terms(dictionary, candidate.surface@, category),
                        terms_name(term_entries@, dictionary),
                        here == term_nodes(dictionary, text@, start as int, start + 1 + k),
                        lattice@.nodes == laid + here.take(i as int),
                        found_any_term == (found_before || i > 0),
                    decreases term_entries@.len() - i,
                {
                    let term = term_entries[i];
                    assert(term_entries@[i as int].entry_index < dictionary.entries.len());
                    let dictionary_entry = &self.dictionary.entries()[term.entry_index as usize];
                    let term_id = dictionary_entry.term_id;
                    let score = Self::get_score(
                        candidate.end - candidate.start,
                        category,
                        &Some(dictionary_entry),
                    );
                    lattice.add_node(
                        LatticeNode {
                            term_id: Some(term_id),
                            start: candidate.start,
                            end: candidate.end,
                            score,
                        },
                    );
                    found_any_term = true;
                    assert(here.take(i + 1) =~= here.take(i as int).push(here[i as int]));
                    i += 1;
                }
                assert(here.take(here.len() as int) =~= here);
                assert(found_any_term == (found_before || here.len() > 0));
            } else {
                assert(here =~= Seq::<LatticeNode>::empty());
                assert(laid + here =~= laid);
            }
            assert(lattice@.nodes == laid + here);
            assert(before + dictionary_nodes(dictionary, text@, start as int, start + 1 + k) + here
                =~= before + dictionary_nodes(dictionary, text@, start as int, start + 1 + k + 1));
            k += 1;
        }
        found_any_term
    }

    /// Lays a node into the lattice for every unknown span.
    fn add_unknown<'a>(&self, lattice: &mut Lattice, text: &'a str, candidates: &Vec<Candidate<'a>>)
        requires
            old(lattice).well_formed(),
            old(lattice)@.length == text@.len(),
            forall|k: int|
                0 <= k < candidates@.len() ==> (#[trigger] candidates@[k]).start
                    < candidates@[k].end <= text@.len() && is_cut_from(candidates@[k], text@),
        ensures
            final(lattice).well_formed(),
            final(lattice)@.length == old(lattice)@.length,
            final(lattice)@.nodes == old(lattice)@.nodes + spans_of(candidates@).map_values(
                |span: (int, int)| unknown_node(text@, span),
            ),
    {
        let ghost before = lattice@.nodes;
        let ghost nodes = spans_of(candidates@).map_values(
            |span: (int, int)| unknown_node(text@, span),
        );
        let mut k: usize = 0;
        while k < candidates.len()
            invariant
                k <= candidates@.len(),
                lattice.well_formed(),
                lattice@.length == text@.len(),
                nodes == spans_of(candidates@).map_values(
                    |span: (int, int)| unknown_node(text@, span),
                ),
                forall|k: int|
                    0 <= k < candidates@.len() ==> (#[trigger] candidates@[k]).start
                        < candidates@[k].end <= text@.len() && is_cut_from(candidates@[k], text@),
                lattice@.nodes == before + nodes.take(k as int),
            decreases candidates@.len() - k,
        {
            let candidate = candidates[k];
            assert(candidates@[k as int].start < candidates@[k as int].end <= text@.len()
                && is_cut_from(candidates@[k as int], text@));
            let category = self.categorizer.categorize_word(candidate.surface);
            let score = Self::get_score(candidate.end - candidate.start, category, &None);
            lattice.add_node(
                LatticeNode { term_id: None, start: candidate.start, end: candidate.end, score },
            );
            assert(nodes.take(k + 1) =~= nodes.take(k as int).push(nodes[k as int]));
            k += 1;
        }
        assert(nodes.take(nodes.len() as int) =~= nodes);
    }

    /// Cuts `text` into tokens: the spans on the best path through the
    /// lattice of its candidate spans. The path leads from the first code
    /// point of the text to the one before its last, so the tokens cover the
    /// text without its last code point; where no path leads there, and for
    /// an empty text, there are no tokens. The spans under the tokens are
    /// not empty, and each starts where the one before it ends.
    pub fn tokenize<'a>(&self, text: &'a str) -> (tokens: Vec<Token<'a>>)
        ensures
            self.dictionary()@.well_formed(),
            text@.len() <= usize::MAX,
            token_views(tokens@) == tokens_of(self.dictionary()@, text@),
            is_chain(token_nodes(self.dictionary()@, text@), text@.len() - 1),
            tokens@.len() == token_nodes(self.dictionary()@, text@).len(),
            forall|k: int|
                0 <= k < tokens@.len() ==> (#[trigger] tokens@[k]).token@ == text@.subrange(
                    token_nodes(self.dictionary()@, text@)[k].start as int,
                    token_nodes(self.dictionary()@, text@)[k].end as int,
                ) && token_nodes(self.dictionary()@, text@)[k].end <= text@.len(),
            text@.len() == 0 ==> tokens@.len() == 0,
            forall|k: int| 0 <= k < tokens@.len() ==> (#[trigger] tokens@[k]).token@.len() > 0,
            joined_surfaces(token_views(tokens@)) == if tokens@.len() > 0 {
                text@.subrange(0, text@.len() - 1)
            } else {
                Seq::empty()
            },
            forall|k: int|
                0 <= k < tokens@.len() ==> ((#[trigger] tokens@[k]).term_id matches Some(term_id)
                    ==> is_dictionary_term(self.dictionary()@, tokens@[k].token@, term_id)),
    {
        proof {
            use_type_invariant(self);
        }
        let ghost dictionary = self.dictionary@;
        let length = text.unicode_len();
        let node_count = match length.checked_add(1) {
            Some(next) => match length.checked_mul(next) {
                Some(twice) => twice / 2,
                None => usize::MAX,
            },
            None => usize::MAX,
        };
        let mut lattice = Lattice::new(node_count, length);
        let mut start: usize = 0;
        while start < length
            invariant
                start <= length,
                length == text@.len(),
                dictionary == self.dictionary@,
                lattice.well_formed(),
                lattice@.length == length,
                lattice@.nodes == lattice_nodes(dictionary, text@, start as int),
            decreases length - start,
        {
            let candidates = Self::inner_loop(text, start, length);
            let found_any_term = self.add_terms(&mut lattice, text, &candidates);
            let unknown = Self::inner_loop_unknown_term(!found_any_term, text, start, length);
            proof {
                lemma_unknown_spans_within(
                    text@,
                    start as int,
                    length as int,
                    !found_any_term,
                    CATEGORY_COUNT as int,
                );
                assert forall|k: int| 0 <= k < unknown@.len() implies (#[trigger] unknown@[k]).start
                    < unknown@[k].end <= text@.len() by {
                    assert(spans_of(unknown@)[k] == span_of(unknown@[k]));
                }
                if candidates@.len() == 0 {
                    assert(dictionary_nodes(dictionary, text@, start as int, length as int)
                        =~= Seq::<LatticeNode>::empty());
                } else {
                    assert(candidates@[0].start == start);
                }
            }
            self.add_unknown(&mut lattice, text, &unknown);
            proof {
                let found = dictionary_nodes(dictionary, text@, start as int, length as int);
                assert(lattice@.nodes =~= lattice_nodes(dictionary, text@, start as int) + (found
                    + unknown_nodes(text@, start as int, found.len() == 0)));
            }
            start += 1;
        }
        let path = lattice.find_path();
        let ghost nodes = token_nodes(dictionary, text@);
        let mut tokens: Vec<Token<'a>> = Vec::new();
        let mut k: usize = 0;
        proof {
            lattice.lemma_path_within();
        }
        while k < path.len()
            invariant
                k <= path@.len(),
                length == text@.len(),
                nodes_of(path@) == nodes,
                forall|k: int|
                    0 <= k < nodes.len() ==> (#[trigger] nodes[k]).start < nodes[k].end <= length,
                tokens@.len() == k,
                forall|i: int| 0 <= i < k ==> (#[trigger] tokens@[i])@ == token_of(text@, nodes[i]),
            decreases path@.len() - k,
        {
            let node = path[k];
            assert(nodes_of(path@)[k as int] == *path@[k as int]);
            assert(nodes[k as int].start < nodes[k as int].end <= length);
            tokens.push(
                Token { term_id: node.term_id, token: text.substring_char(node.start, node.end) },
            );
            k += 1;
        }
        assert(token_views(tokens@) =~= tokens_of(dictionary, text@));
        proof {
            lemma_tokens_are_adjacent_spans(dictionary, text@);
            lemma_surfaces_cover_text(dictionary, text@);
            lemma_tokens_name_dictionary_terms(dictionary, text@);
            assert forall|k: int|
                0 <= k < tokens@.len() implies (#[trigger] tokens@[k]).token@.len()
                > 0 && (tokens@[k].term_id matches Some(term_id) ==> is_dictionary_term(
                dictionary,
                tokens@[k].token@,
                term_id,
            )) && tokens@[k].token@ == text@.subrange(nodes[k].start as int, nodes[k].end as int)
                && nodes[k].end <= text@.len() by {
                assert(token_views(tokens@)[k] == tokens@[k]@);
                assert(tokens_of(dictionary, text@)[k].surface.len() > 0);
                assert(nodes[k].start < nodes[k].end <= text@.len());
            }
        }
        tokens
    }
}

} // verus!
