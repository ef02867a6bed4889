//! What holds of every tokenization.

use crate::character::CATEGORY_COUNT;
use crate::dictionary::{terms_within, DictionaryEntry, DictionaryView};
use crate::lattice::{
    best_path_indices, is_chain, is_path, lemma_best_path_is_chain, lemma_best_path_is_optimal,
    path_score, LatticeNode,
};
use crate::tokenizer::{
    dictionary_nodes, dictionary_terms, lattice_nodes, lemma_unknown_spans_within, length_power,
    score_base, score_of, term_nodes, token_nodes, token_of, tokens_of, unknown_nodes,
    unknown_spans, TokenView,
};
use crate::word::{word_category, WordCategory};
use vstd::prelude::*;

verus! {

/// The dictionary holds, under `surface` looked up as the tokenizer looks it
/// up, a term of an entry whose identifier is `term_id`.
pub open spec fn is_dictionary_term(
    dictionary: DictionaryView,
    surface: Seq<char>,
    term_id: u32,
) -> bool {
    let terms = dictionary_terms(dictionary, surface, word_category(surface));
    exists|i: int|
        0 <= i < terms.len() && (#[trigger] terms[i]).entry_index < dictionary.entries.len()
            && dictionary.entries[terms[i].entry_index as int].term_id == term_id
}

/// A node of the lattice of `text` is a non-empty span of the text with a
/// positive score, and where it carries a term the dictionary holds that term
/// under the characters of the span.
pub open spec fn is_sound_node(
    dictionary: DictionaryView,
    text: Seq<char>,
    node: LatticeNode,
) -> bool {
    &&& node.start < node.end <= text.len()
    &&& node.score > 0
    &&& node.term_id matches Some(term_id) ==> is_dictionary_term(
        dictionary,
        text.subrange(node.start as int, node.end as int),
        term_id,
    )
}

/// The surfaces of the tokens, one behind the other.
pub open spec fn joined_surfaces(tokens: Seq<TokenView>) -> Seq<char>
    decreases tokens.len(),
{
    if tokens.len() == 0 {
        Seq::empty()
    } else {
        joined_surfaces(tokens.drop_last()) + tokens.last().surface
    }
}

/// A span of at least one code point has a positive score.
pub proof fn lemma_score_is_positive(
    length: nat,
    category: WordCategory,
    entry: Option<DictionaryEntry>,
)
    requires
        length > 0,
    ensures
        score_of(length, category, entry) > 0,
{
    let base = score_base(category, entry);
    let power = length_power(length, category);
    assert(length * length >= 1) by (nonlinear_arith)
        requires
            length >= 1,
    ;
    assert(length * length * length >= 1) by (nonlinear_arith)
        requires
            length >= 1,
    ;
    assert(base * power >= 1) by (nonlinear_arith)
        requires
            base >= 1,
            power >= 1,
    ;
}

/// A longer span scores no less than a shorter one of the same category and
/// entry.
pub proof fn lemma_score_is_monotone(
    shorter: nat,
    longer: nat,
    category: WordCategory,
    entry: Option<DictionaryEntry>,
)
    requires
        shorter <= longer,
    ensures
        score_of(shorter, category, entry) <= score_of(longer, category, entry),
{
    let base = score_base(category, entry);
    assert(shorter * shorter <= longer * longer) by (nonlinear_arith)
        requires
            shorter <= longer,
    ;
    assert(shorter * shorter * shorter <= longer * longer * longer) by (nonlinear_arith)
        requires
            shorter <= longer,
    ;
    assert(base * length_power(shorter, category) <= base * length_power(longer, category))
        by (nonlinear_arith)
        requires
            length_power(shorter, category) <= length_power(longer, category),
    ;
}

/// The nodes for the terms found under one span of the text are sound.
proof fn lemma_term_nodes_are_sound(
    dictionary: DictionaryView,
    text: Seq<char>,
    start: int,
    end: int,
)
    requires
        dictionary.well_formed(),
        0 <= start < end <= text.len() <= usize::MAX,
    ensures
        forall|k: int|
            0 <= k < term_nodes(dictionary, text, start, end).len() ==> is_sound_node(
                dictionary,
                text,
                #[trigger] term_nodes(dictionary, text, start, end)[k],
            ),
{
    let surface = text.subrange(start, end);
    let category = word_category(surface);
    let terms = dictionary_terms(dictionary, surface, category);
    let nodes = term_nodes(dictionary, text, start, end);
    assert forall|k: int| 0 <= k < nodes.len() implies is_sound_node(
        dictionary,
        text,
        #[trigger] nodes[k],
    ) by {
        if dictionary.kana.contains_key(surface) {
            assert(terms_within(dictionary.kana[surface], dictionary.entries.len()));
        }
        if dictionary.kanji.contains_key(surface) {
            assert(terms_within(dictionary.kanji[surface], dictionary.entries.len()));
        }
        assert(terms[k].entry_index < dictionary.entries.len());
        let entry = dictionary.entries[terms[k].entry_index as int];
        lemma_score_is_positive((end - start) as nat, category, Some(entry));
    }
}

/// The nodes for the terms found at one position of the text are sound.
proof fn lemma_dictionary_nodes_are_sound(
    dictionary: DictionaryView,
    text: Seq<char>,
    start: int,
    limit: int,
)
    requires
        dictionary.well_formed(),
        0 <= start,
        limit <= text.len() <= usize::MAX,
    ensures
        forall|k: int|
            0 <= k < dictionary_nodes(dictionary, text, start, limit).len() ==> is_sound_node(
                dictionary,
                text,
                #[trigger] dictionary_nodes(dictionary, text, start, limit)[k],
            ),
    decreases limit - start,
{
    if limit > start + 1 {
        lemma_dictionary_nodes_are_sound(dictionary, text, start, limit - 1);
        lemma_term_nodes_are_sound(dictionary, text, start, limit - 1);
        let before = dictionary_nodes(dictionary, text, start, limit - 1);
        let here = term_nodes(dictionary, text, start, limit - 1);
        let nodes = dictionary_nodes(dictionary, text, start, limit);
        assert forall|k: int| 0 <= k < nodes.len() implies is_sound_node(
            dictionary,
            text,
            #[trigger] nodes[k],
        ) by {
            if k < before.len() {
                assert(nodes[k] == before[k]);
            } else {
                assert(nodes[k] == here[k - before.len()]);
            }
        }
    }
}

/// The nodes for the unknown spans at one position of the text are sound.
proof fn lemma_unknown_nodes_are_sound(
    dictionary: DictionaryView,
    text: Seq<char>,
    start: int,
    force: bool,
)
    requires
        0 <= start < text.len() <= usize::MAX,
    ensures
        forall|k: int|
            0 <= k < unknown_nodes(text, start, force).len() ==> is_sound_node(
                dictionary,
                text,
                #[trigger] unknown_nodes(text, start, force)[k],
            ),
{
    let spans = unknown_spans(text, start, text.len() as int, force, CATEGORY_COUNT as int);
    let nodes = unknown_nodes(text, start, force);
    lemma_unknown_spans_within(text, start, text.len() as int, force, CATEGORY_COUNT as int);
    assert forall|k: int| 0 <= k < nodes.len() implies is_sound_node(
        dictionary,
        text,
        #[trigger] nodes[k],
    ) by {
        let span = spans[k];
        assert(span.0 == start && start < span.1 <= text.len());
        lemma_score_is_positive(
            (span.1 - span.0) as nat,
            word_category(text.subrange(span.0, span.1)),
            None,
        );
    }
}

/// Every node that the tokenizer lays into the lattice of a text is a
/// non-empty span of the text with a positive score, and a node that carries
/// a term carries one that the dictionary holds under the span's characters.
pub proof fn lemma_lattice_nodes_are_sound(
    dictionary: DictionaryView,
    text: Seq<char>,
    position: int,
)
    requires
        dictionary.well_formed(),
        position <= text.len() <= usize::MAX,
    ensures
        forall|k: int|
            0 <= k < lattice_nodes(dictionary, text, position).len() ==> is_sound_node(
                dictionary,
                text,
                #[trigger] lattice_nodes(dictionary, text, position)[k],
            ),
    decreases position,
{
    if position > 0 {
        let start = position - 1;
        lemma_lattice_nodes_are_sound(dictionary, text, start);
        lemma_dictionary_nodes_are_sound(dictionary, text, start, text.len() as int);
        let found = dictionary_nodes(dictionary, text, start, text.len() as int);
        lemma_unknown_nodes_are_sound(dictionary, text, start, found.len() == 0);
        let unknown = unknown_nodes(text, start, found.len() == 0);
        let before = lattice_nodes(dictionary, text, start);
        let nodes = lattice_nodes(dictionary, text, position);
        assert(nodes == before + (found + unknown));
        assert forall|k: int| 0 <= k < nodes.len() implies is_sound_node(
            dictionary,
            text,
            #[trigger] nodes[k],
        ) by {
            if k < before.len() {
                assert(nodes[k] == before[k]);
            } else if k < before.len() + found.len() {
                assert(nodes[k] == found[k - before.len()]);
            } else {
                assert(nodes[k] == unknown[k - before.len() - found.len()]);
            }
        }
    }
}

/// The spans under the tokens are non-empty spans of the text, each starts
/// where the one before it ends, the first starts at position 0, and the last
/// ends one code point before the end of the text. Each token's surface is
/// the characters of its span, so no surface is empty.
pub proof fn lemma_tokens_are_adjacent_spans(dictionary: DictionaryView, text: Seq<char>)
    requires
        dictionary.well_formed(),
        text.len() <= usize::MAX,
    ensures
        is_chain(token_nodes(dictionary, text), text.len() - 1),
        tokens_of(dictionary, text).len() == token_nodes(dictionary, text).len(),
        forall|k: int|
            0 <= k < token_nodes(dictionary, text).len() ==> {
                let node = #[trigger] token_nodes(dictionary, text)[k];
                &&& node.start < node.end <= text.len()
                &&& tokens_of(dictionary, text)[k].surface == text.subrange(
                    node.start as int,
                    node.end as int,
                )
                &&& tokens_of(dictionary, text)[k].surface.len() == node.end - node.start
            },
        forall|k: int|
            0 <= k < tokens_of(dictionary, text).len() ==> (#[trigger] tokens_of(
                dictionary,
                text,
            )[k]).surface.len() > 0,
{
    let nodes = lattice_nodes(dictionary, text, text.len() as int);
    let path = token_nodes(dictionary, text);
    lemma_lattice_nodes_are_sound(dictionary, text, text.len() as int);
    lemma_best_path_is_chain(nodes, text.len());
    assert forall|k: int| 0 <= k < path.len() implies (#[trigger] path[k]).start < path[k].end
        <= text.len() by {
        assert(nodes.contains(path[k]));
        let j = choose|j: int| 0 <= j < nodes.len() && nodes[j] == path[k];
        assert(is_sound_node(dictionary, text, nodes[j]));
    }
}

/// A returned token that carries a term identifier carries that of a
/// dictionary entry which the dictionary holds under the token's surface,
/// looked up as the tokenizer looks it up.
pub proof fn lemma_tokens_name_dictionary_terms(dictionary: DictionaryView, text: Seq<char>)
    requires
        dictionary.well_formed(),
        text.len() <= usize::MAX,
    ensures
        forall|k: int|
            0 <= k < tokens_of(dictionary, text).len() ==> ((#[trigger] tokens_of(
                dictionary,
                text,
            )[k]).term_id matches Some(term_id) ==> is_dictionary_term(
                dictionary,
                tokens_of(dictionary, text)[k].surface,
                term_id,
            )),
{
    let nodes = lattice_nodes(dictionary, text, text.len() as int);
    let path = token_nodes(dictionary, text);
    let tokens = tokens_of(dictionary, text);
    lemma_lattice_nodes_are_sound(dictionary, text, text.len() as int);
    lemma_best_path_is_chain(nodes, text.len());
    assert forall|k: int|
        0 <= k < tokens.len() implies ((#[trigger] tokens[k]).term_id matches Some(
        term_id,
    ) ==> is_dictionary_term(dictionary, tokens[k].surface, term_id)) by {
        assert(nodes.contains(path[k]));
        let j = choose|j: int| 0 <= j < nodes.len() && nodes[j] == path[k];
        assert(is_sound_node(dictionary, text, nodes[j]));
        assert(tokens[k] == token_of(text, path[k]));
    }
}

/// The surfaces of the tokens of a chain of spans, joined, are the text from
/// the start of the first span to the end of the last.
proof fn lemma_joined_chain(text: Seq<char>, path: Seq<LatticeNode>)
    requires
        path.len() > 0,
        forall|k: int|
            0 <= k < path.len() ==> (#[trigger] path[k]).start < path[k].end <= text.len(),
        forall|k: int| 0 <= k < path.len() - 1 ==> (#[trigger] path[k]).end == path[k + 1].start,
    ensures
        joined_surfaces(path.map_values(|node: LatticeNode| token_of(text, node))) == text.subrange(
            path[0].start as int,
            path.last().end as int,
        ),
        path[0].start < path.last().end,
    decreases path.len(),
{
    let tokens = path.map_values(|node: LatticeNode| token_of(text, node));
    let before = path.drop_last();
    assert(tokens.drop_last() =~= before.map_values(|node: LatticeNode| token_of(text, node)));
    if path.len() == 1 {
        assert(joined_surfaces(tokens.drop_last()) =~= Seq::<char>::empty());
        assert(joined_surfaces(tokens) =~= text.subrange(
            path[0].start as int,
            path.last().end as int,
        ));
    } else {
        assert forall|k: int| 0 <= k < before.len() implies (#[trigger] before[k]).start
            < before[k].end <= text.len() by {
            assert(before[k] == path[k]);
        }
        assert forall|k: int| 0 <= k < before.len() - 1 implies (#[trigger] before[k]).end
            == before[k + 1].start by {
            assert(before[k] == path[k]);
            assert(before[k + 1] == path[k + 1]);
        }
        lemma_joined_chain(text, before);
        assert(before.last() == path[path.len() - 2]);
        assert(path[path.len() - 2].end == path[path.len() - 2 + 1].start);
        assert(before[0] == path[0]);
        assert(text.subrange(path[0].start as int, before.last().end as int) + text.subrange(
            path.last().start as int,
            path.last().end as int,
        ) =~= text.subrange(path[0].start as int, path.last().end as int));
    }
}

/// The surfaces of the tokens, joined, are the text up to its last code
/// point, which no token covers; where there is no token they are empty. So
/// an empty text is given back whole.
pub proof fn lemma_surfaces_cover_text(dictionary: DictionaryView, text: Seq<char>)
    requires
        dictionary.well_formed(),
        text.len() <= usize::MAX,
    ensures
        joined_surfaces(tokens_of(dictionary, text)) == if tokens_of(dictionary, text).len() > 0 {
            text.subrange(0, text.len() - 1)
        } else {
            Seq::empty()
        },
        text.len() == 0 ==> joined_surfaces(tokens_of(dictionary, text)) == text,
{
    let path = token_nodes(dictionary, text);
    lemma_tokens_are_adjacent_spans(dictionary, text);
    if path.len() > 0 {
        lemma_joined_chain(text, path);
    } else {
        assert(text.len() == 0 ==> text =~= Seq::<char>::empty());
    }
}

/// An empty text has no tokens.
pub proof fn lemma_empty_text_has_no_tokens(dictionary: DictionaryView, text: Seq<char>)
    requires
        text.len() == 0,
    ensures
        tokens_of(dictionary, text).len() == 0,
{
}

/// The two dictionaries have the same entries and the same terms under the
/// same surfaces.
pub open spec fn same_content(dictionary: DictionaryView, other: DictionaryView) -> bool {
    &&& dictionary.entries =~= other.entries
    &&& dictionary.kanji =~= other.kanji
    &&& dictionary.kana =~= other.kana
}

/// Dictionaries of the same content give the same nodes for the terms found
/// at one position.
proof fn lemma_dictionary_nodes_are_determined(
    dictionary: DictionaryView,
    other: DictionaryView,
    text: Seq<char>,
    start: int,
    limit: int,
)
    requires
        same_content(dictionary, other),
    ensures
        dictionary_nodes(dictionary, text, start, limit) == dictionary_nodes(
            other,
            text,
            start,
            limit,
        ),
    decreases limit - start,
{
    if limit > start + 1 {
        lemma_dictionary_nodes_are_determined(dictionary, other, text, start, limit - 1);
        assert(term_nodes(dictionary, text, start, limit - 1) =~= term_nodes(
            other,
            text,
            start,
            limit - 1,
        ));
    }
}

/// Dictionaries of the same content give the same lattice.
proof fn lemma_lattice_nodes_are_determined(
    dictionary: DictionaryView,
    other: DictionaryView,
    text: Seq<char>,
    position: int,
)
    requires
        same_content(dictionary, other),
    ensures
        lattice_nodes(dictionary, text, position) == lattice_nodes(other, text, position),
    decreases position,
{
    if position > 0 {
        lemma_lattice_nodes_are_determined(dictionary, other, text, position - 1);
        lemma_dictionary_nodes_are_determined(
            dictionary,
            other,
            text,
            position - 1,
            text.len() as int,
        );
    }
}

/// The tokens are a function of the text and of the dictionary's entries and
/// terms: texts of equal characters, cut with dictionaries that hold the same
/// entries and the same terms under the same surfaces, give equal tokens, in
/// whatever order the surfaces were entered.
pub proof fn lemma_tokens_are_determined(
    dictionary: DictionaryView,
    text: Seq<char>,
    other_dictionary: DictionaryView,
    other_text: Seq<char>,
)
    requires
        same_content(dictionary, other_dictionary),
        text =~= other_text,
    ensures
        tokens_of(dictionary, text) == tokens_of(other_dictionary, other_text),
{
    lemma_lattice_nodes_are_determined(dictionary, other_dictionary, text, text.len() as int);
}

/// No path through the lattice of a text, from position 0 to the position
/// before its last code point, scores more than the path of the tokens; and
/// of the paths with that score none ends with a node laid earlier.
pub proof fn lemma_tokens_follow_best_path(
    dictionary: DictionaryView,
    text: Seq<char>,
    other: Seq<int>,
)
    requires
        dictionary.well_formed(),
        text.len() <= usize::MAX,
        is_path(lattice_nodes(dictionary, text, text.len() as int), other, text.len() - 1),
    ensures
        tokens_of(dictionary, text).len() > 0,
        path_score(
            lattice_nodes(dictionary, text, text.len() as int),
            best_path_indices(lattice_nodes(dictionary, text, text.len() as int), text.len()),
        ) >= path_score(lattice_nodes(dictionary, text, text.len() as int), other),
        path_score(
            lattice_nodes(dictionary, text, text.len() as int),
            best_path_indices(lattice_nodes(dictionary, text, text.len() as int), text.len()),
        ) == path_score(lattice_nodes(dictionary, text, text.len() as int), other)
            ==> best_path_indices(
            lattice_nodes(dictionary, text, text.len() as int),
            text.len(),
        ).last() <= other.last(),
{
    let nodes = lattice_nodes(dictionary, text, text.len() as int);
    lemma_lattice_nodes_are_sound(dictionary, text, text.len() as int);
    assert forall|j: int| 0 <= j < nodes.len() implies (#[trigger] nodes[j]).score > 0 by {
        assert(is_sound_node(dictionary, text, nodes[j]));
    }
    lemma_best_path_is_optimal(nodes, text.len(), other);
}

} // verus!
