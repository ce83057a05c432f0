//! Parsing of Lojban text with lexical validation of every word against
//! closed word lists.
//!
//! Text is first parsed with the grammar into a tree; each word terminal of
//! the tree is then looked up among the particles and the roots. The first
//! problem found, a syntax error or the leftmost unrecognized word, is
//! reported with its position.
mod error;
mod grammar;
mod laws;
mod lexicon;
mod pipeline;
mod validate;

pub use error::LojbanParseError;
pub use grammar::{
    conforms, first_unknown, is_known, is_letter, is_letter_char, is_separator,
    is_separator_char, is_tree_of, lemma_conforming_is_ascii, node_spans, parse_text, spans_from,
    word_spans, Node, SyntaxError, Token,
};
pub use laws::{
    lemma_empty_is_syntax_error, lemma_error_span_is_token, lemma_leftmost_unknown_word_reported,
    lemma_nonconforming_is_syntax_error, lemma_outcome_repeatable, lemma_recognized_text_accepted,
};
pub use lexicon::{
    collect_chars, entries, entry_of, first_field, is_space, is_space_char, load_wordlist,
    normalize_entry, skip_field, skip_spaces, views, Lexicon, WordSet, WordlistError,
};
pub use pipeline::{
    all_words_accepted, build_lexicon, input_words, is_first_invalid, lemma_tree_leaves,
    parse_lojban, parse_outcome, word_at,
};
pub use validate::{
    all_accepted, is_first_rejected, leaves, leaves_of, lemma_leaves_of_concat, validate_words,
    validation_outcome,
};
