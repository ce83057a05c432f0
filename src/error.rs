use vstd::prelude::*;
use crate::grammar::SyntaxError;
use crate::lexicon::WordlistError;

verus! {

/// Everything that can stop text from being accepted.
#[derive(Debug, PartialEq, Eq)]
pub enum LojbanParseError {
    /// The text does not conform to the grammar.
    Syntax(SyntaxError),
    /// The text conforms, but holds a word that no word list knows.
    InvalidWord { word: String, expected_type: String, span: (usize, usize) },
    /// A word list could not be loaded.
    Load(WordlistError),
}

impl LojbanParseError {
    /// Whether two errors report the same thing: the same kind, and the same
    /// position, word and span.
    pub open spec fn same_report(&self, other: LojbanParseError) -> bool {
        match (*self, other) {
            (LojbanParseError::Syntax(a), LojbanParseError::Syntax(b)) => a.pos == b.pos
                && a.message@ == b.message@,
            (
                LojbanParseError::InvalidWord { word: w1, expected_type: t1, span: s1 },
                LojbanParseError::InvalidWord { word: w2, expected_type: t2, span: s2 },
            ) => w1@ == w2@ && t1@ == t2@ && s1 == s2,
            (LojbanParseError::Load(_), LojbanParseError::Load(_)) => true,
            _ => false,
        }
    }

    /// Whether this error is the invalid word `word` at `[start, end)`.
    pub open spec fn is_invalid_word(&self, word: Seq<char>, start: int, end: int) -> bool {
        match self {
            LojbanParseError::InvalidWord { word: w, expected_type, span } => {
                &&& w@ == word
                &&& expected_type@ == "lojban word"@
                &&& span.0 == start
                &&& span.1 == end
            },
            _ => false,
        }
    }
}

} // verus!
