use vstd::prelude::*;
use crate::error::LojbanParseError;
use crate::grammar::{conforms, first_unknown, is_tree_of, parse_text, word_spans, Node, Token};
use crate::lexicon::{load_wordlist, Lexicon, WordlistError};
use crate::validate::{all_accepted, leaves, leaves_of, validate_words, validation_outcome};

verus! {

/// The characters of the `k`-th word of `s`.
pub open spec fn word_at(s: Seq<char>, k: int) -> Seq<char> {
    s.subrange(word_spans(s)[k].0, word_spans(s)[k].1)
}

/// The words of `s`, left to right.
pub open spec fn input_words(s: Seq<char>) -> Seq<Seq<char>> {
    Seq::new(word_spans(s).len(), |k: int| word_at(s, k))
}

/// Every word of `s` is recognized.
pub open spec fn all_words_accepted(lex: Lexicon, s: Seq<char>) -> bool {
    forall|k: int| 0 <= k < word_spans(s).len() ==> lex.accepts(#[trigger] word_at(s, k))
}

/// The `k`-th word of `s` is the leftmost one that is not recognized.
pub open spec fn is_first_invalid(lex: Lexicon, s: Seq<char>, k: int) -> bool {
    &&& 0 <= k < word_spans(s).len()
    &&& !lex.accepts(word_at(s, k))
    &&& forall|j: int| 0 <= j < k ==> lex.accepts(#[trigger] word_at(s, j))
}

/// `r` is what parsing and validating `s` against `lex` gives.
pub open spec fn parse_outcome(lex: Lexicon, s: Seq<char>, r: Result<Node, LojbanParseError>) -> bool {
    match r {
        Ok(t) => conforms(s) && all_words_accepted(lex, s) && is_tree_of(t, s),
        Err(LojbanParseError::Syntax(e)) => {
            &&& !conforms(s)
            &&& e.pos == first_unknown(s, 0)
            &&& e.message@ == (if e.pos < s.len() {
                "unexpected character"@
            } else {
                "expected a word"@
            })
        },
        Err(LojbanParseError::Load(_)) => false,
        Err(e) => conforms(s) && exists|k: int|
            is_first_invalid(lex, s, k) && #[trigger] e.is_invalid_word(
                word_at(s, k),
                word_spans(s)[k].0,
                word_spans(s)[k].1,
            ),
    }
}

/// The leaves of a sequence of word nodes are their tokens.
proof fn lemma_leaves_of_words(cs: Seq<Node>)
    requires
        forall|k: int| 0 <= k < cs.len() ==> (#[trigger] cs[k]) is Word,
    ensures
        leaves_of(cs) == cs.map_values(|n: Node| n->Word_0),
    decreases cs.len(),
{
    if cs.len() > 0 {
        let init = cs.subrange(0, cs.len() - 1);
        assert forall|k: int| 0 <= k < init.len() implies (#[trigger] init[k]) is Word by {
            assert(init[k] == cs[k]);
        }
        lemma_leaves_of_words(init);
        let last = cs[cs.len() - 1];
        assert(last is Word);
        assert(leaves(last) == seq![last->Word_0]);
        assert(leaves_of(cs) == leaves_of(init) + leaves(last));
        assert(leaves_of(cs) =~= cs.map_values(|n: Node| n->Word_0));
    }
}

/// The word tokens of the tree of `s` are the words of `s`, with their spans.
pub proof fn lemma_tree_leaves(t: Node, s: Seq<char>)
    requires
        is_tree_of(t, s),
    ensures
        leaves(t).len() == word_spans(s).len(),
        forall|k: int|
            0 <= k < leaves(t).len() ==> {
                &&& (#[trigger] leaves(t)[k]).text@ == word_at(s, k)
                &&& leaves(t)[k].start == word_spans(s)[k].0
                &&& leaves(t)[k].end == word_spans(s)[k].1
            },
{
    let cs = t->Text_0@;
    lemma_leaves_of_words(cs);
    assert forall|k: int| 0 <= k < leaves(t).len() implies {
        &&& (#[trigger] leaves(t)[k]).text@ == word_at(s, k)
        &&& leaves(t)[k].start == word_spans(s)[k].0
        &&& leaves(t)[k].end == word_spans(s)[k].1
    } by {
        assert(leaves(t)[k] == cs[k]->Word_0);
        assert(crate::grammar::node_spans(cs)[k] == word_spans(s)[k]);
    }
}

/// Parses `input` with the grammar, then checks each of its words against
/// the lexicon. Returns the tree, or the first problem found: a syntax error,
/// or else the leftmost word that no word list recognizes.
pub fn parse_lojban(input: &str, lexicon: &Lexicon) -> (r: Result<Node, LojbanParseError>)
    ensures
        parse_outcome(*lexicon, input@, r),
        r is Ok <==> conforms(input@) && all_words_accepted(*lexicon, input@),
        !(r is Err && r->Err_0 is Syntax) ==> input.is_ascii(),
{
    let tree = match parse_text(input) {
        Ok(t) => t,
        Err(e) => {
            return Err(LojbanParseError::Syntax(e));
        },
    };
    proof {
        lemma_tree_leaves(tree, input@);
    }
    match validate_words(&tree, lexicon) {
        Ok(()) => {
            assert forall|k: int| 0 <= k < word_spans(input@).len() implies lexicon.accepts(
                #[trigger] word_at(input@, k),
            ) by {
                assert(leaves(tree)[k].text@ == word_at(input@, k));
            }
            Ok(tree)
        },
        Err(e) => {
            proof {
                let ws = leaves(tree);
                let k = choose|k: int|
                    crate::validate::is_first_rejected(*lexicon, ws, k) && #[trigger] e.is_invalid_word(
                        ws[k].text@,
                        ws[k].start as int,
                        ws[k].end as int,
                    );
                assert forall|j: int| 0 <= j < k implies lexicon.accepts(
                    #[trigger] word_at(input@, j),
                ) by {
                    assert(lexicon.accepts(ws[j].text@));
                }
                assert(is_first_invalid(*lexicon, input@, k));
                assert(e.is_invalid_word(word_at(input@, k), word_spans(input@)[k].0, word_spans(input@)[k].1));
                assert(!all_words_accepted(*lexicon, input@));
            }
            Err(e)
        },
    }
}

/// Builds the lexicon from the lines of its three word lists. Any list that
/// holds no entry is a load error.
pub fn build_lexicon(
    particles: &Vec<String>,
    roots: &Vec<String>,
    affixes: &Vec<String>,
) -> (r: Result<Lexicon, LojbanParseError>)
    ensures
        match r {
            Ok(lex) => {
                &&& lex.particles@ == crate::lexicon::entries(crate::lexicon::views(particles@))
                &&& lex.roots@ == crate::lexicon::entries(crate::lexicon::views(roots@))
                &&& lex.affixes@ == crate::lexicon::entries(crate::lexicon::views(affixes@))
            },
            Err(e) => e == LojbanParseError::Load(WordlistError::Empty),
        },
        r is Ok <==> {
            &&& crate::lexicon::entries(crate::lexicon::views(particles@)) != Set::<Seq<char>>::empty()
            &&& crate::lexicon::entries(crate::lexicon::views(roots@)) != Set::<Seq<char>>::empty()
            &&& crate::lexicon::entries(crate::lexicon::views(affixes@)) != Set::<Seq<char>>::empty()
        },
{
    let p = match load_wordlist(particles) {
        Ok(s) => s,
        Err(e) => {
            return Err(LojbanParseError::Load(e));
        },
    };
    let g = match load_wordlist(roots) {
        Ok(s) => s,
        Err(e) => {
            return Err(LojbanParseError::Load(e));
        },
    };
    let a = match load_wordlist(affixes) {
        Ok(s) => s,
        Err(e) => {
            return Err(LojbanParseError::Load(e));
        },
    };
    Ok(Lexicon::new(p, g, a))
}

} // verus!
