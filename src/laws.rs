use vstd::prelude::*;
use crate::error::LojbanParseError;
use crate::grammar::{conforms, first_unknown, is_letter, spans_from, word_spans, Token};
use crate::lexicon::Lexicon;
use crate::pipeline::{
    all_words_accepted, input_words, is_first_invalid, lemma_tree_leaves, parse_outcome, word_at,
};
use crate::validate::leaves;
use vstd::string::StringSliceAdditionalSpecFns;

verus! {

/// Every span of a word lies inside the text and is not empty.
proof fn lemma_spans_inside(s: Seq<char>, i: int, cur: Option<int>)
    requires
        0 <= i <= s.len(),
        cur is Some ==> 0 <= cur->0 < i,
    ensures
        forall|k: int|
            0 <= k < spans_from(s, i, cur).len() ==> 0 <= (#[trigger] spans_from(s, i, cur)[k]).0
                < spans_from(s, i, cur)[k].1 <= s.len(),
    decreases s.len() - i,
{
    if i == s.len() {
        assert(cur is Some ==> spans_from(s, i, cur) == seq![(cur->0, s.len() as int)]);
    } else {
        if is_letter(s[i]) {
            let next = if cur is Some { cur } else { Some(i) };
            lemma_spans_inside(s, i + 1, next);
            assert(spans_from(s, i, cur) == spans_from(s, i + 1, next));
        } else {
            lemma_spans_inside(s, i + 1, None);
            if cur is None {
                assert(spans_from(s, i, cur) == spans_from(s, i + 1, None));
            } else {
                let rest = spans_from(s, i + 1, None);
                let all = spans_from(s, i, cur);
                assert(all == seq![(cur->0, i)] + rest);
                assert forall|k: int| 0 <= k < all.len() implies 0 <= (#[trigger] all[k]).0
                    < all[k].1 <= s.len() by {
                    if k > 0 {
                        assert(all[k] == rest[k - 1]);
                    }
                }
            }
        }
    }
}

/// Two indices that both name the leftmost unrecognized word are equal.
proof fn lemma_first_invalid_unique(lex: Lexicon, s: Seq<char>, k1: int, k2: int)
    requires
        is_first_invalid(lex, s, k1),
        is_first_invalid(lex, s, k2),
    ensures
        k1 == k2,
{
    if k1 < k2 {
        assert(lex.accepts(word_at(s, k1)));
    } else if k2 < k1 {
        assert(lex.accepts(word_at(s, k2)));
    }
}

/// Text that conforms to the grammar and whose words are all recognized is
/// accepted, and the tree's word leaves are exactly the words of the text, in
/// order.
pub proof fn lemma_recognized_text_accepted(lex: Lexicon, s: Seq<char>, r: Result<crate::grammar::Node, LojbanParseError>)
    requires
        parse_outcome(lex, s, r),
        conforms(s),
        all_words_accepted(lex, s),
    ensures
        r is Ok,
        leaves(r->Ok_0).map_values(|t: Token| t.text@) == input_words(s),
{
    let t = r->Ok_0;
    lemma_tree_leaves(t, s);
    assert(leaves(t).map_values(|t: Token| t.text@) =~= input_words(s));
}

/// When some word is not recognized, the error names the leftmost such word,
/// with its span.
pub proof fn lemma_leftmost_unknown_word_reported(
    lex: Lexicon,
    s: Seq<char>,
    r: Result<crate::grammar::Node, LojbanParseError>,
    k: int,
)
    requires
        parse_outcome(lex, s, r),
        conforms(s),
        is_first_invalid(lex, s, k),
    ensures
        r is Err,
        r->Err_0.is_invalid_word(word_at(s, k), word_spans(s)[k].0, word_spans(s)[k].1),
{
    let e = r->Err_0;
    let j = choose|j: int|
        is_first_invalid(lex, s, j) && #[trigger] e.is_invalid_word(
            word_at(s, j),
            word_spans(s)[j].0,
            word_spans(s)[j].1,
        );
    lemma_first_invalid_unique(lex, s, j, k);
}

/// Text that does not conform to the grammar gives a syntax error, never a
/// word error.
pub proof fn lemma_nonconforming_is_syntax_error(
    lex: Lexicon,
    s: Seq<char>,
    r: Result<crate::grammar::Node, LojbanParseError>,
)
    requires
        parse_outcome(lex, s, r),
        !conforms(s),
    ensures
        r is Err,
        r->Err_0 is Syntax,
{
}

/// The same text and lexicon always give the same outcome: the same
/// classification, position, word and span.
pub proof fn lemma_outcome_repeatable(
    lex: Lexicon,
    s: Seq<char>,
    r1: Result<crate::grammar::Node, LojbanParseError>,
    r2: Result<crate::grammar::Node, LojbanParseError>,
)
    requires
        parse_outcome(lex, s, r1),
        parse_outcome(lex, s, r2),
    ensures
        r1 is Ok <==> r2 is Ok,
        r1 is Ok ==> leaves(r1->Ok_0).map_values(|t: Token| (t.text@, t.start, t.end))
            == leaves(r2->Ok_0).map_values(|t: Token| (t.text@, t.start, t.end)),
        r1 is Err ==> r1->Err_0.same_report(r2->Err_0),
{
    if r1 is Ok {
        lemma_tree_leaves(r1->Ok_0, s);
        lemma_tree_leaves(r2->Ok_0, s);
        assert(leaves(r1->Ok_0).map_values(|t: Token| (t.text@, t.start, t.end))
            =~= leaves(r2->Ok_0).map_values(|t: Token| (t.text@, t.start, t.end)));
    } else if r1->Err_0 is InvalidWord {
        let e1 = r1->Err_0;
        let e2 = r2->Err_0;
        let j1 = choose|j: int|
            is_first_invalid(lex, s, j) && #[trigger] e1.is_invalid_word(
                word_at(s, j),
                word_spans(s)[j].0,
                word_spans(s)[j].1,
            );
        let j2 = choose|j: int|
            is_first_invalid(lex, s, j) && #[trigger] e2.is_invalid_word(
                word_at(s, j),
                word_spans(s)[j].0,
                word_spans(s)[j].1,
            );
        lemma_first_invalid_unique(lex, s, j1, j2);
    }
}

/// Empty text is a syntax error at position zero.
pub proof fn lemma_empty_is_syntax_error(lex: Lexicon, r: Result<crate::grammar::Node, LojbanParseError>)
    requires
        parse_outcome(lex, Seq::<char>::empty(), r),
    ensures
        r is Err,
        r->Err_0 is Syntax,
        r->Err_0->Syntax_0.pos == 0,
{
    assert(word_spans(Seq::<char>::empty()).len() == 0);
    assert(first_unknown(Seq::<char>::empty(), 0) == 0);
}

/// The span of an unrecognized word, taken as bytes of the input, is exactly
/// that word.
pub proof fn lemma_error_span_is_token(
    lex: Lexicon,
    input: &str,
    r: Result<crate::grammar::Node, LojbanParseError>,
    w: Seq<char>,
    a: int,
    b: int,
)
    requires
        parse_outcome(lex, input@, r),
        r is Err,
        r->Err_0.is_invalid_word(w, a, b),
    ensures
        0 <= a < b <= input.spec_bytes().len(),
        input@.subrange(a, b) == w,
        input.spec_bytes().subrange(a, b) == vstd::utf8::encode_utf8(w),
{
    let s = input@;
    let e = r->Err_0;
    let k = choose|k: int|
        is_first_invalid(lex, s, k) && #[trigger] e.is_invalid_word(
            word_at(s, k),
            word_spans(s)[k].0,
            word_spans(s)[k].1,
        );
    lemma_spans_inside(s, 0, None);
    assert(word_spans(s)[k] == spans_from(s, 0, None)[k]);
    crate::grammar::lemma_conforming_is_ascii(s);
    vstd::utf8::is_ascii_chars_encode_utf8(s);
    vstd::utf8::is_ascii_chars_encode_utf8(w);
    assert(input.spec_bytes().subrange(a, b) =~= vstd::utf8::encode_utf8(w));
}

} // verus!
