use vstd::prelude::*;
use crate::error::LojbanParseError;
use crate::grammar::{Node, Token};
use crate::lexicon::Lexicon;

verus! {

/// The word tokens of a tree, in the order of a depth-first, left-to-right walk.
pub open spec fn leaves(n: Node) -> Seq<Token>
    decreases n,
{
    match n {
        Node::Text(cs) => leaves_of(cs@),
        Node::Group(cs) => leaves_of(cs@),
        Node::Word(t) => seq![t],
        Node::Other => Seq::empty(),
    }
}

/// The word tokens of a sequence of trees, in order.
pub open spec fn leaves_of(cs: Seq<Node>) -> Seq<Token>
    decreases cs,
{
    if cs.len() == 0 {
        Seq::empty()
    } else {
        leaves_of(cs.subrange(0, cs.len() - 1)) + leaves(cs[cs.len() - 1])
    }
}

/// Every word is recognized.
pub open spec fn all_accepted(lex: Lexicon, ws: Seq<Token>) -> bool {
    forall|k: int| 0 <= k < ws.len() ==> lex.accepts(#[trigger] ws[k].text@)
}

/// The word at `k` is the first that is not recognized.
pub open spec fn is_first_rejected(lex: Lexicon, ws: Seq<Token>, k: int) -> bool {
    &&& 0 <= k < ws.len()
    &&& !lex.accepts(ws[k].text@)
    &&& forall|j: int| 0 <= j < k ==> lex.accepts(#[trigger] ws[j].text@)
}

/// `r` is what validating the words `ws` gives: success when every word is
/// recognized, else the error that names the first word that is not.
pub open spec fn validation_outcome(
    lex: Lexicon,
    ws: Seq<Token>,
    r: Result<(), LojbanParseError>,
) -> bool {
    match r {
        Ok(_) => all_accepted(lex, ws),
        Err(e) => exists|k: int|
            is_first_rejected(lex, ws, k) && #[trigger] e.is_invalid_word(
                ws[k].text@,
                ws[k].start as int,
                ws[k].end as int,
            ),
    }
}

/// The leaves of two sequences of trees, one after the other, are the
/// leaves of each, one after the other.
pub proof fn lemma_leaves_of_concat(a: Seq<Node>, b: Seq<Node>)
    ensures
        leaves_of(a + b) == leaves_of(a) + leaves_of(b),
    decreases b.len(),
{
    if b.len() == 0 {
        assert(a + b =~= a);
        assert(leaves_of(a) + leaves_of(b) =~= leaves_of(a));
    } else {
        let c = a + b;
        assert(c.subrange(0, c.len() - 1) =~= a + b.subrange(0, b.len() - 1));
        lemma_leaves_of_concat(a, b.subrange(0, b.len() - 1));
        assert(leaves_of(a + b) =~= leaves_of(a) + leaves_of(b));
    }
}

proof fn lemma_first_rejected_within(
    lex: Lexicon,
    pre: Seq<Token>,
    mid: Seq<Token>,
    post: Seq<Token>,
    k: int,
)
    requires
        all_accepted(lex, pre),
        is_first_rejected(lex, mid, k),
    ensures
        is_first_rejected(lex, pre + mid + post, pre.len() + k),
        (pre + mid + post)[pre.len() + k] == mid[k],
{
    let ws = pre + mid + post;
    assert forall|j: int| 0 <= j < pre.len() + k implies lex.accepts(#[trigger] ws[j].text@) by {
        if j < pre.len() {
            assert(ws[j] == pre[j]);
        } else {
            assert(ws[j] == mid[j - pre.len()]);
        }
    }
}

/// Checks every word of a tree against the word lists, walking it depth
/// first and left to right, and stops at the first word that is not
/// recognized.
pub fn validate_words(node: &Node, lexicon: &Lexicon) -> (r: Result<(), LojbanParseError>)
    ensures
        r is Ok <==> all_accepted(*lexicon, leaves(*node)),
        validation_outcome(*lexicon, leaves(*node), r),
    decreases node,
{
    match node {
        Node::Word(t) => {
            if lexicon.recognizes(&t.text) {
                Ok(())
            } else {
                let ghost ws = leaves(*node);
                let e = LojbanParseError::InvalidWord {
                    word: t.text.clone(),
                    expected_type: String::from_str("lojban word"),
                    span: (t.start, t.end),
                };
                assert(is_first_rejected(*lexicon, ws, 0));
                assert(e.is_invalid_word(ws[0].text@, ws[0].start as int, ws[0].end as int));
                Err(e)
            }
        },
        Node::Other => Ok(()),
        Node::Text(cs) | Node::Group(cs) => {
            assert(leaves(*node) == leaves_of(cs@));
            let mut i: usize = 0;
            while i < cs.len()
                invariant
                    i <= cs@.len(),
                    node is Text ==> *cs == node->Text_0,
                    node is Group ==> *cs == node->Group_0,
                    node is Text || node is Group,
                    leaves(*node) == leaves_of(cs@),
                    all_accepted(*lexicon, leaves_of(cs@.subrange(0, i as int))),
                decreases cs@.len() - i,
            {
                proof {
                    if node is Text {
                        assert(decreases_to!(*node => node->Text_0));
                    } else if node is Group {
                        assert(decreases_to!(*node => node->Group_0));
                    }
                    vstd::std_specs::vec::axiom_vec_index_decreases(*cs, i as int);
                }
                let ghost pre = cs@.subrange(0, i as int);
                let ghost post = cs@.subrange(i as int + 1, cs@.len() as int);
                proof {
                    assert(cs@ =~= pre + seq![cs@[i as int]] + post);
                    lemma_leaves_of_concat(pre + seq![cs@[i as int]], post);
                    lemma_leaves_of_concat(pre, seq![cs@[i as int]]);
                    assert(seq![cs@[i as int]].subrange(0, 0) =~= Seq::<Node>::empty());
                    assert(leaves_of(Seq::<Node>::empty()) =~= Seq::<Token>::empty());
                    assert(leaves_of(seq![cs@[i as int]]) =~= leaves(cs@[i as int]));
                    assert(cs@.subrange(0, i as int + 1) =~= pre + seq![cs@[i as int]]);
                }
                match validate_words(&cs[i], lexicon) {
                    Ok(()) => {},
                    Err(e) => {
                        proof {
                            let mid = leaves(cs@[i as int]);
                            let k = choose|k: int|
                                is_first_rejected(*lexicon, mid, k) && #[trigger] e.is_invalid_word(
                                    mid[k].text@,
                                    mid[k].start as int,
                                    mid[k].end as int,
                                );
                            lemma_first_rejected_within(
                                *lexicon,
                                leaves_of(pre),
                                mid,
                                leaves_of(post),
                                k,
                            );
                            let ws = leaves(*node);
                            assert(ws == leaves_of(pre) + mid + leaves_of(post));
                            let kk = leaves_of(pre).len() + k;
                            assert(is_first_rejected(*lexicon, ws, kk));
                            assert(e.is_invalid_word(ws[kk].text@, ws[kk].start as int, ws[kk].end as int));
                        }
                        return Err(e);
                    },
                }
                i = i + 1;
            }
            assert(cs@.subrange(0, cs@.len() as int) =~= cs@);
            Ok(())
        },
    }
}

} // verus!
