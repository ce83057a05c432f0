use vstd::prelude::*;
use crate::lexicon::collect_chars;

verus! {

/// Characters that words are made of.
pub open spec fn is_letter(c: char) -> bool {
    ('a' <= c <= 'z') || ('A' <= c <= 'Z') || c == '\''
}

/// Characters that stand between words: whitespace and the pause mark `.`.
pub open spec fn is_separator(c: char) -> bool {
    c == ' ' || c == '\t' || c == '\n' || c == '\r' || c == '.'
}

/// Characters that the grammar knows at all.
pub open spec fn is_known(c: char) -> bool {
    is_letter(c) || is_separator(c)
}

/// Index of the first character from `i` on that the grammar does not know,
/// or the length when there is none.
pub open spec fn first_unknown(s: Seq<char>, i: int) -> int
    decreases s.len() - i,
{
    if i < 0 || i >= s.len() {
        s.len() as int
    } else if !is_known(s[i]) {
        i
    } else {
        first_unknown(s, i + 1)
    }
}

/// The spans `[start, end)` of the maximal runs of letters in `s` from `i`
/// on, where a run that began at `b` before `i` is still open when `cur` is
/// `Some(b)`.
pub open spec fn spans_from(s: Seq<char>, i: int, cur: Option<int>) -> Seq<(int, int)>
    decreases s.len() - i,
{
    if i < 0 || i >= s.len() {
        match cur {
            Some(b) => seq![(b, s.len() as int)],
            None => Seq::empty(),
        }
    } else if is_letter(s[i]) {
        spans_from(s, i + 1, if cur is Some { cur } else { Some(i) })
    } else {
        match cur {
            Some(b) => seq![(b, i)] + spans_from(s, i + 1, None),
            None => spans_from(s, i + 1, None),
        }
    }
}

/// The spans of the words of `s`, left to right.
pub open spec fn word_spans(s: Seq<char>) -> Seq<(int, int)> {
    spans_from(s, 0, None)
}

/// Text conforms to the grammar when it is made of letters and separators
/// only, and holds at least one word.
pub open spec fn conforms(s: Seq<char>) -> bool {
    first_unknown(s, 0) == s.len() && word_spans(s).len() > 0
}

/// A word of the input: its text and its byte span `[start, end)`.
#[derive(Debug, Clone, PartialEq, Eq)]
pub struct Token {
    pub text: String,
    pub start: usize,
    pub end: usize,
}

/// A node of a parse tree.
#[derive(Debug, PartialEq, Eq)]
pub enum Node {
    /// The whole text: the entry production.
    Text(Vec<Node>),
    /// Any other grouping production.
    Group(Vec<Node>),
    /// A word terminal.
    Word(Token),
    /// A production that carries nothing to validate.
    Other,
}

/// The spans of a sequence of word nodes.
pub open spec fn node_spans(cs: Seq<Node>) -> Seq<(int, int)> {
    cs.map_values(|n: Node| (n->Word_0.start as int, n->Word_0.end as int))
}

/// `t` is the tree of `s`: a text node whose children are the words of `s`,
/// left to right, each with its own characters and span.
pub open spec fn is_tree_of(t: Node, s: Seq<char>) -> bool {
    &&& t is Text
    &&& forall|k: int| 0 <= k < t->Text_0@.len() ==> (#[trigger] t->Text_0@[k]) is Word
    &&& node_spans(t->Text_0@) == word_spans(s)
    &&& forall|k: int|
        0 <= k < t->Text_0@.len() ==> (#[trigger] t->Text_0@[k])->Word_0.text@ == s.subrange(
            t->Text_0@[k]->Word_0.start as int,
            t->Text_0@[k]->Word_0.end as int,
        )
}

/// The grammar's own diagnostic: where it stopped, and why.
#[derive(Debug, Clone, PartialEq, Eq)]
pub struct SyntaxError {
    pub pos: usize,
    pub message: String,
}

/// Whether `c` is a letter of a word.
pub fn is_letter_char(c: char) -> (r: bool)
    ensures
        r == is_letter(c),
{
    ('a' <= c && c <= 'z') || ('A' <= c && c <= 'Z') || c == '\''
}

/// Whether `c` separates words.
pub fn is_separator_char(c: char) -> (r: bool)
    ensures
        r == is_separator(c),
{
    c == ' ' || c == '\t' || c == '\n' || c == '\r' || c == '.'
}

proof fn lemma_known_ascii(s: Seq<char>)
    requires
        first_unknown(s, 0) == s.len(),
    ensures
        forall|k: int| 0 <= k < s.len() ==> is_known(#[trigger] s[k]),
{
    assert forall|k: int| 0 <= k < s.len() implies is_known(#[trigger] s[k]) by {
        lemma_first_unknown_after(s, 0, k);
    }
}

proof fn lemma_first_unknown_after(s: Seq<char>, i: int, k: int)
    requires
        0 <= i <= k < s.len(),
        first_unknown(s, i) == s.len(),
    ensures
        is_known(s[k]),
    decreases k - i,
{
    if i < k {
        lemma_first_unknown_after(s, i + 1, k);
    }
}

/// Text that conforms to the grammar is ASCII.
pub proof fn lemma_conforming_is_ascii(s: Seq<char>)
    requires
        conforms(s),
    ensures
        vstd::utf8::is_ascii_chars(s),
{
    lemma_known_ascii(s);
}

/// Parses text with the grammar, from its entry production.
pub fn parse_text(input: &str) -> (r: Result<Node, SyntaxError>)
    ensures
        r is Ok <==> conforms(input@),
        match r {
            Ok(t) => is_tree_of(t, input@) && input.is_ascii(),
            Err(e) => {
                &&& e.pos == first_unknown(input@, 0)
                &&& e.message@ == (if e.pos < input@.len() {
                    "unexpected character"@
                } else {
                    "expected a word"@
                })
            },
        },
{
    let chars = collect_chars(input);
    let n = chars.len();
    let ghost s = input@;
    let mut i: usize = 0;
    while i < n && (is_letter_char(chars[i]) || is_separator_char(chars[i]))
        invariant
            chars@ == s,
            n == s.len(),
            i <= n,
            first_unknown(s, i as int) == first_unknown(s, 0),
        decreases n - i,
    {
        i = i + 1;
    }
    if i < n {
        return Err(SyntaxError { pos: i, message: String::from_str("unexpected character") });
    }
    proof {
        lemma_known_ascii(s);
        assert(vstd::string::is_ascii(input));
    }
    let mut children: Vec<Node> = Vec::new();
    let mut cur: Option<usize> = None;
    let mut j: usize = 0;
    while j < n
        invariant
            chars@ == s,
            s == input@,
            n == s.len(),
            j <= n,
            input.is_ascii(),
            forall|k: int| 0 <= k < s.len() ==> is_known(#[trigger] s[k]),
            cur is Some ==> cur->0 < j,
            cur is Some ==> forall|k: int| cur->0 <= k < j ==> is_letter(#[trigger] s[k]),
            forall|k: int| 0 <= k < children@.len() ==> (#[trigger] children@[k]) is Word,
            forall|k: int|
                0 <= k < children@.len() ==> (#[trigger] children@[k])->Word_0.text@
                    == s.subrange(
                    children@[k]->Word_0.start as int,
                    children@[k]->Word_0.end as int,
                ),
            node_spans(children@) + spans_from(
                s,
                j as int,
                match cur {
                    Some(b) => Some(b as int),
                    None => None,
                },
            ) == word_spans(s),
        decreases n - j,
    {
        let ghost before = children@;
        if is_letter_char(chars[j]) {
            if cur.is_none() {
                cur = Some(j);
            }
        } else {
            if let Some(b) = cur {
                let word = input.substring_ascii(b, j);
                children.push(Node::Word(Token { text: String::from_str(word), start: b, end: j }));
                assert(children@[children@.len() - 1]->Word_0.text@ == s.subrange(b as int, j as int));
                assert(node_spans(children@) =~= node_spans(before) + seq![(b as int, j as int)]);
                cur = None;
            }
        }
        j = j + 1;
    }
    if let Some(b) = cur {
        let ghost before = children@;
        let word = input.substring_ascii(b, n);
        children.push(Node::Word(Token { text: String::from_str(word), start: b, end: n }));
        assert(node_spans(children@) =~= node_spans(before) + seq![(b as int, n as int)]);
    }
    assert(node_spans(children@) =~= word_spans(s));
    if children.len() == 0 {
        return Err(SyntaxError { pos: n, message: String::from_str("expected a word") });
    }
    Ok(Node::Text(children))
}

} // verus!
