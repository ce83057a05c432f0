use vstd::prelude::*;

verus! {

/// Whitespace as Unicode's `White_Space` property defines it.
pub open spec fn is_space(c: char) -> bool {
    ('\u{9}' <= c <= '\u{d}') || c == ' ' || c == '\u{85}' || c == '\u{a0}' || c == '\u{1680}'
        || ('\u{2000}' <= c <= '\u{200a}') || c == '\u{2028}' || c == '\u{2029}' || c
        == '\u{202f}' || c == '\u{205f}' || c == '\u{3000}'
}

/// The characters of a string, in order.
pub fn collect_chars(s: &str) -> (r: Vec<char>)
    ensures
        r@ == s@,
{
    broadcast use vstd::string::axiom_spec_iter;
    let mut v: Vec<char> = Vec::new();
    for c in it: s.chars()
        invariant
            it.seq() == s@,
            v@ == it.seq().take(it.index() as int),
    {
        v.push(c);
    }
    v
}


/// The first index at or after `i` that does not hold whitespace.
pub open spec fn skip_spaces(s: Seq<char>, i: int) -> int
    decreases s.len() - i,
{
    if 0 <= i < s.len() && is_space(s[i]) {
        skip_spaces(s, i + 1)
    } else {
        i
    }
}

/// The first index at or after `i` that holds whitespace, or the end.
pub open spec fn skip_field(s: Seq<char>, i: int) -> int
    decreases s.len() - i,
{
    if 0 <= i < s.len() && !is_space(s[i]) {
        skip_field(s, i + 1)
    } else {
        i
    }
}

/// The first whitespace-delimited field of a line.
pub open spec fn first_field(line: Seq<char>) -> Seq<char> {
    let start = skip_spaces(line, 0);
    line.subrange(start, skip_field(line, start))
}

/// The entry that a word-list line contributes: its first field with one
/// leading `.` removed, when what remains is not empty.
pub open spec fn entry_of(line: Seq<char>) -> Option<Seq<char>> {
    let f = first_field(line);
    let w = if f.len() > 0 && f[0] == '.' {
        f.drop_first()
    } else {
        f
    };
    if w.len() > 0 {
        Some(w)
    } else {
        None
    }
}

/// Whether `c` is whitespace (Unicode `White_Space`).
pub fn is_space_char(c: char) -> (r: bool)
    ensures
        r == is_space(c),
{
    ('\u{9}' <= c && c <= '\u{d}') || c == ' ' || c == '\u{85}' || c == '\u{a0}' || c
        == '\u{1680}' || ('\u{2000}' <= c && c <= '\u{200a}') || c == '\u{2028}' || c
        == '\u{2029}' || c == '\u{202f}' || c == '\u{205f}' || c == '\u{3000}'
}

/// Normalizes one word-list line into the entry it contributes, if any.
pub fn normalize_entry(line: &str) -> (r: Option<String>)
    ensures
        match r {
            Some(w) => entry_of(line@) == Some(w@),
            None => entry_of(line@) is None,
        },
{
    let chars = collect_chars(line);
    let n = chars.len();
    let mut start: usize = 0;
    while start < n && is_space_char(chars[start])
        invariant
            chars@ == line@,
            n == chars@.len(),
            start <= n,
            skip_spaces(line@, start as int) == skip_spaces(line@, 0),
        decreases n - start,
    {
        start = start + 1;
    }
    let mut end: usize = start;
    while end < n && !is_space_char(chars[end])
        invariant
            chars@ == line@,
            n == chars@.len(),
            start <= end <= n,
            start == skip_spaces(line@, 0),
            skip_field(line@, end as int) == skip_field(line@, start as int),
        decreases n - end,
    {
        end = end + 1;
    }
    if start < end && chars[start] == '.' {
        start = start + 1;
    }
    if start < end {
        let field = line.substring_char(start, end);
        Some(String::from_str(field))
    } else {
        None
    }
}


/// A closed set of words, compared by exact string equality.
#[derive(Debug, Clone)]
pub struct WordSet {
    words: Vec<String>,
}

impl WordSet {
    /// The words held.
    pub closed spec fn view(&self) -> Set<Seq<char>> {
        Set::new(|w: Seq<char>| exists|i: int| 0 <= i < self.words@.len() && self.words@[i]@ == w)
    }

    /// No word is stored twice.
    pub closed spec fn wf(&self) -> bool {
        forall|i: int, j: int|
            0 <= i < j < self.words@.len() ==> self.words@[i]@ != self.words@[j]@
    }

    /// Number of distinct words held.
    pub closed spec fn spec_len(&self) -> nat {
        self.words@.len()
    }

    /// An empty set.
    pub fn new() -> (r: WordSet)
        ensures
            r.wf(),
            r@ == Set::<Seq<char>>::empty(),
            r.spec_len() == 0,
    {
        let r = WordSet { words: Vec::new() };
        assert(r@ =~= Set::<Seq<char>>::empty());
        r
    }

    /// Number of distinct words held.
    pub fn len(&self) -> (r: usize)
        ensures
            r == self.spec_len(),
    {
        self.words.len()
    }

    /// Whether `w` is one of the words, by exact equality.
    pub fn contains(&self, w: &String) -> (r: bool)
        ensures
            r == self@.contains(w@),
    {
        let mut i: usize = 0;
        while i < self.words.len()
            invariant
                0 <= i <= self.words@.len(),
                forall|k: int| 0 <= k < i ==> self.words@[k]@ != w@,
            decreases self.words@.len() - i,
        {
            if self.words[i] == *w {
                return true;
            }
            i = i + 1;
        }
        false
    }

    /// Adds `w`; a word already present is not added again.
    pub fn insert(&mut self, w: String)
        requires
            old(self).wf(),
        ensures
            final(self).wf(),
            final(self)@ == old(self)@.insert(w@),
            final(self).spec_len() == old(self).spec_len() + (if old(self)@.contains(w@) {
                0int
            } else {
                1int
            }),
    {
        if !self.contains(&w) {
            let ghost before = self.words@;
            self.words.push(w);
            assert forall|x: Seq<char>| #[trigger] self@.contains(x) == old(self)@.insert(w@).contains(x) by {
                if x == w@ {
                    assert(self.words@[before.len() as int]@ == x);
                } else if old(self)@.contains(x) {
                    let i = choose|i: int| 0 <= i < before.len() && before[i]@ == x;
                    assert(self.words@[i]@ == x);
                }
            }
            assert(self@ =~= old(self)@.insert(w@));
        } else {
            assert(old(self)@.insert(w@) =~= old(self)@);
        }
    }
}

/// The entries that a sequence of word-list lines contributes.
pub open spec fn entries(lines: Seq<Seq<char>>) -> Set<Seq<char>>
    decreases lines.len(),
{
    if lines.len() == 0 {
        Set::empty()
    } else {
        let rest = entries(lines.drop_last());
        match entry_of(lines.last()) {
            Some(w) => rest.insert(w),
            None => rest,
        }
    }
}

/// The views of a vector of strings.
pub open spec fn views(lines: Seq<String>) -> Seq<Seq<char>> {
    lines.map_values(|l: String| l@)
}

/// Why a word list could not be turned into a lexicon.
#[derive(Debug, Clone, PartialEq, Eq)]
pub enum WordlistError {
    /// The source could not be read; the reader's own message.
    Unreadable(String),
    /// The source holds no entry.
    Empty,
}

/// Builds a word set from the lines of a word list. A list without any entry
/// is refused.
pub fn load_wordlist(lines: &Vec<String>) -> (r: Result<WordSet, WordlistError>)
    ensures
        match r {
            Ok(set) => set.wf() && set@ == entries(views(lines@)),
            Err(e) => e is Empty,
        },
        r is Ok <==> entries(views(lines@)) != Set::<Seq<char>>::empty(),
{
    let mut set = WordSet::new();
    let mut i: usize = 0;
    while i < lines.len()
        invariant
            0 <= i <= lines@.len(),
            set.wf(),
            set@ == entries(views(lines@).take(i as int)),
            set@.finite(),
        decreases lines@.len() - i,
    {
        assert(views(lines@).take(i as int + 1).drop_last() =~= views(lines@).take(i as int));
        if let Some(w) = normalize_entry(lines[i].as_str()) {
            set.insert(w);
        }
        i = i + 1;
    }
    assert(views(lines@).take(lines@.len() as int) =~= views(lines@));
    if set.len() == 0 {
        assert(set@ =~= Set::<Seq<char>>::empty());
        Err(WordlistError::Empty)
    } else {
        assert(set@.contains(set.words@[0]@));
        Ok(set)
    }
}


/// The word lists that text is checked against: particles, content roots,
/// and affixes (held for word formation, never consulted by validation).
#[derive(Debug, Clone)]
pub struct Lexicon {
    pub particles: WordSet,
    pub roots: WordSet,
    pub affixes: WordSet,
}

impl Lexicon {
    /// A word is recognized when it is a particle or a root.
    pub open spec fn accepts(&self, w: Seq<char>) -> bool {
        self.particles@.contains(w) || self.roots@.contains(w)
    }

    /// A lexicon of the three given sets.
    pub fn new(particles: WordSet, roots: WordSet, affixes: WordSet) -> (r: Lexicon)
        ensures
            r.particles@ == particles@,
            r.roots@ == roots@,
            r.affixes@ == affixes@,
    {
        Lexicon { particles, roots, affixes }
    }

    /// Whether `w` is a recognized word: looked up among the particles, then
    /// among the roots.
    pub fn recognizes(&self, w: &String) -> (r: bool)
        ensures
            r == self.accepts(w@),
    {
        self.particles.contains(w) || self.roots.contains(w)
    }
}

} // verus!
