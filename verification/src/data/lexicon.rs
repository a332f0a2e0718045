//! Lexicons: abbreviations, acronyms and symbols, and what they expand to.
//!
//! The first line may name the lexicon. The rest has a descriptor's syntax,
//! a word for each key. A word is matched without regard to ASCII case, unless
//! its key begins with `\x`: then the rest of it is matched exactly.
use vstd::prelude::*;
use super::chars::{
    begins, chars_of, equal, equal_ignoring_case, lines, pieces, push_decimal, push_str, rest,
    same_letters, split_lines, starts_with, text_of, trim, trimmed, written,
};
use super::descriptor::{find_separator, parse_lines, parsed, separator, Descriptor, Entry, Pair};
use super::error::{Error, Fault};
use super::text::{chars_auto, text_in};

verus! {

/// One word and its expansion.
#[derive(Debug, Clone, PartialEq, Eq)]
pub struct LexEntry {
    /// The word.
    pub word: String,
    /// What it expands to.
    pub expansion: String,
    /// Whether it is matched exactly.
    pub case_sensitive: bool,
    /// Its line in the file, counted from one.
    pub line: usize,
}

/// One word as mathematics.
pub struct LexWord {
    /// The word.
    pub word: Seq<char>,
    /// What it expands to.
    pub expansion: Seq<char>,
    /// Whether it is matched exactly.
    pub case_sensitive: bool,
    /// Its line in the file, counted from one.
    pub line: int,
}

impl View for LexEntry {
    type V = LexWord;

    open spec fn view(&self) -> LexWord {
        LexWord {
            word: self.word@,
            expansion: self.expansion@,
            case_sensitive: self.case_sensitive,
            line: self.line as int,
        }
    }
}

/// A lexicon.
#[derive(Debug, Clone, PartialEq, Eq)]
pub struct Lexicon {
    /// The name on the first line, empty where there is none.
    pub name: String,
    /// The words, in file order.
    pub entries: Vec<LexEntry>,
}

/// A lexicon as mathematics.
pub struct LexView {
    /// The name on the first line.
    pub name: Seq<char>,
    /// The words, in file order.
    pub words: Seq<LexWord>,
}

impl View for Lexicon {
    type V = LexView;

    open spec fn view(&self) -> LexView {
        LexView { name: self.name@, words: self.entries@.map_values(|e: LexEntry| e@) }
    }
}

impl Default for Lexicon {
    fn default() -> (r: Self)
        ensures
            r@ == (LexView { name: Seq::empty(), words: Seq::empty() }),
    {
        let r = Lexicon { name: String::new(), entries: Vec::new() };
        assert(r@.words =~= Seq::empty());
        r
    }
}

/// Whether a line holds a pair rather than a name.
pub open spec fn is_entry(s: Seq<char>) -> bool {
    separator(s, 0, false) < s.len() && trimmed(s.subrange(0, separator(s, 0, false))).len() > 0
}

/// The name that a lexicon's lines begin with, empty where they begin
/// otherwise.
pub open spec fn header_of(ls: Seq<Seq<char>>) -> Seq<char> {
    if ls.len() == 0 {
        Seq::empty()
    } else {
        let first = trimmed(ls[0]);
        if first.len() > 0 && first[0] != ';' && !is_entry(first) {
            first
        } else {
            Seq::empty()
        }
    }
}

/// The lines with a name on the first one blanked.
pub open spec fn body_lines(ls: Seq<Seq<char>>) -> Seq<Seq<char>> {
    if header_of(ls).len() > 0 {
        ls.update(0, Seq::empty())
    } else {
        ls
    }
}

/// A pair's key with its index put back.
pub open spec fn whole_key(p: Pair) -> Seq<char> {
    match p.index {
        Some(i) => p.key + "["@ + written(i as nat, 10) + "]"@,
        None => p.key,
    }
}

/// The word that a pair defines.
pub open spec fn word_of(p: Pair) -> LexWord {
    let key = whole_key(p);
    let exact = begins(key, "\\x"@);
    LexWord {
        word: if exact {
            key.subrange(2, key.len() as int)
        } else {
            key
        },
        expansion: p.value,
        case_sensitive: exact,
        line: p.line,
    }
}

/// What reading a lexicon's lines gives.
pub open spec fn lexicon_parsed(
    name: Seq<char>,
    ls: Seq<Seq<char>>,
    r: Result<LexView, Fault>,
) -> bool {
    match r {
        Ok(l) => {
            &&& l.name == header_of(ls)
            &&& exists|pairs: Seq<Pair>|
                {
                    &&& #[trigger] parsed(name, body_lines(ls), Ok(pairs))
                    &&& l.words == pairs.map_values(|p: Pair| word_of(p))
                }
        },
        Err(e) => parsed(name, body_lines(ls), Err(e)),
    }
}

/// The first exactly matched word from `from` on that is `word`, or the
/// length.
pub open spec fn first_exact(words: Seq<LexWord>, word: Seq<char>, from: int) -> int
    decreases words.len() - from,
{
    if from < 0 || from >= words.len() {
        words.len() as int
    } else if words[from].case_sensitive && words[from].word == word {
        from
    } else {
        first_exact(words, word, from + 1)
    }
}

/// The first loosely matched word from `from` on that is `word`, or the
/// length.
pub open spec fn first_loose(words: Seq<LexWord>, word: Seq<char>, from: int) -> int
    decreases words.len() - from,
{
    if from < 0 || from >= words.len() {
        words.len() as int
    } else if !words[from].case_sensitive && same_letters(words[from].word, word) {
        from
    } else {
        first_loose(words, word, from + 1)
    }
}

/// What a word expands to: as an exact word first, and as a loose one
/// otherwise.
pub open spec fn expansion_of(words: Seq<LexWord>, word: Seq<char>) -> Option<Seq<char>> {
    let exact = first_exact(words, word, 0);
    let loose = first_loose(words, word, 0);
    if 0 <= exact < words.len() {
        Some(words[exact].expansion)
    } else if 0 <= loose < words.len() {
        Some(words[loose].expansion)
    } else {
        None
    }
}

/// Whether a line holds a pair rather than a name.
fn looks_like_entry(s: &[char]) -> (r: bool)
    ensures
        r == is_entry(s@),
{
    let eq: usize = find_separator(s);
    eq < s.len() && trim(vstd::slice::slice_subrange(s, 0, eq)).len() > 0
}

/// A pair's key with its index put back.
fn key_with_index(e: &Entry) -> (r: Vec<char>)
    ensures
        r@ == whole_key(e@),
{
    let mut key: Vec<char> = chars_of(e.key.as_str());
    if let Some(i) = e.index {
        push_str(&mut key, "[");
        push_decimal(&mut key, i as u64);
        push_str(&mut key, "]");
    }
    assert(key@ =~= whole_key(e@));
    key
}

/// The word that a pair defines.
fn lex_entry(e: &Entry) -> (r: LexEntry)
    ensures
        r@ == word_of(e@),
{
    let key: Vec<char> = key_with_index(e);
    let mark: Vec<char> = chars_of("\\x");
    proof {
        reveal_strlit("\\x");
    }
    if starts_with(key.as_slice(), mark.as_slice()) {
        LexEntry {
            word: text_of(rest(key.as_slice(), 2)),
            expansion: e.value.clone(),
            case_sensitive: true,
            line: e.line,
        }
    } else {
        LexEntry {
            word: text_of(key.as_slice()),
            expansion: e.value.clone(),
            case_sensitive: false,
            line: e.line,
        }
    }
}

/// Reads the lines of a lexicon.
fn parse_lexicon_lines(name: &str, ls: Vec<Vec<char>>) -> (r: Result<Lexicon, Error>)
    ensures
        lexicon_parsed(
            name@,
            pieces(ls@),
            match r {
                Ok(l) => Ok(l@),
                Err(e) => Err(e@),
            },
        ),
{
    let mut ls: Vec<Vec<char>> = ls;
    let ghost all = pieces(ls@);
    let mut header: String = String::new();
    if ls.len() > 0 {
        assert(all[0] == ls@[0]@);
        let first: &[char] = trim(ls[0].as_slice());
        if first.len() > 0 && first[0] != ';' && !looks_like_entry(first) {
            header = text_of(first);
            ls.set(0, Vec::new());
            assert(pieces(ls@) =~= all.update(0, Seq::empty()));
        }
    }
    assert(header@ =~= header_of(all));
    assert(pieces(ls@) =~= body_lines(all));
    let d: Descriptor = match parse_lines(name, &ls) {
        Ok(d) => d,
        Err(e) => {
            return Err(e);
        },
    };
    let ghost pairs = d@;
    let mut l = Lexicon { name: header, entries: Vec::new() };
    let mut i: usize = 0;
    while i < d.entries.len()
        invariant
            i <= d.entries@.len() == pairs.len(),
            pairs == d@,
            l.name == header,
            l.entries@.len() == i,
            forall|k: int| 0 <= k < i ==> #[trigger] l.entries@[k]@ == word_of(pairs[k]),
        decreases d.entries@.len() - i,
    {
        let e: LexEntry = lex_entry(&d.entries[i]);
        assert(pairs[i as int] == d.entries@[i as int]@);
        l.entries.push(e);
        i = i + 1;
    }
    assert(l@.words =~= pairs.map_values(|p: Pair| word_of(p)));
    assert(parsed(name@, body_lines(all), Ok(pairs)));
    Ok(l)
}

impl Lexicon {
    /// Reads a lexicon. `name` appears in errors.
    pub fn parse(name: &str, text: &str) -> (r: Result<Lexicon, Error>)
        ensures
            lexicon_parsed(
                name@,
                lines(text@),
                match r {
                    Ok(l) => Ok(l@),
                    Err(e) => Err(e@),
                },
            ),
    {
        let cs: Vec<char> = chars_of(text);
        parse_lexicon_lines(name, split_lines(cs.as_slice()))
    }

    /// Reads a lexicon from a file in either encoding.
    pub fn parse_bytes(name: &str, raw: &[u8]) -> (r: Result<Lexicon, Error>)
        ensures
            lexicon_parsed(
                name@,
                lines(text_in(raw@)),
                match r {
                    Ok(l) => Ok(l@),
                    Err(e) => Err(e@),
                },
            ),
    {
        let cs: Vec<char> = chars_auto(raw);
        parse_lexicon_lines(name, split_lines(cs.as_slice()))
    }

    /// What a word expands to: an exact entry beats a loose one.
    pub fn lookup(&self, word: &str) -> (r: Option<&str>)
        ensures
            match (r, expansion_of(self@.words, word@)) {
                (Some(v), Some(want)) => v@ == want,
                (None, None) => true,
                _ => false,
            },
    {
        let w: Vec<char> = chars_of(word);
        let ghost words = self@.words;
        let mut i: usize = 0;
        while i < self.entries.len()
            invariant
                i <= self.entries@.len() == words.len(),
                words == self@.words,
                w@ == word@,
                first_exact(words, word@, 0) == first_exact(words, word@, i as int),
            decreases self.entries@.len() - i,
        {
            assert(words[i as int] == self.entries@[i as int]@);
            let e: Vec<char> = chars_of(self.entries[i].word.as_str());
            if self.entries[i].case_sensitive && equal(e.as_slice(), w.as_slice()) {
                return Some(self.entries[i].expansion.as_str());
            }
            i = i + 1;
        }
        let mut j: usize = 0;
        while j < self.entries.len()
            invariant
                j <= self.entries@.len() == words.len(),
                words == self@.words,
                w@ == word@,
                first_exact(words, word@, 0) == words.len(),
                first_loose(words, word@, 0) == first_loose(words, word@, j as int),
            decreases self.entries@.len() - j,
        {
            assert(words[j as int] == self.entries@[j as int]@);
            let e: Vec<char> = chars_of(self.entries[j].word.as_str());
            if !self.entries[j].case_sensitive && equal_ignoring_case(e.as_slice(), w.as_slice()) {
                return Some(self.entries[j].expansion.as_str());
            }
            j = j + 1;
        }
        None
    }

    /// How many words there are.
    pub fn len(&self) -> (r: usize)
        ensures
            r == self@.words.len(),
    {
        self.entries.len()
    }

    /// Whether there are none.
    pub fn is_empty(&self) -> (r: bool)
        ensures
            r == (self@.words.len() == 0),
    {
        self.entries.len() == 0
    }
}

/// An exact entry always beats a loose one, wherever either stands.
pub proof fn exact_beats_loose(words: Seq<LexWord>, i: int)
    requires
        0 <= i < words.len(),
        words[i].case_sensitive,
    ensures
        exists|k: int|
            0 <= k <= i && #[trigger] words[k].case_sensitive && words[k].word == words[i].word
                && expansion_of(words, words[i].word) == Some(words[k].expansion),
{
    exact_is_found(words, i, 0);
    let k = first_exact(words, words[i].word, 0);
    assert(words[k].case_sensitive && words[k].word == words[i].word);
}

proof fn exact_is_found(words: Seq<LexWord>, i: int, from: int)
    requires
        0 <= from <= i < words.len(),
        words[i].case_sensitive,
    ensures
        from <= first_exact(words, words[i].word, from) <= i,
        words[first_exact(words, words[i].word, from)].case_sensitive,
        words[first_exact(words, words[i].word, from)].word == words[i].word,
    decreases i - from,
{
    if !(words[from].case_sensitive && words[from].word == words[i].word) {
        exact_is_found(words, i, from + 1);
    }
}

} // verus!
