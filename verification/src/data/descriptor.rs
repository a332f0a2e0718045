//! Session, voice and language descriptors.
//!
//! One flat syntax: comments after a semicolon, blank lines, and
//! `"Key" = "Value"` pairs with white space around the equals sign. A key may
//! carry a bracketed index, and keys repeat, so file order is kept. Keys are
//! compared without regard to ASCII case.
use vstd::prelude::*;
use super::chars::{
    chars_of, equal_ignoring_case, lines, parse_unsigned, pieces, rest, same_letters, split_lines,
    text_of, trim, trimmed, unsigned,
};
use super::error::{quoted, Error, Fault};
use super::text::{chars_auto, text_in};

verus! {

/// One pair.
#[derive(Debug, Clone, PartialEq, Eq)]
pub struct Entry {
    /// The key, without its index.
    pub key: String,
    /// The index, where the key carried one.
    pub index: Option<u32>,
    /// The value.
    pub value: String,
    /// Its line in the file, counted from one.
    pub line: usize,
}

/// One pair as mathematics.
pub struct Pair {
    /// The key, without its index.
    pub key: Seq<char>,
    /// The index, where the key carried one.
    pub index: Option<u32>,
    /// The value.
    pub value: Seq<char>,
    /// Its line in the file, counted from one.
    pub line: int,
}

impl View for Entry {
    type V = Pair;

    open spec fn view(&self) -> Pair {
        Pair { key: self.key@, index: self.index, value: self.value@, line: self.line as int }
    }
}

/// A descriptor file.
#[derive(Debug, Clone, PartialEq, Eq)]
pub struct Descriptor {
    /// The pairs, in file order.
    pub entries: Vec<Entry>,
}

impl Default for Descriptor {
    fn default() -> (r: Self)
        ensures
            r@ == Seq::<Pair>::empty(),
    {
        let r = Descriptor { entries: Vec::new() };
        assert(r@ =~= Seq::<Pair>::empty());
        r
    }
}

impl View for Descriptor {
    type V = Seq<Pair>;

    open spec fn view(&self) -> Seq<Pair> {
        self.entries@.map_values(|e: Entry| e@)
    }
}

/// Where the equals sign stands that is outside quotes, or the length.
pub open spec fn separator(s: Seq<char>, from: int, in_quotes: bool) -> int
    decreases s.len() - from,
{
    if from < 0 || from >= s.len() {
        s.len() as int
    } else if s[from] == '"' {
        separator(s, from + 1, !in_quotes)
    } else if s[from] == '=' && !in_quotes {
        from
    } else {
        separator(s, from + 1, in_quotes)
    }
}

/// Without white space around it, and without the quotes around that.
pub open spec fn unquoted(s: Seq<char>) -> Seq<char> {
    let t = trimmed(s);
    if t.len() >= 2 && t[0] == '"' && t[t.len() - 1] == '"' {
        t.subrange(1, t.len() - 1)
    } else {
        t
    }
}

/// Where `c` last stands in the first `n` characters, or minus one.
pub open spec fn last_before(s: Seq<char>, c: char, n: int) -> int
    decreases n,
{
    if n <= 0 {
        -1
    } else if s[n - 1] == c {
        n - 1
    } else {
        last_before(s, c, n - 1)
    }
}

/// A key split into its name and its bracketed index.
pub open spec fn split_key(key: Seq<char>) -> (Seq<char>, Option<u32>) {
    let at = last_before(key, '[', key.len() as int);
    if at < 0 || key[key.len() - 1] != ']' {
        (key, None)
    } else {
        match unsigned(key.subrange(at + 1, key.len() - 1), u32::MAX as int) {
            Some(n) => (trimmed(key.subrange(0, at)), Some(n as u32)),
            None => (key, None),
        }
    }
}

/// A line that holds no pair: blank, or a comment.
pub open spec fn is_skipped(s: Seq<char>) -> bool {
    s.len() == 0 || s[0] == ';'
}

/// The key of a trimmed line, index included.
pub open spec fn key_of(s: Seq<char>) -> Seq<char> {
    unquoted(trimmed(s.subrange(0, separator(s, 0, false))))
}

/// The value of a trimmed line.
pub open spec fn value_of(s: Seq<char>) -> Seq<char> {
    unquoted(trimmed(s.subrange(separator(s, 0, false) + 1, s.len() as int)))
}

/// What is wrong with a trimmed line, if anything.
pub open spec fn line_fault(s: Seq<char>) -> Option<Seq<char>> {
    if is_skipped(s) {
        None
    } else if separator(s, 0, false) >= s.len() {
        Some("no `=` in `"@ + s + "`"@)
    } else if key_of(s).len() == 0 {
        Some("empty key in `"@ + s + "`"@)
    } else {
        None
    }
}

/// The pair on a trimmed line.
pub open spec fn pair_on(s: Seq<char>, line: int) -> Pair {
    let (key, index) = split_key(key_of(s));
    Pair { key, index, value: value_of(s), line }
}

/// The pairs on the first `n` lines.
pub open spec fn pairs_on(ls: Seq<Seq<char>>, n: nat) -> Seq<Pair>
    decreases n,
{
    if n == 0 {
        Seq::empty()
    } else {
        let before = pairs_on(ls, (n - 1) as nat);
        let s = trimmed(ls[n - 1]);
        if is_skipped(s) {
            before
        } else {
            before.push(pair_on(s, n as int))
        }
    }
}

/// Line `i` is the first at fault, for reason `what`.
pub open spec fn first_fault(ls: Seq<Seq<char>>, i: int, what: Seq<char>) -> bool {
    &&& 0 <= i < ls.len()
    &&& line_fault(trimmed(ls[i])) == Some(what)
    &&& forall|k: int| 0 <= k < i ==> line_fault(trimmed(#[trigger] ls[k])) is None
}

/// What reading the lines of a descriptor gives.
pub open spec fn parsed(name: Seq<char>, ls: Seq<Seq<char>>, r: Result<Seq<Pair>, Fault>) -> bool {
    match r {
        Ok(pairs) => {
            &&& forall|k: int| 0 <= k < ls.len() ==> line_fault(trimmed(#[trigger] ls[k])) is None
            &&& pairs == pairs_on(ls, ls.len())
        },
        Err(e) => {
            &&& e.file == name
            &&& first_fault(ls, e.line - 1, e.what)
        },
    }
}

/// Where the equals sign stands that is outside quotes, or the length.
pub(crate) fn find_separator(s: &[char]) -> (r: usize)
    ensures
        r == separator(s@, 0, false),
        r <= s@.len(),
{
    let mut in_quotes: bool = false;
    let mut i: usize = 0;
    while i < s.len()
        invariant
            i <= s@.len(),
            separator(s@, 0, false) == separator(s@, i as int, in_quotes),
        decreases s@.len() - i,
    {
        let c: char = s[i];
        if c == '"' {
            in_quotes = !in_quotes;
        } else if c == '=' && !in_quotes {
            return i;
        }
        i = i + 1;
    }
    i
}

/// Without white space around it, and without the quotes around that.
fn unquote(s: &[char]) -> (r: &[char])
    ensures
        r@ == unquoted(s@),
{
    let t: &[char] = trim(s);
    if t.len() >= 2 && t[0] == '"' && t[t.len() - 1] == '"' {
        vstd::slice::slice_subrange(t, 1, t.len() - 1)
    } else {
        t
    }
}

/// A key split into its name and its bracketed index.
fn split_index(key: &[char]) -> (r: (String, Option<u32>))
    ensures
        (r.0@, r.1) == split_key(key@),
{
    let n: usize = key.len();
    let mut i: usize = n;
    while i > 0 && key[i - 1] != '['
        invariant
            i <= n == key@.len(),
            last_before(key@, '[', n as int) == last_before(key@, '[', i as int),
        decreases i,
    {
        i = i - 1;
    }
    if i == 0 || key[n - 1] != ']' {
        return (text_of(key), None);
    }
    assert(i - 1 < n - 1);
    match parse_unsigned(vstd::slice::slice_subrange(key, i, n - 1), 0xffff_ffff) {
        Some(v) => (text_of(trim(vstd::slice::slice_subrange(key, 0, i - 1))), Some(v as u32)),
        None => (text_of(key), None),
    }
}

/// Reads one trimmed line that is neither blank nor a comment.
fn parse_pair(name: &str, line: usize, s: &[char]) -> (r: Result<Entry, Error>)
    requires
        !is_skipped(s@),
    ensures
        match r {
            Ok(e) => line_fault(s@) is None && e@ == pair_on(s@, line as int),
            Err(e) => e@.file == name@ && e@.line == line && line_fault(s@) == Some(e@.what),
        },
{
    let eq: usize = find_separator(s);
    if eq == s.len() {
        return Err(Error::new(name, line, quoted("no `=` in `", s, "`")));
    }
    let key: &[char] = unquote(trim(vstd::slice::slice_subrange(s, 0, eq)));
    let value: &[char] = unquote(trim(rest(s, eq + 1)));
    if key.len() == 0 {
        return Err(Error::new(name, line, quoted("empty key in `", s, "`")));
    }
    let (k, index) = split_index(key);
    Ok(Entry { key: k, index, value: text_of(value), line })
}

/// Reads the lines of a descriptor.
pub(crate) fn parse_lines(name: &str, ls: &Vec<Vec<char>>) -> (r: Result<Descriptor, Error>)
    ensures
        parsed(
            name@,
            pieces(ls@),
            match r {
                Ok(d) => Ok(d@),
                Err(e) => Err(e@),
            },
        ),
{
    let ghost want = pieces(ls@);
    let mut d = Descriptor { entries: Vec::new() };
    assert(d@ =~= Seq::<Pair>::empty());
    let mut i: usize = 0;
    while i < ls.len()
        invariant
            i <= ls@.len(),
            want == pieces(ls@),
            forall|k: int| 0 <= k < i ==> line_fault(trimmed(#[trigger] want[k])) is None,
            d@ == pairs_on(want, i as nat),
        decreases ls@.len() - i,
    {
        assert(want[i as int] == ls@[i as int]@);
        let s: &[char] = trim(ls[i].as_slice());
        if s.len() > 0 && s[0] != ';' {
            match parse_pair(name, i + 1, s) {
                Ok(e) => {
                    let ghost before = d@;
                    d.entries.push(e);
                    assert(d@ =~= before.push(e@));
                },
                Err(e) => {
                    assert(first_fault(want, e@.line - 1, e@.what));
                    return Err(e);
                },
            }
        }
        i = i + 1;
    }
    Ok(d)
}

/// The first pair from `from` on with the given key, or the length.
pub open spec fn first_with(pairs: Seq<Pair>, key: Seq<char>, from: int) -> int
    decreases pairs.len() - from,
{
    if from < 0 || from >= pairs.len() {
        pairs.len() as int
    } else if same_letters(pairs[from].key, key) {
        from
    } else {
        first_with(pairs, key, from + 1)
    }
}

/// Whether a pair has the given key and index.
pub open spec fn is_at(p: Pair, key: Seq<char>, index: Option<u32>) -> bool {
    same_letters(p.key, key) && p.index == index
}

/// The first pair from `from` on with the given key and index, or the length.
pub open spec fn first_at(pairs: Seq<Pair>, key: Seq<char>, index: Option<u32>, from: int) -> int
    decreases pairs.len() - from,
{
    if from < 0 || from >= pairs.len() {
        pairs.len() as int
    } else if is_at(pairs[from], key, index) {
        from
    } else {
        first_at(pairs, key, index, from + 1)
    }
}

/// The values that the first `n` pairs have for a key.
pub open spec fn values_for(pairs: Seq<Pair>, key: Seq<char>, n: nat) -> Seq<Seq<char>>
    decreases n,
{
    if n == 0 {
        Seq::empty()
    } else {
        let before = values_for(pairs, key, (n - 1) as nat);
        if same_letters(pairs[n - 1].key, key) {
            before.push(pairs[n - 1].value)
        } else {
            before
        }
    }
}

/// Where a list ordered by index has room for another `index`: past every
/// entry that is not greater.
pub open spec fn room_for(list: Seq<(u32, Seq<char>)>, index: u32, from: int) -> int
    decreases list.len() - from,
{
    if from < 0 || from >= list.len() {
        list.len() as int
    } else if list[from].0 > index {
        from
    } else {
        room_for(list, index, from + 1)
    }
}

/// The indexed values that the first `n` pairs have for a key, ordered by
/// index, and by file order where indices repeat.
pub open spec fn by_index(pairs: Seq<Pair>, key: Seq<char>, n: nat) -> Seq<(u32, Seq<char>)>
    decreases n,
{
    if n == 0 {
        Seq::empty()
    } else {
        let before = by_index(pairs, key, (n - 1) as nat);
        let p = pairs[n - 1];
        match p.index {
            Some(i) => if same_letters(p.key, key) {
                before.insert(room_for(before, i, 0), (i, p.value))
            } else {
                before
            },
            None => before,
        }
    }
}

/// The pairs with the first `n` of another file added where they have no
/// counterpart.
pub open spec fn merged(pairs: Seq<Pair>, other: Seq<Pair>, n: nat) -> Seq<Pair>
    decreases n,
{
    if n == 0 {
        pairs
    } else {
        let before = merged(pairs, other, (n - 1) as nat);
        let p = other[n - 1];
        if first_at(before, p.key, p.index, 0) < before.len() {
            before
        } else {
            before.push(p)
        }
    }
}

/// Borrowed strings as sequences.
pub open spec fn texts(v: Seq<&str>) -> Seq<Seq<char>> {
    v.map_values(|s: &str| s@)
}

/// Indexed borrowed strings as sequences.
pub open spec fn indexed_texts(v: Seq<(u32, &str)>) -> Seq<(u32, Seq<char>)> {
    v.map_values(|p: (u32, &str)| (p.0, p.1@))
}

impl Descriptor {
    /// Reads a descriptor. `name` appears in errors.
    pub fn parse(name: &str, text: &str) -> (r: Result<Descriptor, Error>)
        ensures
            parsed(
                name@,
                lines(text@),
                match r {
                    Ok(d) => Ok(d@),
                    Err(e) => Err(e@),
                },
            ),
    {
        let cs: Vec<char> = chars_of(text);
        let ls: Vec<Vec<char>> = split_lines(cs.as_slice());
        parse_lines(name, &ls)
    }

    /// Reads a descriptor from a file in either encoding.
    pub fn parse_bytes(name: &str, raw: &[u8]) -> (r: Result<Descriptor, Error>)
        ensures
            parsed(
                name@,
                lines(text_in(raw@)),
                match r {
                    Ok(d) => Ok(d@),
                    Err(e) => Err(e@),
                },
            ),
    {
        let cs: Vec<char> = chars_auto(raw);
        let ls: Vec<Vec<char>> = split_lines(cs.as_slice());
        parse_lines(name, &ls)
    }

    /// The first value for a key, whatever its index.
    pub fn get(&self, key: &str) -> (r: Option<&str>)
        ensures
            match r {
                Some(v) => first_with(self@, key@, 0) < self@.len() && v@ == self@[first_with(
                    self@,
                    key@,
                    0,
                )].value,
                None => first_with(self@, key@, 0) == self@.len(),
            },
    {
        let k: Vec<char> = chars_of(key);
        let mut i: usize = 0;
        while i < self.entries.len()
            invariant
                i <= self.entries@.len() == self@.len(),
                k@ == key@,
                first_with(self@, key@, 0) == first_with(self@, key@, i as int),
            decreases self.entries@.len() - i,
        {
            assert(self@[i as int] == self.entries@[i as int]@);
            let e: Vec<char> = chars_of(self.entries[i].key.as_str());
            if equal_ignoring_case(e.as_slice(), k.as_slice()) {
                return Some(self.entries[i].value.as_str());
            }
            i = i + 1;
        }
        None
    }

    /// The first value for a key with an index.
    pub fn get_indexed(&self, key: &str, index: u32) -> (r: Option<&str>)
        ensures
            match r {
                Some(v) => first_at(self@, key@, Some(index), 0) < self@.len() && v@
                    == self@[first_at(self@, key@, Some(index), 0)].value,
                None => first_at(self@, key@, Some(index), 0) == self@.len(),
            },
    {
        let i: usize = self.find_at(key, Some(index), self.entries.len());
        if i < self.entries.len() {
            assert(self@[i as int] == self.entries@[i as int]@);
            Some(self.entries[i].value.as_str())
        } else {
            None
        }
    }

    /// The first pair with a key and index, or how many there are.
    fn find_at(&self, key: &str, index: Option<u32>, len: usize) -> (r: usize)
        requires
            len == self.entries@.len(),
        ensures
            r == first_at(self@, key@, index, 0),
            r <= len,
    {
        let k: Vec<char> = chars_of(key);
        let mut i: usize = 0;
        while i < len
            invariant
                i <= len == self.entries@.len() == self@.len(),
                k@ == key@,
                first_at(self@, key@, index, 0) == first_at(self@, key@, index, i as int),
            decreases len - i,
        {
            assert(self@[i as int] == self.entries@[i as int]@);
            let e: Vec<char> = chars_of(self.entries[i].key.as_str());
            if equal_ignoring_case(e.as_slice(), k.as_slice()) && self.entries[i].index == index {
                return i;
            }
            i = i + 1;
        }
        i
    }

    /// Every value for a key, in file order, indexed or not.
    pub fn all(&self, key: &str) -> (r: Vec<&str>)
        ensures
            texts(r@) == values_for(self@, key@, self@.len()),
    {
        let k: Vec<char> = chars_of(key);
        let mut out: Vec<&str> = Vec::new();
        assert(texts(out@) =~= Seq::empty());
        let mut i: usize = 0;
        while i < self.entries.len()
            invariant
                i <= self.entries@.len() == self@.len(),
                k@ == key@,
                texts(out@) == values_for(self@, key@, i as nat),
            decreases self.entries@.len() - i,
        {
            assert(self@[i as int] == self.entries@[i as int]@);
            let e: Vec<char> = chars_of(self.entries[i].key.as_str());
            if equal_ignoring_case(e.as_slice(), k.as_slice()) {
                let ghost before = texts(out@);
                let v: &str = self.entries[i].value.as_str();
                out.push(v);
                assert(texts(out@) =~= before.push(v@));
            }
            i = i + 1;
        }
        out
    }

    /// The indexed values for a key, ordered by index.
    pub fn indexed(&self, key: &str) -> (r: Vec<(u32, &str)>)
        ensures
            indexed_texts(r@) == by_index(self@, key@, self@.len()),
    {
        let k: Vec<char> = chars_of(key);
        let mut out: Vec<(u32, &str)> = Vec::new();
        assert(indexed_texts(out@) =~= Seq::empty());
        let mut i: usize = 0;
        while i < self.entries.len()
            invariant
                i <= self.entries@.len() == self@.len(),
                k@ == key@,
                indexed_texts(out@) == by_index(self@, key@, i as nat),
            decreases self.entries@.len() - i,
        {
            assert(self@[i as int] == self.entries@[i as int]@);
            let e: Vec<char> = chars_of(self.entries[i].key.as_str());
            let same: bool = equal_ignoring_case(e.as_slice(), k.as_slice());
            if let Some(index) = self.entries[i].index {
                if same {
                    let ghost before = indexed_texts(out@);
                    let v: &str = self.entries[i].value.as_str();
                    let at: usize = room(&out, index);
                    out.insert(at, (index, v));
                    assert(indexed_texts(out@) =~= before.insert(at as int, (index, v@)));
                }
            }
            i = i + 1;
        }
        out
    }

    /// The descriptors this one names for inclusion.
    pub fn includes(&self) -> (r: Vec<&str>)
        ensures
            texts(r@) == values_for(self@, "Include"@, self@.len()),
    {
        self.all("Include")
    }

    /// Adds what another descriptor has and this one has not. What is already
    /// here wins.
    pub fn merge_under(&mut self, other: &Descriptor)
        ensures
            final(self)@ == merged(old(self)@, other@, other@.len()),
    {
        let ghost s0 = self@;
        let mut i: usize = 0;
        while i < other.entries.len()
            invariant
                i <= other.entries@.len() == other@.len(),
                self@ == merged(s0, other@, i as nat),
            decreases other.entries@.len() - i,
        {
            assert(other@[i as int] == other.entries@[i as int]@);
            let e: &Entry = &other.entries[i];
            let len: usize = self.entries.len();
            let at: usize = self.find_at(e.key.as_str(), e.index, len);
            if at == len {
                let ghost before = self@;
                let copy = Entry {
                    key: e.key.clone(),
                    index: e.index,
                    value: e.value.clone(),
                    line: e.line,
                };
                self.entries.push(copy);
                assert(self@ =~= before.push(copy@));
            }
            i = i + 1;
        }
    }
}

/// Where an ordered list has room for another index.
fn room(list: &Vec<(u32, &str)>, index: u32) -> (r: usize)
    ensures
        r == room_for(indexed_texts(list@), index, 0),
        r <= list@.len(),
{
    let ghost want = indexed_texts(list@);
    let mut i: usize = 0;
    while i < list.len() && list[i].0 <= index
        invariant
            i <= list@.len() == want.len(),
            want == indexed_texts(list@),
            room_for(want, index, 0) == room_for(want, index, i as int),
        decreases list@.len() - i,
    {
        assert(want[i as int].0 == list@[i as int].0);
        i = i + 1;
    }
    if i < list.len() {
        assert(want[i as int].0 == list@[i as int].0);
    }
    i
}

/// Merging keeps every pair that was there, in its place.
pub proof fn merging_keeps_what_is_there(pairs: Seq<Pair>, other: Seq<Pair>, n: nat)
    ensures
        merged(pairs, other, n).len() >= pairs.len(),
        merged(pairs, other, n).subrange(0, pairs.len() as int) == pairs,
    decreases n,
{
    if n > 0 {
        merging_keeps_what_is_there(pairs, other, (n - 1) as nat);
        let before = merged(pairs, other, (n - 1) as nat);
        assert(merged(pairs, other, n).subrange(0, pairs.len() as int) =~= before.subrange(
            0,
            pairs.len() as int,
        ));
    } else {
        assert(pairs.subrange(0, pairs.len() as int) =~= pairs);
    }
}

/// A key that was there keeps its value through a merge.
pub proof fn merging_overrides_nothing(pairs: Seq<Pair>, other: Seq<Pair>, key: Seq<char>)
    requires
        first_with(pairs, key, 0) < pairs.len(),
    ensures
        first_with(merged(pairs, other, other.len()), key, 0) == first_with(pairs, key, 0),
        merged(pairs, other, other.len())[first_with(pairs, key, 0)] == pairs[first_with(
            pairs,
            key,
            0,
        )],
{
    let m = merged(pairs, other, other.len());
    merging_keeps_what_is_there(pairs, other, other.len());
    first_with_prefix(pairs, m, key, 0);
    let i = first_with(pairs, key, 0);
    assert(m.subrange(0, pairs.len() as int)[i] == m[i]);
}

proof fn first_with_prefix(pairs: Seq<Pair>, m: Seq<Pair>, key: Seq<char>, from: int)
    requires
        0 <= from,
        m.len() >= pairs.len(),
        m.subrange(0, pairs.len() as int) == pairs,
        first_with(pairs, key, from) < pairs.len(),
    ensures
        first_with(m, key, from) == first_with(pairs, key, from),
        0 <= first_with(pairs, key, from),
    decreases pairs.len() - from,
{
    if from < pairs.len() {
        assert(m.subrange(0, pairs.len() as int)[from] == m[from]);
        if !same_letters(pairs[from].key, key) {
            first_with_prefix(pairs, m, key, from + 1);
        }
    }
}

/// Indexed values come out in the order of their indices.
pub proof fn indexed_values_are_ordered(pairs: Seq<Pair>, key: Seq<char>, n: nat)
    requires
        n <= pairs.len(),
    ensures
        forall|i: int, j: int|
            0 <= i <= j < by_index(pairs, key, n).len() ==> by_index(pairs, key, n)[i].0 <= by_index(
                pairs,
                key,
                n,
            )[j].0,
    decreases n,
{
    if n > 0 {
        indexed_values_are_ordered(pairs, key, (n - 1) as nat);
        let before = by_index(pairs, key, (n - 1) as nat);
        if let Some(x) = pairs[n - 1].index {
            room_splits(before, x, 0);
        }
    }
}

proof fn room_splits(list: Seq<(u32, Seq<char>)>, index: u32, from: int)
    requires
        0 <= from <= list.len(),
        forall|i: int, j: int| 0 <= i <= j < list.len() ==> list[i].0 <= list[j].0,
    ensures
        from <= room_for(list, index, from) <= list.len(),
        forall|i: int| from <= i < room_for(list, index, from) ==> list[i].0 <= index,
        forall|i: int| room_for(list, index, from) <= i < list.len() ==> list[i].0 > index,
    decreases list.len() - from,
{
    if from < list.len() && list[from].0 <= index {
        room_splits(list, index, from + 1);
    }
}

} // verus!
