//! What holds of the lines of descriptors, lexicons and dictionaries.
use vstd::prelude::*;
use super::char_laws::{
    decimals_mean_their_number, decimals_read_back, joined_by, joined_pieces_are_split_again, lacks,
    texts_begin_with_their_starts, white_space_is_taken_off,
};
use super::chars::{begins, find_bounds, find_from, is_white, same_letters, trimmed, written};
use super::descriptor::{
    by_index, first_at, first_with, is_at, key_of, last_before, line_fault, merged, pair_on,
    pairs_on, room_for, separator, split_key, unquoted, value_of, values_for, Pair,
};
use super::lexicon::{
    expansion_of, first_exact, first_loose, header_of, is_entry, whole_key, word_of, LexWord,
};
use super::phd::{
    before, body_of, entries_of, entry_of, is_record, records_of, undelta, undelta_round_trips,
    PhdRecord,
};
use super::text::{decoded, encoded, high_bytes, is_encoded, latin1, sampled, text_in};

verus! {

/// Whether a text has no white space at either end.
pub open spec fn tidy(s: Seq<char>) -> bool {
    s.len() > 0 ==> !is_white(s[0]) && !is_white(s.last())
}

proof fn tidy_stays(s: Seq<char>)
    requires
        tidy(s),
    ensures
        trimmed(s) == s,
{
    white_space_is_taken_off(Seq::empty(), s, Seq::empty());
    assert(Seq::<char>::empty() + s + Seq::<char>::empty() =~= s);
}

proof fn separator_is_first(s: Seq<char>, from: int, k: int)
    requires
        0 <= from <= k <= s.len(),
        forall|i: int| from <= i < k ==> #[trigger] s[i] != '"' && s[i] != '=',
        k < s.len() ==> s[k] == '=',
    ensures
        separator(s, from, false) == k,
    decreases k - from,
{
    if from < k {
        separator_is_first(s, from + 1, k);
    }
}

proof fn quoted_text_is_passed(s: Seq<char>, from: int, k: int)
    requires
        0 <= from <= k < s.len(),
        forall|i: int| from <= i < k ==> #[trigger] s[i] != '"',
        s[k] == '"',
    ensures
        separator(s, from, true) == separator(s, k + 1, false),
    decreases k - from,
{
    if from < k {
        quoted_text_is_passed(s, from + 1, k);
    }
}

proof fn line_is_split(k: Seq<char>, v: Seq<char>)
    requires
        separator(k + seq!['='] + v, 0, false) == k.len(),
    ensures
        key_of(k + seq!['='] + v) == unquoted(trimmed(k)),
        value_of(k + seq!['='] + v) == unquoted(trimmed(v)),
{
    let s = k + seq!['='] + v;
    assert(s.subrange(0, k.len() as int) =~= k);
    assert(s.subrange(k.len() as int + 1, s.len() as int) =~= v);
}

/// A line's key stands before its first equals sign and its value behind it.
pub proof fn pairs_are_split_at_the_first_equals_sign(key: Seq<char>, value: Seq<char>, line: int)
    requires
        key.len() > 0,
        tidy(key),
        tidy(value),
        lacks(key, '"'),
        lacks(key, '='),
        lacks(key, '['),
        value.len() > 0 ==> value[0] != '"',
        key[0] != ';',
    ensures
        line_fault(key + seq!['='] + value) is None,
        pair_on(key + seq!['='] + value, line) == (Pair { key, index: None, value, line }),
{
    let s = key + seq!['='] + value;
    assert forall|i: int| 0 <= i < key.len() implies #[trigger] s[i] != '"' && s[i] != '=' by {
        assert(s[i] == key[i]);
    }
    assert(s[key.len() as int] == '=');
    separator_is_first(s, 0, key.len() as int);
    line_is_split(key, value);
    tidy_stays(key);
    tidy_stays(value);
    assert(key[0] != '"');
    assert(s[0] == key[0]);
    no_bracket(key, key.len() as int);
}

proof fn no_bracket(key: Seq<char>, n: int)
    requires
        lacks(key, '['),
        n <= key.len(),
    ensures
        last_before(key, '[', n) == -1,
    decreases n,
{
    if n > 0 {
        assert(key[n - 1] != '[');
        no_bracket(key, n - 1);
    }
}

/// Quotes around a key or a value come off, and what they hold may be an equals
/// sign or white space.
pub proof fn quotes_come_off(key: Seq<char>, value: Seq<char>, line: int)
    requires
        key.len() > 0,
        lacks(key, '"'),
        lacks(key, '['),
    ensures
        ({
            let s = seq!['"'] + key + seq!['"'] + seq!['='] + (seq!['"'] + value + seq!['"']);
            line_fault(s) is None && pair_on(s, line) == (Pair { key, index: None, value, line })
        }),
{
    let k = seq!['"'] + key + seq!['"'];
    let v = seq!['"'] + value + seq!['"'];
    let s = k + seq!['='] + v;
    assert forall|i: int| 1 <= i < k.len() - 1 implies #[trigger] s[i] != '"' by {
        assert(s[i] == key[i - 1]);
    }
    assert(s[0] == '"');
    assert(s[k.len() - 1] == '"');
    assert(s[k.len() as int] == '=');
    quoted_text_is_passed(s, 1, k.len() - 1);
    assert(separator(s, k.len() as int, false) == k.len());
    line_is_split(k, v);
    assert(k.last() == '"' && v.last() == '"');
    tidy_stays(k);
    tidy_stays(v);
    assert(k.subrange(1, k.len() - 1) =~= key);
    assert(v.subrange(1, v.len() - 1) =~= value);
    no_bracket(key, key.len() as int);
}

/// An index in brackets behind a key is split off.
pub proof fn indices_are_split_off(name: Seq<char>, index: u32)
    requires
        tidy(name),
    ensures
        split_key(name + seq!['['] + written(index as nat, 10) + seq![']']) == (name, Some(index)),
{
    let w = written(index as nat, 10);
    let key = name + seq!['['] + w + seq![']'];
    let at = name.len() as int;
    decimals_mean_their_number(index as nat);
    decimals_read_back(index as nat, u32::MAX as int);
    assert(key[key.len() - 1] == ']');
    assert forall|i: int| at < i < key.len() implies #[trigger] key[i] != '[' by {
        if i < key.len() - 1 {
            assert(key[i] == w[i - at - 1]);
        }
    }
    assert(key[at] == '[');
    last_is_last(key, '[', key.len() as int, at);
    assert(key.subrange(at + 1, key.len() - 1) =~= w);
    assert(key.subrange(0, at) =~= name);
    tidy_stays(name);
}

proof fn last_is_last(s: Seq<char>, c: char, n: int, k: int)
    requires
        0 <= k < n <= s.len(),
        s[k] == c,
        forall|i: int| k < i < n ==> #[trigger] s[i] != c,
    ensures
        last_before(s, c, n) == k,
    decreases n,
{
    if k < n - 1 {
        last_is_last(s, c, n - 1, k);
    }
}

/// Blank lines and comments hold no pair, and a line without an equals sign is at
/// fault.
pub proof fn comments_hold_no_pair(ls: Seq<Seq<char>>, n: nat, s: Seq<char>)
    requires
        0 < n <= ls.len(),
        trimmed(ls[n - 1]).len() == 0 || trimmed(ls[n - 1])[0] == ';',
    ensures
        pairs_on(ls, n) == pairs_on(ls, (n - 1) as nat),
        s.len() > 0 && s[0] != ';' && lacks(s, '=') ==> line_fault(s) is Some,
{
    if lacks(s, '=') {
        nowhere(s, 0, false);
    }
}

proof fn nowhere(s: Seq<char>, from: int, quoted: bool)
    requires
        0 <= from <= s.len(),
        lacks(s, '='),
    ensures
        separator(s, from, quoted) == s.len(),
    decreases s.len() - from,
{
    if from < s.len() {
        assert(s[from] != '=');
        nowhere(s, from + 1, if s[from] == '"' {
            !quoted
        } else {
            quoted
        });
    }
}

/// Looking a key up finds the first pair that has it, in capitals or not, and its
/// index where one is asked for.
pub proof fn lookups_find_the_first(
    pairs: Seq<Pair>,
    key: Seq<char>,
    index: Option<u32>,
    k: int,
    from: int,
)
    requires
        0 <= from <= k <= pairs.len(),
    ensures
        (forall|i: int| from <= i < k ==> !same_letters((#[trigger] pairs[i]).key, key)) && (k
            < pairs.len() ==> same_letters(pairs[k].key, key)) ==> first_with(pairs, key, from) == k,
        (forall|i: int|
            from <= i < k ==> !(same_letters((#[trigger] pairs[i]).key, key) && pairs[i].index
                == index)) && (k < pairs.len() ==> same_letters(pairs[k].key, key) && pairs[k].index
            == index) ==> first_at(pairs, key, index, from) == k,
    decreases k - from,
{
    if from < k {
        lookups_find_the_first(pairs, key, index, k, from + 1);
    }
}

/// A key's values are those of all its pairs, in file order.
pub proof fn values_are_those_of_the_key(pairs: Seq<Pair>, key: Seq<char>, n: nat)
    requires
        n <= pairs.len(),
    ensures
        values_for(pairs, key, n) == pairs.take(n as int).filter(
            |p: Pair| same_letters(p.key, key),
        ).map_values(|p: Pair| p.value),
    decreases n,
{
    reveal(Seq::filter);
    let f = |p: Pair| same_letters(p.key, key);
    let g = |p: Pair| p.value;
    let t = pairs.take(n as int);
    if n > 0 {
        values_are_those_of_the_key(pairs, key, (n - 1) as nat);
        let u = pairs.take(n - 1);
        assert(t.drop_last() =~= u);
        assert(t.last() == pairs[n - 1]);
        assert(u.filter(f).push(t.last()).map_values(g) =~= u.filter(f).map_values(g).push(
            g(t.last()),
        ));
    } else {
        assert(t.filter(f).map_values(g) =~= Seq::empty());
    }
}

/// A pair with an index goes behind all of its key whose index is no greater and
/// before the others, and nothing else moves.
pub proof fn indexed_values_go_in_their_place(pairs: Seq<Pair>, key: Seq<char>, n: nat, i: u32)
    requires
        0 < n <= pairs.len(),
        pairs[n - 1].index == Some(i),
        same_letters(pairs[n - 1].key, key),
    ensures
        ({
            let (v, w) = (by_index(pairs, key, (n - 1) as nat), by_index(pairs, key, n));
            exists|k: int|
                0 <= k <= v.len() && #[trigger] w[k] == (i, pairs[n - 1].value) && w.remove(k) == v
                    && (forall|j: int| 0 <= j < k ==> (#[trigger] v[j]).0 <= i) && (k < v.len()
                    ==> v[k].0 > i)
        }),
{
    let (v, w) = (by_index(pairs, key, (n - 1) as nat), by_index(pairs, key, n));
    room_is_behind(v, i, 0);
    let k = room_for(v, i, 0);
    assert(w[k] == (i, pairs[n - 1].value));
    assert(w.remove(k) =~= v);
}

proof fn room_is_behind(v: Seq<(u32, Seq<char>)>, i: u32, from: int)
    requires
        0 <= from <= v.len(),
    ensures
        from <= room_for(v, i, from) <= v.len(),
        forall|j: int| from <= j < room_for(v, i, from) ==> (#[trigger] v[j]).0 <= i,
        room_for(v, i, from) < v.len() ==> v[room_for(v, i, from)].0 > i,
    decreases v.len() - from,
{
    if from < v.len() && v[from].0 <= i {
        room_is_behind(v, i, from + 1);
    }
}

/// Merging leaves no key and index of the other file out.
pub proof fn merging_leaves_nothing_out(pairs: Seq<Pair>, other: Seq<Pair>, n: nat, j: int)
    requires
        0 <= j < n <= other.len(),
    ensures
        exists|k: int|
            0 <= k < merged(pairs, other, n).len() && is_at(
                #[trigger] merged(pairs, other, n)[k],
                other[j].key,
                other[j].index,
            ),
    decreases n,
{
    let m = merged(pairs, other, n);
    let b = merged(pairs, other, (n - 1) as nat);
    let p = other[n - 1];
    if j < n - 1 {
        merging_leaves_nothing_out(pairs, other, (n - 1) as nat, j);
        let k = choose|k: int|
            0 <= k < b.len() && is_at(#[trigger] b[k], other[j].key, other[j].index);
        assert(is_at(m[k], other[j].key, other[j].index));
    } else {
        found_is_at(b, p.key, p.index, 0);
        let k = first_at(b, p.key, p.index, 0);
        if k < b.len() {
            assert(is_at(m[k], p.key, p.index));
        } else {
            assert(is_at(m[b.len() as int], p.key, p.index));
        }
    }
}

proof fn found_is_at(pairs: Seq<Pair>, key: Seq<char>, index: Option<u32>, from: int)
    requires
        0 <= from <= pairs.len(),
    ensures
        from <= first_at(pairs, key, index, from) <= pairs.len(),
        first_at(pairs, key, index, from) < pairs.len() ==> is_at(
            pairs[first_at(pairs, key, index, from)],
            key,
            index,
        ),
    decreases pairs.len() - from,
{
    if from < pairs.len() && !is_at(pairs[from], key, index) {
        found_is_at(pairs, key, index, from + 1);
    }
}

/// A word that no exact entry spells expands to the first loose entry that is the
/// same but for capitals, and to nothing where there is none.
pub proof fn loose_entries_overlook_capitals(words: Seq<LexWord>, word: Seq<char>, k: int)
    requires
        0 <= k <= words.len(),
        forall|i: int|
            0 <= i < words.len() && (#[trigger] words[i]).case_sensitive ==> words[i].word != word,
        forall|i: int|
            0 <= i < k && !(#[trigger] words[i]).case_sensitive ==> !same_letters(
                words[i].word,
                word,
            ),
        k < words.len() ==> !words[k].case_sensitive && same_letters(words[k].word, word),
    ensures
        expansion_of(words, word) == (if k < words.len() {
            Some(words[k].expansion)
        } else {
            None
        }),
{
    no_exact(words, word, 0);
    loose_is_first(words, word, 0, k);
}

proof fn no_exact(words: Seq<LexWord>, word: Seq<char>, from: int)
    requires
        0 <= from <= words.len(),
        forall|i: int|
            0 <= i < words.len() && (#[trigger] words[i]).case_sensitive ==> words[i].word != word,
    ensures
        first_exact(words, word, from) == words.len(),
    decreases words.len() - from,
{
    if from < words.len() {
        no_exact(words, word, from + 1);
    }
}

proof fn loose_is_first(words: Seq<LexWord>, word: Seq<char>, from: int, k: int)
    requires
        0 <= from <= k <= words.len(),
        forall|i: int|
            from <= i < k && !(#[trigger] words[i]).case_sensitive ==> !same_letters(
                words[i].word,
                word,
            ),
        k < words.len() ==> !words[k].case_sensitive && same_letters(words[k].word, word),
    ensures
        first_loose(words, word, from) == k,
    decreases k - from,
{
    if from < k {
        loose_is_first(words, word, from + 1, k);
    }
}

/// A key behind a mark is an exact word, and any other a loose one, with its
/// index as it was written.
pub proof fn marked_words_are_exact(key: Seq<char>, value: Seq<char>, line: int, i: u32)
    ensures
        word_of(Pair { key: "\\x"@ + key, index: None, value, line }) == (LexWord {
            word: key,
            expansion: value,
            case_sensitive: true,
            line,
        }),
        key.len() > 0 && key[0] != '\\' ==> word_of(Pair { key, index: None, value, line }) == (
        LexWord { word: key, expansion: value, case_sensitive: false, line }),
        whole_key(Pair { key, index: Some(i), value, line }) == key + seq!['['] + written(
            i as nat,
            10,
        ) + seq![']'],
{
    reveal_strlit("\\x");
    reveal_strlit("[");
    reveal_strlit("]");
    let k = "\\x"@ + key;
    texts_begin_with_their_starts("\\x"@, key);
    assert(k.subrange(2, k.len() as int) =~= key);
    if key.len() > 0 && begins(key, "\\x"@) {
        assert(key.subrange(0, 2)[0] == key[0]);
    }
    assert("["@ =~= seq!['[']);
    assert("]"@ =~= seq![']']);
}

/// A first line without an equals sign names a lexicon; a pair or a comment does
/// not.
pub proof fn first_lines_name_lexicons(ls: Seq<Seq<char>>)
    requires
        ls.len() > 0,
        trimmed(ls[0]).len() > 0,
    ensures
        lacks(trimmed(ls[0]), '=') && trimmed(ls[0])[0] != ';' ==> header_of(ls) == trimmed(ls[0]),
        trimmed(ls[0])[0] == ';' ==> header_of(ls).len() == 0,
        is_entry(trimmed(ls[0])) ==> header_of(ls).len() == 0,
{
    if lacks(trimmed(ls[0]), '=') {
        nowhere(trimmed(ls[0]), 0, false);
    }
}

/// A record's word stands before its first equals sign and its transcription
/// behind it.
pub proof fn records_are_split_at_the_first_equals_sign(word: Seq<char>, how: Seq<char>)
    requires
        lacks(word, '='),
    ensures
        is_record(word + seq!['='] + how),
        entry_of(word + seq!['='] + how) == (PhdRecord { word, transcription: how }),
        word.len() > 0 ==> !is_record(word),
{
    let s = word + seq!['='] + how;
    find_bounds(s, '=', 0);
    find_bounds(word, '=', 0);
    let n = find_from(s, '=', 0);
    assert(s[word.len() as int] == '=');
    if n < word.len() {
        assert(s[n] == word[n]);
    }
    assert(s.subrange(0, n) =~= word);
    assert(s.subrange(n + 1, s.len() as int) =~= how);
}

/// A file without the mark is its body; behind the mark, each byte is the sum of
/// a body's byte and the one before it.
pub proof fn marked_bodies_are_sums(raw: Seq<u8>, i: int)
    ensures
        !(raw.len() >= 2 && raw[0] == 1 && raw[1] == 1) ==> body_of(raw) == raw,
        raw.len() >= 2 && raw[0] == 1 && raw[1] == 1 ==> {
            let b = body_of(raw);
            &&& b.len() == raw.len() - 2
            &&& b.len() > 0 ==> b[0] == raw[2]
            &&& 0 < i < b.len() ==> (b[i] + b[i - 1]) % 256 == raw[i + 2]
        },
{
    if raw.len() >= 2 && raw[0] == 1 && raw[1] == 1 {
        let r = raw.subrange(2, raw.len() as int);
        undelta_round_trips(r);
        let b = undelta(r);
        if b.len() > 0 {
            assert(super::phd::delta(b)[0] == r[0]);
        }
        if 0 < i < b.len() {
            assert(super::phd::delta(b)[i] == r[i]);
        }
    }
}

/// Blank records give no entry, and every other gives its own, in order.
pub proof fn records_give_their_entries(v: Seq<Seq<char>>, n: nat)
    requires
        0 < n <= v.len(),
    ensures
        v[n - 1].len() == 0 ==> entries_of(v, n) == entries_of(v, (n - 1) as nat),
        v[n - 1].len() > 0 ==> entries_of(v, n) == entries_of(v, (n - 1) as nat).push(
            entry_of(v[n - 1]),
        ),
{
}

/// A dictionary's records are the lines of its body.
pub proof fn records_are_lines(raw: Seq<u8>, v: Seq<Seq<char>>)
    requires
        v.len() > 0,
        forall|k: int| 0 <= k < v.len() ==> lacks(#[trigger] v[k], '\n'),
        latin1(body_of(raw)) == joined_by(v, '\n'),
    ensures
        records_of(raw) == v,
{
    joined_pieces_are_split_again(v, '\n');
}

/// Words are ordered by the first byte in which they differ, and a word comes
/// before each that goes on from it.
pub proof fn first_difference_orders_words(x: Seq<u8>, y: Seq<u8>, k: int)
    requires
        0 <= k <= x.len(),
        k <= y.len(),
        x.take(k) == y.take(k),
    ensures
        k < x.len() && k < y.len() && x[k] != y[k] ==> before(x, y) == (x[k] < y[k]),
        k == x.len() ==> before(x, y) == (k < y.len()),
        k == y.len() ==> !before(x, y),
    decreases k,
{
    if k > 0 {
        assert(x[0] == x.take(k)[0]);
        assert(y[0] == y.take(k)[0]);
        let (p, q) = (x.subrange(1, x.len() as int), y.subrange(1, y.len() as int));
        assert(p.take(k - 1) =~= x.take(k).subrange(1, k));
        assert(q.take(k - 1) =~= y.take(k).subrange(1, k));
        first_difference_orders_words(p, q, k - 1);
    }
}

proof fn all_high(raw: Seq<u8>, n: nat)
    requires
        n <= raw.len(),
    ensures
        (forall|i: int| 0 <= i < n ==> #[trigger] raw[i] >= 128) ==> high_bytes(raw, n) == n,
        (forall|i: int| 0 <= i < n ==> #[trigger] raw[i] < 128) ==> high_bytes(raw, n) == 0,
    decreases n,
{
    if n > 0 {
        all_high(raw, (n - 1) as nat);
    }
}

/// A file that was encoded reads as its text, and so does a plain one: which of
/// the two it is shows in its top bits.
pub proof fn either_form_reads_as_its_text(text: Seq<char>)
    requires
        text.len() > 0,
        forall|i: int|
            0 <= i < text.len() ==> '\u{0}' <= #[trigger] text[i] <= '\u{7f}' && text[i] != '\n' && text[i]
                != '\r',
    ensures
        text_in(encoded(text)) == text,
        text_in(text.map_values(|c: char| c as u8)) == text,
{
    let e = encoded(text);
    let p = text.map_values(|c: char| c as u8);
    super::text::decoding_undoes_encoding(text);
    assert forall|i: int| 0 <= i < e.len() implies #[trigger] e[i] >= 128 by {
        assert('\u{0}' <= text[i] <= '\u{7f}');
    }
    assert forall|i: int| 0 <= i < p.len() implies #[trigger] p[i] < 128 by {
        assert('\u{0}' <= text[i] <= '\u{7f}');
    }
    all_high(e, sampled(e));
    all_high(p, sampled(p));
    assert(is_encoded(e));
    assert(!is_encoded(p));
    assert forall|i: int| 0 <= i < text.len() implies #[trigger] latin1(p)[i] == text[i] by {
        assert('\u{0}' <= text[i] <= '\u{7f}');
    }
    assert(latin1(p) =~= text);
}

/// The ends of lines stay as they are in an encoded text.
pub proof fn line_ends_are_not_encoded(text: Seq<char>, i: int)
    requires
        0 <= i < text.len(),
        '\u{0}' <= text[i] <= '\u{7f}',
    ensures
        text[i] == '\n' ==> encoded(text)[i] == 10,
        text[i] == '\r' ==> encoded(text)[i] == 13,
        text[i] != '\n' && text[i] != '\r' ==> encoded(text)[i] == text[i] as int + 128,
        decoded(encoded(text))[i] == text[i],
{
}

} // verus!
