//! The phonetic dictionary: words and their transcriptions.
//!
//! The body is `word=transcription` records, one per line, in byte order. A
//! file that starts with [`DELTA_MAGIC`] stores each byte of the body as a
//! difference from the one before.
use vstd::prelude::*;
use vstd::utf8::encode_utf8;
use super::chars::{
    debug_of, debug_text, find, find_bounds, find_from, pieces, push_str, rest, split_at_each,
    split_on, text_of,
};
use super::error::{Error, Fault};
use super::text::{latin1, latin1_chars};

verus! {

/// The two bytes that mark a delta-encoded body.
pub const DELTA_MAGIC: [u8; 2] = [0x01, 0x01];

/// One word and its transcription.
#[derive(Debug, Clone, PartialEq, Eq)]
pub struct PhdEntry {
    /// The word.
    pub word: String,
    /// How it is said.
    pub transcription: String,
}

/// One entry as mathematics.
pub struct PhdRecord {
    /// The word.
    pub word: Seq<char>,
    /// How it is said.
    pub transcription: Seq<char>,
}

impl View for PhdEntry {
    type V = PhdRecord;

    open spec fn view(&self) -> PhdRecord {
        PhdRecord { word: self.word@, transcription: self.transcription@ }
    }
}

/// A phonetic dictionary.
#[derive(Debug, Clone)]
pub struct Phd {
    /// The entries, in file order.
    pub entries: Vec<PhdEntry>,
    /// Whether the file carried the delta mark.
    pub delta_encoded: bool,
}

impl Default for Phd {
    fn default() -> (r: Self)
        ensures
            r.entries@.len() == 0,
            !r.delta_encoded,
    {
        Phd { entries: Vec::new(), delta_encoded: false }
    }
}

/// The body that a delta-encoded one stands for.
pub open spec fn undelta(raw: Seq<u8>) -> Seq<u8>
    decreases raw.len(),
{
    if raw.len() == 0 {
        Seq::empty()
    } else {
        let p = undelta(raw.subrange(0, raw.len() - 1));
        let b = raw[raw.len() - 1];
        p.push(
            if p.len() == 0 {
                b
            } else {
                ((b - p[p.len() - 1]) % 256) as u8
            },
        )
    }
}

/// The delta encoding of a body.
pub open spec fn delta(plain: Seq<u8>) -> Seq<u8> {
    plain.map(
        |i: int, b: u8|
            if i == 0 {
                b
            } else {
                ((b + plain[i - 1]) % 256) as u8
            },
    )
}

/// Whether a file carries the delta mark.
pub open spec fn has_delta_mark(raw: Seq<u8>) -> bool {
    raw.len() >= 2 && raw[0] == 1 && raw[1] == 1
}

/// The body of a file.
pub open spec fn body_of(raw: Seq<u8>) -> Seq<u8> {
    if has_delta_mark(raw) {
        undelta(raw.subrange(2, raw.len() as int))
    } else {
        raw
    }
}

/// The records of a file, as text.
pub open spec fn records_of(raw: Seq<u8>) -> Seq<Seq<char>> {
    split_at_each(latin1(body_of(raw)), '\n')
}

/// A record that is blank, or holds an equals sign.
pub open spec fn is_record(s: Seq<char>) -> bool {
    s.len() == 0 || find_from(s, '=', 0) < s.len()
}

/// A record split at its first equals sign.
pub open spec fn entry_of(s: Seq<char>) -> PhdRecord {
    let eq = find_from(s, '=', 0);
    PhdRecord { word: s.subrange(0, eq), transcription: s.subrange(eq + 1, s.len() as int) }
}

/// The entries of the first `n` records; blank ones give none.
pub open spec fn entries_of(records: Seq<Seq<char>>, n: nat) -> Seq<PhdRecord>
    decreases n,
{
    if n == 0 {
        Seq::empty()
    } else {
        let before = entries_of(records, (n - 1) as nat);
        let s = records[n - 1];
        if s.len() == 0 {
            before
        } else {
            before.push(entry_of(s))
        }
    }
}

/// The start of a record, as an error quotes it.
pub open spec fn excerpt(s: Seq<char>) -> Seq<char> {
    if s.len() < 32 {
        s
    } else {
        s.subrange(0, 32)
    }
}

/// The entries of a dictionary, as mathematics.
pub open spec fn listed(entries: Seq<PhdEntry>) -> Seq<PhdRecord> {
    entries.map_values(|e: PhdEntry| e@)
}

impl Phd {
    /// Reads a dictionary.
    ///
    /// A record without an equals sign is an error, at its line.
    pub fn parse_bytes(name: &str, raw: &[u8]) -> (r: Result<Phd, Error>)
        ensures
            match r {
                Ok(p) => {
                    &&& forall|i: int| 0 <= i < records_of(raw@).len() ==> #[trigger] is_record(
                        records_of(raw@)[i],
                    )
                    &&& listed(p.entries@) == entries_of(records_of(raw@), records_of(raw@).len())
                    &&& p.delta_encoded == has_delta_mark(raw@)
                },
                Err(e) => exists|i: int|
                    {
                        &&& 0 <= i < records_of(raw@).len()
                        &&& !(#[trigger] is_record(records_of(raw@)[i]))
                        &&& forall|k: int| 0 <= k < i ==> is_record(records_of(raw@)[k])
                        &&& e@ == (Fault {
                            file: name@,
                            line: i + 1,
                            what: "record has no `=`: "@ + debug_text(excerpt(records_of(raw@)[i])),
                        })
                    },
            },
    {
        let delta_encoded: bool = raw.len() >= 2 && raw[0] == 1 && raw[1] == 1;
        let chars: Vec<char> = if delta_encoded {
            let plain: Vec<u8> = delta_decode(vstd::slice::slice_subrange(raw, 2, raw.len()));
            latin1_chars(plain.as_slice())
        } else {
            latin1_chars(raw)
        };
        let records: Vec<Vec<char>> = split_on(chars.as_slice(), '\n');
        let ghost want = records_of(raw@);
        let mut entries: Vec<PhdEntry> = Vec::new();
        assert(listed(entries@) =~= Seq::empty());
        let mut i: usize = 0;
        while i < records.len()
            invariant
                i <= records@.len(),
                pieces(records@) == want,
                want == records_of(raw@),
                forall|k: int| 0 <= k < i ==> #[trigger] is_record(want[k]),
                listed(entries@) == entries_of(want, i as nat),
            decreases records@.len() - i,
        {
            let rec: &[char] = records[i].as_slice();
            assert(rec@ == want[i as int]);
            if rec.len() > 0 {
                proof {
                    find_bounds(rec@, '=', 0);
                }
                let eq: usize = find(rec, '=', 0);
                if eq == rec.len() {
                    assert(!is_record(want[i as int]));
                    return Err(missing_equals(name, i, rec));
                }
                let ghost before = listed(entries@);
                let e = PhdEntry {
                    word: text_of(vstd::slice::slice_subrange(rec, 0, eq)),
                    transcription: text_of(rest(rec, eq + 1)),
                };
                entries.push(e);
                assert(listed(entries@) =~= before.push(e@));
            }
            i = i + 1;
        }
        Ok(Phd { entries, delta_encoded })
    }

    /// The words, as the bytes that order them.
    pub open spec fn keys(self) -> Seq<Seq<u8>> {
        self.entries@.map_values(|e: PhdEntry| encode_utf8(e.word@))
    }

    /// Finds a word's transcription by bisection.
    ///
    /// A file out of order may miss a word that it holds.
    pub fn lookup(&self, word: &str) -> (r: Option<&str>)
        ensures
            match (r, bisected(self.keys(), encode_utf8(word@), 0, self.entries@.len() - 1)) {
                (Some(t), Some(i)) => t@ == self.entries@[i].transcription@,
                (None, None) => true,
                _ => false,
            },
    {
        let key: &[u8] = word.as_bytes();
        let ghost keys = self.keys();
        let mut lo: usize = 0;
        let mut end: usize = self.entries.len();
        while lo < end
            invariant
                lo <= end <= self.entries@.len(),
                keys == self.keys(),
                key@ == encode_utf8(word@),
                bisected(keys, key@, 0, self.entries@.len() - 1) == bisected(
                    keys,
                    key@,
                    lo as int,
                    end - 1,
                ),
            decreases end - lo,
        {
            let mid: usize = lo + (end - 1 - lo) / 2;
            assert(mid == (lo + (end - 1)) / 2);
            let w: &[u8] = self.entries[mid].word.as_str().as_bytes();
            assert(w@ == keys[mid as int]);
            if sorts_before(w, key) {
                lo = mid + 1;
            } else if sorts_before(key, w) {
                end = mid;
            } else {
                return Some(self.entries[mid].transcription.as_str());
            }
        }
        None
    }

    /// The first pair of neighbours out of order, if there is one: the index
    /// of the first of them, and both words.
    pub fn first_unsorted(&self) -> (r: Option<(usize, &str, &str)>)
        ensures
            match r {
                Some((i, a, b)) => {
                    &&& i + 1 < self.entries@.len()
                    &&& a@ == self.entries@[i as int].word@
                    &&& b@ == self.entries@[i + 1].word@
                    &&& before(self.keys()[i + 1], self.keys()[i as int])
                    &&& forall|k: int|
                        0 <= k < i ==> !before(self.keys()[k + 1], #[trigger] self.keys()[k])
                },
                None => in_order(self.keys()),
            },
    {
        let n: usize = self.entries.len();
        let ghost keys = self.keys();
        let mut i: usize = 0;
        while i < n && i < n - 1
            invariant
                i <= n == self.entries@.len(),
                keys == self.keys(),
                forall|k: int| 0 <= k < i ==> !before(keys[k + 1], #[trigger] keys[k]),
            decreases n - i,
        {
            let a: &str = self.entries[i].word.as_str();
            let b: &str = self.entries[i + 1].word.as_str();
            assert(keys[i as int] == encode_utf8(a@));
            assert(keys[i + 1] == encode_utf8(b@));
            if sorts_before(b.as_bytes(), a.as_bytes()) {
                return Some((i, a, b));
            }
            i = i + 1;
        }
        None
    }

    /// How many entries there are.
    pub fn len(&self) -> (r: usize)
        ensures
            r == self.entries@.len(),
    {
        self.entries.len()
    }

    /// Whether there are none.
    pub fn is_empty(&self) -> (r: bool)
        ensures
            r == (self.entries@.len() == 0),
    {
        self.entries.len() == 0
    }
}

/// The error for a record without an equals sign.
fn missing_equals(name: &str, i: usize, rec: &[char]) -> (e: Error)
    requires
        i < usize::MAX,
    ensures
        e@ == (Fault {
            file: name@,
            line: i + 1,
            what: "record has no `=`: "@ + debug_text(excerpt(rec@)),
        }),
{
    let n: usize = if rec.len() < 32 {
        rec.len()
    } else {
        32
    };
    let part: &[char] = vstd::slice::slice_subrange(rec, 0, n);
    assert(part@ =~= excerpt(rec@));
    let shown: String = debug_of(text_of(part).as_str());
    let mut what: Vec<char> = Vec::new();
    push_str(&mut what, "record has no `=`: ");
    push_str(&mut what, shown.as_str());
    assert(what@ =~= "record has no `=`: "@ + debug_text(excerpt(rec@)));
    Error::new(name, i + 1, text_of(what.as_slice()))
}

/// Whether `a` comes before `b`, byte by byte.
pub open spec fn before(a: Seq<u8>, b: Seq<u8>) -> bool
    decreases a.len(),
{
    if b.len() == 0 {
        false
    } else if a.len() == 0 {
        true
    } else if a[0] != b[0] {
        a[0] < b[0]
    } else {
        before(a.subrange(1, a.len() as int), b.subrange(1, b.len() as int))
    }
}

/// No entry comes after its successor.
pub open spec fn in_order(keys: Seq<Seq<u8>>) -> bool {
    forall|k: int| 0 <= k < keys.len() - 1 ==> !before(keys[k + 1], #[trigger] keys[k])
}

/// Where bisection of `lo..=hi` finds `key`.
pub open spec fn bisected(keys: Seq<Seq<u8>>, key: Seq<u8>, lo: int, hi: int) -> Option<int>
    decreases hi - lo + 1,
{
    if lo > hi || lo < 0 {
        None
    } else {
        let mid = (lo + hi) / 2;
        if before(keys[mid], key) {
            bisected(keys, key, mid + 1, hi)
        } else if before(key, keys[mid]) {
            bisected(keys, key, lo, mid - 1)
        } else {
            Some(mid)
        }
    }
}

/// Whether `a` comes before `b`, byte by byte.
fn sorts_before(a: &[u8], b: &[u8]) -> (r: bool)
    ensures
        r == before(a@, b@),
{
    let mut i: usize = 0;
    assert(a@.subrange(0, a@.len() as int) =~= a@);
    assert(b@.subrange(0, b@.len() as int) =~= b@);
    while i < a.len() && i < b.len()
        invariant
            i <= a@.len(),
            i <= b@.len(),
            before(a@, b@) == before(
                a@.subrange(i as int, a@.len() as int),
                b@.subrange(i as int, b@.len() as int),
            ),
        decreases a@.len() - i,
    {
        let ghost x = a@.subrange(i as int, a@.len() as int);
        let ghost y = b@.subrange(i as int, b@.len() as int);
        if a[i] != b[i] {
            return a[i] < b[i];
        }
        assert(x.subrange(1, x.len() as int) =~= a@.subrange(i + 1, a@.len() as int));
        assert(y.subrange(1, y.len() as int) =~= b@.subrange(i + 1, b@.len() as int));
        i = i + 1;
    }
    i < b.len()
}

/// Byte order is total and asymmetric.
proof fn order_is_total(a: Seq<u8>, b: Seq<u8>)
    ensures
        !(before(a, b) && before(b, a)),
        !before(a, b) && !before(b, a) ==> a == b,
        !before(a, a),
    decreases a.len(),
{
    if a.len() > 0 {
        let x = a.subrange(1, a.len() as int);
        if b.len() > 0 {
            let y = b.subrange(1, b.len() as int);
            order_is_total(x, y);
            if a[0] == b[0] && x == y {
                assert(a =~= seq![a[0]] + x);
                assert(b =~= seq![b[0]] + y);
            }
        } else {
            order_is_total(x, x);
        }
    } else {
        assert(a =~= Seq::empty());
        if b.len() == 0 {
            assert(b =~= Seq::empty());
        }
    }
}

/// Not coming after is transitive.
proof fn order_is_transitive(a: Seq<u8>, b: Seq<u8>, c: Seq<u8>)
    requires
        !before(b, a),
        !before(c, b),
    ensures
        !before(c, a),
        before(a, b) || before(b, c) ==> before(a, c),
    decreases a.len(),
{
    if a.len() > 0 && b.len() > 0 && c.len() > 0 && a[0] == b[0] && b[0] == c[0] {
        order_is_transitive(
            a.subrange(1, a.len() as int),
            b.subrange(1, b.len() as int),
            c.subrange(1, c.len() as int),
        );
    }
}

/// In an ordered list no entry comes after a later one.
proof fn order_spans(keys: Seq<Seq<u8>>, i: int, j: int)
    requires
        in_order(keys),
        0 <= i <= j < keys.len(),
    ensures
        !before(keys[j], keys[i]),
    decreases j - i,
{
    if i == j {
        order_is_total(keys[i], keys[i]);
    } else {
        order_spans(keys, i, j - 1);
        assert(!before(keys[j - 1 + 1], keys[j - 1]));
        order_is_transitive(keys[i], keys[j - 1], keys[j]);
    }
}

/// In an ordered dictionary, bisection finds a word exactly where the
/// dictionary holds it.
pub proof fn bisection_finds_every_word(keys: Seq<Seq<u8>>, key: Seq<u8>)
    requires
        in_order(keys),
    ensures
        bisected(keys, key, 0, keys.len() - 1) is Some <==> keys.contains(key),
        bisected(keys, key, 0, keys.len() - 1) matches Some(i) ==> 0 <= i < keys.len() && keys[i]
            == key,
{
    bisection_within(keys, key, 0, keys.len() - 1);
    if keys.contains(key) {
        let x = choose|x: int| 0 <= x < keys.len() && keys[x] == key;
        assert(0 <= x <= keys.len() - 1 && keys[x] == key);
    }
}

proof fn bisection_within(keys: Seq<Seq<u8>>, key: Seq<u8>, lo: int, hi: int)
    requires
        in_order(keys),
        0 <= lo,
        hi < keys.len(),
    ensures
        (exists|x: int| lo <= x <= hi && keys[x] == key) ==> bisected(keys, key, lo, hi) is Some,
        bisected(keys, key, lo, hi) matches Some(i) ==> lo <= i <= hi && keys[i] == key,
    decreases hi - lo + 1,
{
    if lo <= hi {
        let mid = (lo + hi) / 2;
        order_is_total(keys[mid], key);
        bisection_within(keys, key, mid + 1, hi);
        bisection_within(keys, key, lo, mid - 1);
        if exists|x: int| lo <= x <= hi && keys[x] == key {
            let x = choose|x: int| lo <= x <= hi && keys[x] == key;
            if before(keys[mid], key) && x <= mid {
                order_spans(keys, x, mid);
            }
            if before(key, keys[mid]) && x >= mid {
                order_spans(keys, mid, x);
            }
        }
    }
}

/// Decodes a delta-encoded body: each byte less the one decoded before it.
pub fn delta_decode(raw: &[u8]) -> (r: Vec<u8>)
    ensures
        r@ == undelta(raw@),
{
    let mut out: Vec<u8> = Vec::new();
    let mut prev: u8 = 0;
    let mut i: usize = 0;
    assert(raw@.subrange(0, 0) =~= Seq::empty());
    while i < raw.len()
        invariant
            i <= raw@.len(),
            out@.len() == i,
            i > 0 ==> prev == out@[i - 1],
            out@ == undelta(raw@.subrange(0, i as int)),
        decreases raw@.len() - i,
    {
        let v: u8 = if i == 0 {
            raw[i]
        } else {
            raw[i].wrapping_sub(prev)
        };
        let ghost s = raw@.subrange(0, i + 1);
        assert(s.subrange(0, s.len() - 1) =~= raw@.subrange(0, i as int));
        out.push(v);
        prev = v;
        i = i + 1;
    }
    assert(raw@.subrange(0, raw@.len() as int) =~= raw@);
    out
}

/// Delta-encodes a body.
pub fn delta_encode(plain: &[u8]) -> (r: Vec<u8>)
    ensures
        r@ == delta(plain@),
{
    let mut out: Vec<u8> = Vec::new();
    let mut i: usize = 0;
    while i < plain.len()
        invariant
            i <= plain@.len(),
            out@.len() == i,
            forall|k: int| 0 <= k < i ==> out@[k] == delta(plain@)[k],
        decreases plain@.len() - i,
    {
        out.push(
            if i == 0 {
                plain[i]
            } else {
                plain[i].wrapping_add(plain[i - 1])
            },
        );
        i = i + 1;
    }
    assert(out@ =~= delta(plain@));
    out
}

/// Decoding undoes encoding.
pub proof fn delta_round_trips(plain: Seq<u8>)
    ensures
        undelta(delta(plain)) == plain,
    decreases plain.len(),
{
    if plain.len() > 0 {
        let p = plain.subrange(0, plain.len() - 1);
        delta_round_trips(p);
        assert(delta(plain).subrange(0, plain.len() - 1) =~= delta(p));
        assert(undelta(delta(plain)) =~= plain);
    } else {
        assert(undelta(delta(plain)) =~= plain);
    }
}

/// Encoding undoes decoding.
pub proof fn undelta_round_trips(raw: Seq<u8>)
    ensures
        undelta(raw).len() == raw.len(),
        delta(undelta(raw)) == raw,
    decreases raw.len(),
{
    if raw.len() > 0 {
        let r = raw.subrange(0, raw.len() - 1);
        undelta_round_trips(r);
        let p = undelta(r);
        assert(delta(undelta(raw)).subrange(0, raw.len() - 1) =~= delta(p));
        assert forall|i: int| 0 <= i < raw.len() implies delta(undelta(raw))[i] == raw[i] by {
            if i < raw.len() - 1 {
                assert(delta(undelta(raw))[i] == delta(undelta(raw)).subrange(0, raw.len() - 1)[i]);
                assert(r[i] == raw[i]);
            }
        }
        assert(delta(undelta(raw)) =~= raw);
    } else {
        assert(delta(undelta(raw)) =~= raw);
    }
}

} // verus!
