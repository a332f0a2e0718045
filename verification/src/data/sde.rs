//! The signal descriptor: what a bank's recordings are, and where each half
//! unit sits inside them.
//!
//! One record per line. Unit records hold numbers in base 93, whose digits run
//! from `"` (zero) to `~`. A unit that states no start begins where the one
//! before it ended.
use vstd::prelude::*;
use vstd::utf8::encode_utf8;
use super::chars::{
    begins, chars_of, find, find_from, lines, parse_signed, pieces, rest, signed, split_at_each,
    split_lines, split_on, starts_with, text_of, trim, trimmed,
};
use super::error::{quoted, Error, Fault};
use super::text::{chars_auto, text_in};

verus! {

/// One line.
#[derive(Debug, Clone, PartialEq, Eq)]
pub enum SdeRecord {
    /// The pair of numbers on the first line.
    Header(Vec<i64>),
    /// `VERSION=`.
    Version(i64),
    /// `N=`: how many utterances, phonemes and half units there are.
    Counts(Vec<i64>),
    /// `U=`: the transcription of one recording.
    Utterance(String),
    /// `L`: the left half of a unit. Everything after the letter, split on
    /// spaces.
    Left {
        /// The fields.
        tokens: Vec<String>,
    },
    /// `R`: the right half.
    Right {
        /// The fields.
        tokens: Vec<String>,
    },
    /// `S=`.
    Section(String),
    /// Anything else, kept.
    Other(String),
}

/// One line as mathematics.
pub enum SdeLine {
    /// The pair of numbers on the first line.
    Header(Seq<i64>),
    /// `VERSION=`.
    Version(i64),
    /// `N=`.
    Counts(Seq<i64>),
    /// `U=`.
    Utterance(Seq<char>),
    /// `L`.
    Left(Seq<Seq<char>>),
    /// `R`.
    Right(Seq<Seq<char>>),
    /// `S=`.
    Section(Seq<char>),
    /// Anything else.
    Other(Seq<char>),
}

/// Strings as sequences.
pub open spec fn strings(v: Seq<String>) -> Seq<Seq<char>> {
    v.map_values(|s: String| s@)
}

impl View for SdeRecord {
    type V = SdeLine;

    open spec fn view(&self) -> SdeLine {
        match *self {
            SdeRecord::Header(v) => SdeLine::Header(v@),
            SdeRecord::Version(v) => SdeLine::Version(v),
            SdeRecord::Counts(v) => SdeLine::Counts(v@),
            SdeRecord::Utterance(s) => SdeLine::Utterance(s@),
            SdeRecord::Left { tokens } => SdeLine::Left(strings(tokens@)),
            SdeRecord::Right { tokens } => SdeLine::Right(strings(tokens@)),
            SdeRecord::Section(s) => SdeLine::Section(s@),
            SdeRecord::Other(s) => SdeLine::Other(s@),
        }
    }
}

/// A signal descriptor.
#[derive(Debug, Clone)]
pub struct Sde {
    /// The records, in file order.
    pub records: Vec<SdeRecord>,
}

impl View for Sde {
    type V = Seq<SdeLine>;

    open spec fn view(&self) -> Seq<SdeLine> {
        self.records@.map_values(|r: SdeRecord| r@)
    }
}

impl Default for Sde {
    fn default() -> (r: Self)
        ensures
            r@ == Seq::<SdeLine>::empty(),
    {
        let r = Sde { records: Vec::new() };
        assert(r@ =~= Seq::<SdeLine>::empty());
        r
    }
}

/// The numbers that the first `n` pieces write, or the first piece that writes
/// none.
pub open spec fn numbers_in(ps: Seq<Seq<char>>, n: nat) -> Result<Seq<i64>, Seq<char>>
    decreases n,
{
    if n == 0 {
        Ok(Seq::empty())
    } else {
        match numbers_in(ps, (n - 1) as nat) {
            Err(p) => Err(p),
            Ok(v) => match signed(trimmed(ps[n - 1])) {
                Some(x) => Ok(v.push(x as i64)),
                None => Err(ps[n - 1]),
            },
        }
    }
}

/// The numbers of a comma-separated list, or what is wrong with it.
pub open spec fn number_list(s: Seq<char>) -> Result<Seq<i64>, Seq<char>> {
    let ps = split_at_each(s, ',');
    match numbers_in(ps, ps.len()) {
        Ok(v) => Ok(v),
        Err(p) => Err("bad number `"@ + p + "`"@),
    }
}

/// Of the first `n` pieces, those that are not empty.
pub open spec fn non_empty(ps: Seq<Seq<char>>, n: nat) -> Seq<Seq<char>>
    decreases n,
{
    if n == 0 {
        Seq::empty()
    } else {
        let before = non_empty(ps, (n - 1) as nat);
        if ps[n - 1].len() > 0 {
            before.push(ps[n - 1])
        } else {
            before
        }
    }
}

/// The fields of a unit record, past its letter.
pub open spec fn fields_of(s: Seq<char>) -> Seq<Seq<char>> {
    let ps = split_at_each(s.subrange(1, s.len() as int), ' ');
    non_empty(ps, ps.len())
}

/// A prefix taken off.
pub open spec fn after_prefix(s: Seq<char>, p: Seq<char>) -> Seq<char> {
    s.subrange(p.len() as int, s.len() as int)
}

/// The record on a line, or what is wrong with it.
pub open spec fn record_on(s: Seq<char>, line: int) -> Result<SdeLine, Seq<char>> {
    if begins(s, "VERSION="@) {
        let v = after_prefix(s, "VERSION="@);
        match signed(trimmed(v)) {
            Some(n) => Ok(SdeLine::Version(n as i64)),
            None => Err("bad VERSION `"@ + v + "`"@),
        }
    } else if begins(s, "N="@) {
        match number_list(after_prefix(s, "N="@)) {
            Ok(v) => Ok(SdeLine::Counts(v)),
            Err(e) => Err(e),
        }
    } else if begins(s, "U="@) {
        Ok(SdeLine::Utterance(after_prefix(s, "U="@)))
    } else if begins(s, "S="@) {
        Ok(SdeLine::Section(after_prefix(s, "S="@)))
    } else if s.len() >= 2 && s[0] == 'L' {
        Ok(SdeLine::Left(fields_of(s)))
    } else if s.len() >= 2 && s[0] == 'R' {
        Ok(SdeLine::Right(fields_of(s)))
    } else if line == 1 && find_from(s, ',', 0) < s.len() {
        match number_list(s) {
            Ok(v) => Ok(SdeLine::Header(v)),
            Err(e) => Err(e),
        }
    } else {
        Ok(SdeLine::Other(s))
    }
}

/// Without the carriage returns at its end.
pub open spec fn without_returns(s: Seq<char>) -> Seq<char>
    decreases s.len(),
{
    if s.len() > 0 && s[s.len() - 1] == '\r' {
        without_returns(s.subrange(0, s.len() - 1))
    } else {
        s
    }
}

/// The records on the first `n` lines, or the first line that holds none and
/// what is wrong with it.
pub open spec fn records_on(ls: Seq<Seq<char>>, n: nat) -> Result<Seq<SdeLine>, (int, Seq<char>)>
    decreases n,
{
    if n == 0 {
        Ok(Seq::empty())
    } else {
        match records_on(ls, (n - 1) as nat) {
            Err(e) => Err(e),
            Ok(v) => {
                let s = without_returns(ls[n - 1]);
                if s.len() == 0 {
                    Ok(v)
                } else {
                    match record_on(s, n as int) {
                        Ok(r) => Ok(v.push(r)),
                        Err(what) => Err((n as int, what)),
                    }
                }
            },
        }
    }
}

/// What reading a descriptor's lines gives.
pub open spec fn sde_parsed(
    name: Seq<char>,
    ls: Seq<Seq<char>>,
    r: Result<Seq<SdeLine>, Fault>,
) -> bool {
    match (r, records_on(ls, ls.len())) {
        (Ok(v), Ok(want)) => v == want,
        (Err(e), Err(want)) => e == (Fault { file: name, line: want.0, what: want.1 }),
        _ => false,
    }
}

/// The numbers of a comma-separated list.
fn numbers(file: &str, line: usize, s: &[char]) -> (r: Result<Vec<i64>, Error>)
    ensures
        match (r, number_list(s@)) {
            (Ok(v), Ok(want)) => v@ == want,
            (Err(e), Err(what)) => e@ == (Fault { file: file@, line: line as int, what }),
            _ => false,
        },
{
    let parts: Vec<Vec<char>> = split_on(s, ',');
    let ghost ps = pieces(parts@);
    let mut out: Vec<i64> = Vec::new();
    let mut i: usize = 0;
    while i < parts.len()
        invariant
            i <= parts@.len(),
            ps == pieces(parts@),
            ps == split_at_each(s@, ','),
            numbers_in(ps, i as nat) == Ok::<Seq<i64>, Seq<char>>(out@),
        decreases parts@.len() - i,
    {
        assert(ps[i as int] == parts@[i as int]@);
        match parse_signed(trim(parts[i].as_slice())) {
            Some(v) => {
                out.push(v);
            },
            None => {
                proof {
                    bad_number_stays(ps, (i + 1) as nat, ps.len());
                }
                return Err(Error::new(file, line, quoted("bad number `", parts[i].as_slice(), "`")));
            },
        }
        i = i + 1;
    }
    Ok(out)
}

proof fn bad_number_stays(ps: Seq<Seq<char>>, n: nat, m: nat)
    requires
        n <= m,
        numbers_in(ps, n) is Err,
    ensures
        numbers_in(ps, m) == numbers_in(ps, n),
    decreases m,
{
    if n < m {
        bad_number_stays(ps, n, (m - 1) as nat);
    }
}

/// The fields of a unit record, past its letter.
fn fields(s: &[char]) -> (r: Vec<String>)
    requires
        s@.len() >= 1,
    ensures
        strings(r@) == fields_of(s@),
{
    let parts: Vec<Vec<char>> = split_on(rest(s, 1), ' ');
    let ghost ps = pieces(parts@);
    let mut out: Vec<String> = Vec::new();
    assert(strings(out@) =~= Seq::empty());
    let mut i: usize = 0;
    while i < parts.len()
        invariant
            i <= parts@.len(),
            ps == pieces(parts@),
            strings(out@) == non_empty(ps, i as nat),
        decreases parts@.len() - i,
    {
        assert(ps[i as int] == parts@[i as int]@);
        if parts[i].len() > 0 {
            let ghost before = strings(out@);
            let t: String = text_of(parts[i].as_slice());
            out.push(t);
            assert(strings(out@) =~= before.push(t@));
        }
        i = i + 1;
    }
    out
}

/// Whether `s` begins with `p`.
fn has_prefix(s: &[char], p: &str) -> (r: bool)
    ensures
        r == begins(s@, p@),
{
    let cs: Vec<char> = chars_of(p);
    starts_with(s, cs.as_slice())
}

/// Reads one line.
fn parse_line(file: &str, line: usize, s: &[char]) -> (r: Result<SdeRecord, Error>)
    ensures
        match (r, record_on(s@, line as int)) {
            (Ok(v), Ok(want)) => v@ == want,
            (Err(e), Err(what)) => e@ == (Fault { file: file@, line: line as int, what }),
            _ => false,
        },
{
    proof {
        reveal_strlit("VERSION=");
        reveal_strlit("N=");
        reveal_strlit("U=");
        reveal_strlit("S=");
    }
    if has_prefix(s, "VERSION=") {
        let v: &[char] = rest(s, 8);
        return match parse_signed(trim(v)) {
            Some(n) => Ok(SdeRecord::Version(n)),
            None => Err(Error::new(file, line, quoted("bad VERSION `", v, "`"))),
        };
    }
    if has_prefix(s, "N=") {
        return match numbers(file, line, rest(s, 2)) {
            Ok(v) => Ok(SdeRecord::Counts(v)),
            Err(e) => Err(e),
        };
    }
    if has_prefix(s, "U=") {
        return Ok(SdeRecord::Utterance(text_of(rest(s, 2))));
    }
    if has_prefix(s, "S=") {
        return Ok(SdeRecord::Section(text_of(rest(s, 2))));
    }
    if s.len() >= 2 && s[0] == 'L' {
        return Ok(SdeRecord::Left { tokens: fields(s) });
    }
    if s.len() >= 2 && s[0] == 'R' {
        return Ok(SdeRecord::Right { tokens: fields(s) });
    }
    if line == 1 && find(s, ',', 0) < s.len() {
        return match numbers(file, line, s) {
            Ok(v) => Ok(SdeRecord::Header(v)),
            Err(e) => Err(e),
        };
    }
    Ok(SdeRecord::Other(text_of(s)))
}

/// Without the carriage returns at its end.
fn trim_returns(s: &[char]) -> (r: &[char])
    ensures
        r@ == without_returns(s@),
{
    let mut j: usize = s.len();
    assert(s@.subrange(0, j as int) =~= s@);
    while j > 0 && s[j - 1] == '\r'
        invariant
            j <= s@.len(),
            without_returns(s@) == without_returns(s@.subrange(0, j as int)),
        decreases j,
    {
        assert(s@.subrange(0, j as int).subrange(0, j - 1) =~= s@.subrange(0, j - 1));
        j = j - 1;
    }
    vstd::slice::slice_subrange(s, 0, j)
}

proof fn bad_line_stays(ls: Seq<Seq<char>>, n: nat, m: nat)
    requires
        n <= m,
        records_on(ls, n) is Err,
    ensures
        records_on(ls, m) == records_on(ls, n),
    decreases m,
{
    if n < m {
        bad_line_stays(ls, n, (m - 1) as nat);
    }
}

/// Reads the lines of a descriptor.
fn parse_sde_lines(name: &str, ls: &Vec<Vec<char>>) -> (r: Result<Sde, Error>)
    ensures
        sde_parsed(
            name@,
            pieces(ls@),
            match r {
                Ok(s) => Ok(s@),
                Err(e) => Err(e@),
            },
        ),
{
    let ghost want = pieces(ls@);
    let mut sde = Sde { records: Vec::new() };
    assert(sde@ =~= Seq::<SdeLine>::empty());
    let mut i: usize = 0;
    while i < ls.len()
        invariant
            i <= ls@.len(),
            want == pieces(ls@),
            records_on(want, i as nat) == Ok::<Seq<SdeLine>, (int, Seq<char>)>(sde@),
        decreases ls@.len() - i,
    {
        assert(want[i as int] == ls@[i as int]@);
        let s: &[char] = trim_returns(ls[i].as_slice());
        if s.len() > 0 {
            match parse_line(name, i + 1, s) {
                Ok(rec) => {
                    let ghost before = sde@;
                    sde.records.push(rec);
                    assert(sde@ =~= before.push(rec@));
                },
                Err(e) => {
                    proof {
                        bad_line_stays(want, (i + 1) as nat, want.len());
                    }
                    return Err(e);
                },
            }
        }
        i = i + 1;
    }
    Ok(sde)
}

/// The first version stated from `from` on.
pub open spec fn version_from(v: Seq<SdeLine>, from: int) -> Option<i64>
    decreases v.len() - from,
{
    if from < 0 || from >= v.len() {
        None
    } else {
        match v[from] {
            SdeLine::Version(n) => Some(n),
            _ => version_from(v, from + 1),
        }
    }
}

/// The first counts stated from `from` on.
pub open spec fn counts_from(v: Seq<SdeLine>, from: int) -> Option<Seq<i64>>
    decreases v.len() - from,
{
    if from < 0 || from >= v.len() {
        None
    } else {
        match v[from] {
            SdeLine::Counts(n) => Some(n),
            _ => counts_from(v, from + 1),
        }
    }
}

/// The transcriptions among the first `n` records.
pub open spec fn utterances_in(v: Seq<SdeLine>, n: nat) -> Seq<Seq<char>>
    decreases n,
{
    if n == 0 {
        Seq::empty()
    } else {
        let before = utterances_in(v, (n - 1) as nat);
        match v[n - 1] {
            SdeLine::Utterance(s) => before.push(s),
            _ => before,
        }
    }
}

/// How many utterances, left halves and right halves the first `n` records
/// hold.
pub open spec fn tally_of(v: Seq<SdeLine>, n: nat) -> (int, int, int)
    decreases n,
{
    if n == 0 {
        (0, 0, 0)
    } else {
        let t = tally_of(v, (n - 1) as nat);
        match v[n - 1] {
            SdeLine::Utterance(_) => (t.0 + 1, t.1, t.2),
            SdeLine::Left(_) => (t.0, t.1 + 1, t.2),
            SdeLine::Right(_) => (t.0, t.1, t.2 + 1),
            _ => t,
        }
    }
}

/// Whether the counts stated agree with what is there.
pub open spec fn counts_right(v: Seq<SdeLine>) -> bool {
    match counts_from(v, 0) {
        Some(n) => {
            let t = tally_of(v, v.len());
            n.len() >= 3 && n[0] == t.0 && n[2] == t.1 + t.2
        },
        None => false,
    }
}

/// Which half of a unit a record describes.
#[derive(Debug, Clone, Copy, PartialEq, Eq, Structural)]
pub enum Side {
    /// The left half.
    Left,
    /// The right half.
    Right,
}

/// One decoded half unit.
#[derive(Debug, Clone, Copy, PartialEq, Eq)]
pub struct Unit {
    /// Which half.
    pub side: Side,
    /// Its phoneme's position within its recording.
    pub index: u32,
    /// Where it starts.
    pub start: u32,
    /// How long it is.
    pub length: u32,
    /// The value packed in beside the length.
    pub extra: u32,
    /// Whether the record stated its start.
    pub explicit_start: bool,
}

/// The number that base-93 digits write, up to the first byte that is none.
pub open spec fn base93(bytes: Seq<u8>, acc: u32) -> u32
    decreases bytes.len(),
{
    if bytes.len() == 0 || bytes[0] <= 0x21 {
        acc
    } else {
        base93(
            bytes.subrange(1, bytes.len() as int),
            ((acc * 93 + (bytes[0] - 0x22)) % 0x1_0000_0000) as u32,
        )
    }
}

/// The number a field writes.
pub open spec fn field_number(s: Seq<char>) -> u32 {
    base93(encode_utf8(s), 0)
}

/// The unit that a record's fields describe, where the one before it ended at
/// `end`.
#[verifier::opaque]
pub open spec fn unit_of(side: Side, t: Seq<Seq<char>>, end: u32) -> Unit {
    let stated = t[1].len() > 0 && t[1][0] == '!';
    let p: int = if stated {
        2
    } else {
        1
    };
    Unit {
        side,
        index: field_number(t[0]),
        start: if stated {
            field_number(t[1].subrange(1, t[1].len() as int))
        } else {
            end
        },
        length: field_number(t[p]),
        extra: if p + 2 < t.len() {
            field_number(t[p + 2])
        } else {
            0
        },
        explicit_start: stated,
    }
}

/// Where a unit ends, wrapping at 32 bits.
pub open spec fn unit_end(u: Unit) -> u32 {
    ((u.start + u.length) % 0x1_0000_0000) as u32
}

/// Where the unit before `k` ends; zero before the first.
pub open spec fn end_before(units: Seq<Unit>, k: int) -> u32 {
    if k <= 0 {
        0
    } else {
        unit_end(units[k - 1])
    }
}

/// Where the last of some units ends.
pub open spec fn last_end(units: Seq<Unit>) -> u32 {
    end_before(units, units.len() as int)
}

/// The units among the first `n` records. A record with fewer than three
/// fields gives none.
pub open spec fn units_in(v: Seq<SdeLine>, n: nat) -> Seq<Unit>
    decreases n,
{
    if n == 0 {
        Seq::empty()
    } else {
        let before = units_in(v, (n - 1) as nat);
        match v[n - 1] {
            SdeLine::Left(t) => if t.len() >= 3 {
                before.push(unit_of(Side::Left, t, last_end(before)))
            } else {
                before
            },
            SdeLine::Right(t) => if t.len() >= 3 {
                before.push(unit_of(Side::Right, t, last_end(before)))
            } else {
                before
            },
            _ => before,
        }
    }
}

/// Every unit that states no start begins where the one before it ended.
pub open spec fn chained(units: Seq<Unit>) -> bool {
    forall|i: int|
        0 <= i < units.len() && !(#[trigger] units[i]).explicit_start ==> units[i].start
            == end_before(units, i)
}

impl Sde {
    /// Reads a descriptor. `name` appears in errors.
    pub fn parse(name: &str, text: &str) -> (r: Result<Sde, Error>)
        ensures
            sde_parsed(
                name@,
                lines(text@),
                match r {
                    Ok(s) => Ok(s@),
                    Err(e) => Err(e@),
                },
            ),
    {
        let cs: Vec<char> = chars_of(text);
        let ls: Vec<Vec<char>> = split_lines(cs.as_slice());
        parse_sde_lines(name, &ls)
    }

    /// Reads a descriptor from a file in either encoding.
    pub fn parse_bytes(name: &str, raw: &[u8]) -> (r: Result<Sde, Error>)
        ensures
            sde_parsed(
                name@,
                lines(text_in(raw@)),
                match r {
                    Ok(s) => Ok(s@),
                    Err(e) => Err(e@),
                },
            ),
    {
        let cs: Vec<char> = chars_auto(raw);
        let ls: Vec<Vec<char>> = split_lines(cs.as_slice());
        parse_sde_lines(name, &ls)
    }

    /// The version, if one is stated.
    pub fn version(&self) -> (r: Option<i64>)
        ensures
            r == version_from(self@, 0),
    {
        let mut i: usize = 0;
        while i < self.records.len()
            invariant
                i <= self.records@.len() == self@.len(),
                version_from(self@, 0) == version_from(self@, i as int),
            decreases self.records@.len() - i,
        {
            assert(self@[i as int] == self.records@[i as int]@);
            if let SdeRecord::Version(v) = &self.records[i] {
                return Some(*v);
            }
            i = i + 1;
        }
        None
    }

    /// The counts, if they are stated.
    pub fn counts(&self) -> (r: Option<&[i64]>)
        ensures
            match (r, counts_from(self@, 0)) {
                (Some(v), Some(want)) => v@ == want,
                (None, None) => true,
                _ => false,
            },
    {
        let mut i: usize = 0;
        while i < self.records.len()
            invariant
                i <= self.records@.len() == self@.len(),
                counts_from(self@, 0) == counts_from(self@, i as int),
            decreases self.records@.len() - i,
        {
            assert(self@[i as int] == self.records@[i as int]@);
            if let SdeRecord::Counts(v) = &self.records[i] {
                return Some(v.as_slice());
            }
            i = i + 1;
        }
        None
    }

    /// The transcriptions, in file order.
    pub fn utterances(&self) -> (r: Vec<&str>)
        ensures
            super::descriptor::texts(r@) == utterances_in(self@, self@.len()),
    {
        let mut out: Vec<&str> = Vec::new();
        assert(super::descriptor::texts(out@) =~= Seq::empty());
        let mut i: usize = 0;
        while i < self.records.len()
            invariant
                i <= self.records@.len() == self@.len(),
                super::descriptor::texts(out@) == utterances_in(self@, i as nat),
            decreases self.records@.len() - i,
        {
            assert(self@[i as int] == self.records@[i as int]@);
            if let SdeRecord::Utterance(s) = &self.records[i] {
                let ghost before = super::descriptor::texts(out@);
                let t: &str = s.as_str();
                out.push(t);
                assert(super::descriptor::texts(out@) =~= before.push(t@));
            }
            i = i + 1;
        }
        out
    }

    /// How many utterances, left halves and right halves there are.
    pub fn tally(&self) -> (r: (usize, usize, usize))
        ensures
            (r.0 as int, r.1 as int, r.2 as int) == tally_of(self@, self@.len()),
            r.0 + r.1 + r.2 <= self@.len(),
    {
        let mut u: usize = 0;
        let mut a: usize = 0;
        let mut b: usize = 0;
        let mut i: usize = 0;
        while i < self.records.len()
            invariant
                i <= self.records@.len() == self@.len(),
                u + a + b <= i,
                (u as int, a as int, b as int) == tally_of(self@, i as nat),
            decreases self.records@.len() - i,
        {
            assert(self@[i as int] == self.records@[i as int]@);
            match &self.records[i] {
                SdeRecord::Utterance(_) => {
                    u = u + 1;
                },
                SdeRecord::Left { tokens: _ } => {
                    a = a + 1;
                },
                SdeRecord::Right { tokens: _ } => {
                    b = b + 1;
                },
                _ => {},
            }
            i = i + 1;
        }
        (u, a, b)
    }

    /// Decodes every unit record, chaining the starts that are not stated.
    pub fn units(&self) -> (r: Vec<Unit>)
        ensures
            r@ == units_in(self@, self@.len()),
    {
        let mut out: Vec<Unit> = Vec::new();
        let mut end: u32 = 0;
        let mut i: usize = 0;
        while i < self.records.len()
            invariant
                i <= self.records@.len() == self@.len(),
                out@ == units_in(self@, i as nat),
                end == last_end(out@),
            decreases self.records@.len() - i,
        {
            assert(self@[i as int] == self.records@[i as int]@);
            match &self.records[i] {
                SdeRecord::Left { tokens } => {
                    if tokens.len() >= 3 {
                        let u: Unit = decode_unit(Side::Left, tokens, end);
                        end = u.start.wrapping_add(u.length);
                        out.push(u);
                    }
                },
                SdeRecord::Right { tokens } => {
                    if tokens.len() >= 3 {
                        let u: Unit = decode_unit(Side::Right, tokens, end);
                        end = u.start.wrapping_add(u.length);
                        out.push(u);
                    }
                },
                _ => {},
            }
            i = i + 1;
        }
        out
    }

    /// Whether every unit chains from the one before it, except where it
    /// states its start.
    pub fn continuity_holds(&self) -> (r: bool)
        requires
            ends_fit(units_in(self@, self@.len())),
        ensures
            r == chained(units_in(self@, self@.len())),
    {
        let us: Vec<Unit> = self.units();
        units_chain(us.as_slice())
    }

    /// Whether the counts stated agree with what was read.
    pub fn counts_agree(&self) -> (r: bool)
        ensures
            r == counts_right(self@),
    {
        let n: &[i64] = match self.counts() {
            Some(n) => n,
            None => {
                return false;
            },
        };
        if n.len() < 3 {
            return false;
        }
        let (u, a, b) = self.tally();
        n[0] as i128 == u as i128 && n[2] as i128 == a as i128 + b as i128
    }
}

/// No unit ends past what 32 bits hold.
pub open spec fn ends_fit(units: Seq<Unit>) -> bool {
    forall|i: int| 0 <= i < units.len() ==> (#[trigger] units[i]).start + units[i].length <= u32::MAX
}

/// Whether units chain.
fn units_chain(us: &[Unit]) -> (r: bool)
    requires
        ends_fit(us@),
    ensures
        r == chained(us@),
{
    let mut end: u32 = 0;
    let mut i: usize = 0;
    while i < us.len()
        invariant
            i <= us@.len(),
            ends_fit(us@),
            end == end_before(us@, i as int),
            forall|k: int|
                0 <= k < i && !(#[trigger] us@[k]).explicit_start ==> us@[k].start == end_before(
                    us@,
                    k,
                ),
        decreases us@.len() - i,
    {
        let u: Unit = us[i];
        if !u.explicit_start && u.start != end {
            assert(!us@[i as int].explicit_start);
            return false;
        }
        end = u.end();
        i = i + 1;
    }
    true
}

/// Decodes one unit record.
fn decode_unit(side: Side, t: &Vec<String>, end: u32) -> (r: Unit)
    requires
        t@.len() >= 3,
    ensures
        r == unit_of(side, strings(t@), end),
{
    proof {
        reveal(unit_of);
    }
    let ghost ts = strings(t@);
    assert(ts[0] == t@[0]@ && ts[1] == t@[1]@ && ts[2] == t@[2]@);
    let index: u32 = decode_num(t[0].as_str());
    let second: Vec<char> = chars_of(t[1].as_str());
    let stated: bool = second.len() > 0 && second[0] == '!';
    let start: u32 = if stated {
        decode_num(text_of(rest(second.as_slice(), 1)).as_str())
    } else {
        end
    };
    let p: usize = if stated {
        2
    } else {
        1
    };
    let length: u32 = decode_num(t[p].as_str());
    let extra: u32 = if p + 2 < t.len() {
        assert(ts[p + 2] == t@[p + 2]@);
        decode_num(t[p + 2].as_str())
    } else {
        0
    };
    Unit { side, index, start, length, extra, explicit_start: stated }
}

impl Unit {
    /// Where the unit ends.
    pub fn end(&self) -> (r: u32)
        requires
            self.start + self.length <= u32::MAX,
        ensures
            r == self.start + self.length,
            r == unit_end(*self),
    {
        self.start + self.length
    }

    /// The length and the extra value in one word, the length ten bits up.
    ///
    /// The two share bits where the extra value is large.
    pub fn packed(&self) -> (r: u32)
        ensures
            r == (self.length << 10u32) | (self.extra & 0xffff),
    {
        (self.length << 10u32) | (self.extra & 0xffff)
    }

    /// The unit's slot: even for a left half, odd for a right one.
    pub fn slot(&self, base: u32) -> (r: u32)
        requires
            (base + self.index) * 2 + 1 <= u32::MAX,
        ensures
            r == (base + self.index) * 2 + if self.side is Right {
                1int
            } else {
                0
            },
    {
        (base + self.index) * 2 + if self.side == Side::Right {
            1
        } else {
            0
        }
    }
}

/// A packed word gives its length back, while neither part reaches into the
/// other.
pub proof fn packing_keeps_the_length(u: Unit)
    requires
        u.length < 0x40_0000,
        u.extra % 0x1_0000 < 0x400,
    ensures
        ((u.length << 10u32) | (u.extra & 0xffff)) >> 10u32 == u.length,
{
    let (l, x) = (u.length, u.extra);
    assert(((l << 10u32) | (x & 0xffff)) >> 10u32 == l) by (bit_vector)
        requires
            l < 0x40_0000,
            x % 0x1_0000 < 0x400,
    ;
}

/// Units always chain: no descriptor can break continuity.
pub proof fn units_always_chain(v: Seq<SdeLine>, n: nat)
    requires
        n <= v.len(),
    ensures
        chained(units_in(v, n)),
    decreases n,
{
    if n > 0 {
        reveal(unit_of);
        units_always_chain(v, (n - 1) as nat);
        let before = units_in(v, (n - 1) as nat);
        let us = units_in(v, n);
        assert forall|i: int| 0 <= i < us.len() && !(#[trigger] us[i]).explicit_start implies us[i].start
            == end_before(us, i) by {
            if i < before.len() {
                assert(us[i] == before[i]);
                if i > 0 {
                    assert(us[i - 1] == before[i - 1]);
                }
            } else if i > 0 {
                assert(us[i - 1] == before[i - 1]);
            }
        }
    }
}

/// Reads a base-93 number, up to the first byte at or below `!`.
pub fn decode_num(s: &str) -> (r: u32)
    ensures
        r == field_number(s@),
{
    let bytes: &[u8] = s.as_bytes();
    let mut acc: u32 = 0;
    let mut i: usize = 0;
    assert(bytes@.subrange(0, bytes@.len() as int) =~= bytes@);
    while i < bytes.len() && bytes[i] > 0x21
        invariant
            i <= bytes@.len(),
            base93(bytes@, 0) == base93(bytes@.subrange(i as int, bytes@.len() as int), acc),
        decreases bytes@.len() - i,
    {
        let ghost left = bytes@.subrange(i as int, bytes@.len() as int);
        assert(left.subrange(1, left.len() as int) =~= bytes@.subrange(i + 1, bytes@.len() as int));
        acc = ((acc as u64 * 93 + (bytes[i] - 0x22) as u64) % 0x1_0000_0000) as u32;
        i = i + 1;
    }
    acc
}

/// The digits of a number in base 93, most significant first.
pub open spec fn digits93(v: nat) -> Seq<char>
    decreases v,
{
    if v < 93 {
        seq![('"' as u8 + v) as char]
    } else {
        digits93(v / 93).push(('"' as u8 + v % 93) as char)
    }
}

/// Writes a number in base 93.
pub fn encode_num(v: u32) -> (r: String)
    ensures
        r@ == digits93(v as nat),
{
    text_of(digits_of(v).as_slice())
}

/// The digits of a number in base 93.
fn digits_of(v: u32) -> (r: Vec<char>)
    ensures
        r@ == digits93(v as nat),
    decreases v,
{
    if v < 93 {
        let mut r: Vec<char> = Vec::new();
        r.push(('"' as u8 + v as u8) as char);
        assert(r@ =~= digits93(v as nat));
        r
    } else {
        let mut r: Vec<char> = digits_of(v / 93);
        r.push(('"' as u8 + (v % 93) as u8) as char);
        r
    }
}

/// Reading undoes writing.
pub proof fn numbers_round_trip(v: u32)
    ensures
        field_number(digits93(v as nat)) == v,
{
    digits_are_ascii(v as nat);
    vstd::utf8::is_ascii_chars_encode_utf8(digits93(v as nat));
    let bytes = encode_utf8(digits93(v as nat));
    assert(bytes =~= digits93(v as nat).map_values(|c: char| c as u8));
    digits_read_back(v as nat, Seq::empty());
    assert(bytes + Seq::<u8>::empty() =~= bytes);
}

pub(crate) proof fn digits_are_ascii(v: nat)
    ensures
        vstd::utf8::is_ascii_chars(digits93(v)),
        forall|i: int| 0 <= i < digits93(v).len() ==> '"' <= #[trigger] digits93(v)[i] <= '~',
    decreases v,
{
    if v >= 93 {
        digits_are_ascii(v / 93);
    }
}

proof fn digits_read_back(v: nat, more: Seq<u8>)
    requires
        v <= u32::MAX,
    ensures
        base93(digits93(v).map_values(|c: char| c as u8) + more, 0) == base93(more, v as u32),
    decreases v,
{
    let ds = digits93(v).map_values(|c: char| c as u8);
    if v < 93 {
        let d = (34 + v) as u8;
        assert(ds =~= seq![d]);
        assert((ds + more)[0] == d);
        assert((ds + more).subrange(1, (ds + more).len() as int) =~= more);
    } else {
        let d = (34 + v % 93) as u8;
        let hs = digits93(v / 93).map_values(|c: char| c as u8);
        assert(ds =~= hs.push(d));
        assert(ds + more =~= hs + (seq![d] + more));
        digits_read_back(v / 93, seq![d] + more);
        assert((seq![d] + more).subrange(1, (seq![d] + more).len() as int) =~= more);
    }
}

/// How many of the first `n` lines say anything.
pub open spec fn lines_used(ls: Seq<Seq<char>>, n: nat) -> nat
    decreases n,
{
    if n == 0 {
        0
    } else {
        lines_used(ls, (n - 1) as nat) + if without_returns(ls[n - 1]).len() > 0 {
            1nat
        } else {
            0nat
        }
    }
}

/// No line is dropped: each that says anything becomes a record.
pub proof fn every_line_is_kept(ls: Seq<Seq<char>>, n: nat)
    requires
        n <= ls.len(),
    ensures
        records_on(ls, n) matches Ok(v) ==> v.len() == lines_used(ls, n),
    decreases n,
{
    if n > 0 {
        every_line_is_kept(ls, (n - 1) as nat);
    }
}

} // verus!
