//! The stream of phones between two stages, as records and as text.
//!
//! A record takes sixteen bytes: duration, pitch and gain as little-endian
//! halfwords, the phone, its label, the address of a text, and four bytes that
//! are kept as they are. A record without a phone ends the stream.
use vstd::prelude::*;
use crate::data::char_laws::{
    decimals_read_back, joined_by, joined_pieces_are_split_again, lacks, white_space_is_taken_off,
};
use crate::data::chars::{
    all_digits, chars_of, is_digit, is_white, lines, parse_unsigned, pieces, split_at_each,
    split_lines, split_on, text_of, trim, trimmed, unsigned, without_plus, written,
};
use crate::engine::format_laws::word_end;
use crate::engine::scan::{past_white, past_word, skip_white, skip_word};

verus! {

/// The gain of an unchanged phone.
pub const GAIN_UNITY: u16 = 13107;

/// A tenth of it.
pub const GAIN_STEP: u16 = 1310;

/// How many bytes a record takes.
pub const PHONE_RECORD_LEN: usize = 0x10;

/// A label of how a phone stands in its phrase.
#[derive(Debug, Clone, Copy, PartialEq, Eq, PartialOrd, Ord, Hash, Structural)]
pub struct ProsLabel(pub u8);

impl Default for ProsLabel {
    fn default() -> (r: Self)
        ensures
            r.0 == 0,
    {
        ProsLabel(0)
    }
}

impl ProsLabel {
    /// Whether the label marks a boundary.
    pub fn is_boundary(self) -> (r: bool)
        ensures
            r == (self.0 == 6 || self.0 == 12 || self.0 == 13 || self.0 == 14),
    {
        self.0 == 6 || self.0 == 12 || self.0 == 13 || self.0 == 14
    }
}

/// One phone.
#[derive(Debug, Clone, PartialEq, Eq)]
pub struct Phone {
    /// How long, in milliseconds.
    pub duration_ms: u16,
    /// How high, in hertz.
    pub f0_hz: u16,
    /// How loud.
    pub gain: u16,
    /// Which phone.
    pub phoneme: u8,
    /// Its label.
    pub proslab: ProsLabel,
    /// Its text, where it has one.
    pub text: Option<String>,
    /// The last four bytes of its record.
    pub reserved: u32,
}

/// One phone as mathematics.
pub struct Sound {
    /// Duration, pitch and gain.
    pub numbers: (u16, u16, u16),
    /// Which phone.
    pub phoneme: u8,
    /// Its label.
    pub proslab: u8,
    /// Its text.
    pub text: Option<Seq<char>>,
    /// The last four bytes of its record.
    pub reserved: u32,
}

impl View for Phone {
    type V = Sound;

    open spec fn view(&self) -> Sound {
        Sound {
            numbers: (self.duration_ms, self.f0_hz, self.gain),
            phoneme: self.phoneme,
            proslab: self.proslab.0,
            text: match self.text {
                Some(t) => Some(t@),
                None => None,
            },
            reserved: self.reserved,
        }
    }
}

impl Default for Phone {
    fn default() -> (r: Self)
        ensures
            r@ == (Sound {
                numbers: (0u16, 0u16, 0u16),
                phoneme: 0,
                proslab: 0,
                text: None,
                reserved: 0,
            }),
    {
        Phone {
            duration_ms: 0,
            f0_hz: 0,
            gain: 0,
            phoneme: 0,
            proslab: ProsLabel(0),
            text: None,
            reserved: 0,
        }
    }
}

/// A stream of phones.
#[derive(Debug, Clone, PartialEq, Eq)]
pub struct PhoneStream {
    /// The phones.
    pub phones: Vec<Phone>,
}

impl View for PhoneStream {
    type V = Seq<Sound>;

    open spec fn view(&self) -> Seq<Sound> {
        self.phones@.map_values(|p: Phone| p@)
    }
}

impl Default for PhoneStream {
    fn default() -> (r: Self)
        ensures
            r@ == Seq::<Sound>::empty(),
    {
        PhoneStream::new()
    }
}

/// Two bytes as a number, the lower first.
pub open spec fn low_half(b: Seq<u8>, i: int) -> u16 {
    (b[i] + 0x100 * b[i + 1]) as u16
}

/// Four bytes as a number, the lowest first.
pub open spec fn low_word(b: Seq<u8>, i: int) -> u32 {
    (b[i] + 0x100 * b[i + 1] + 0x1_0000 * b[i + 2] + 0x100_0000 * b[i + 3]) as u32
}

/// The phone in record `k`.
pub open spec fn sound_at(raw: Seq<u8>, k: int) -> Sound {
    let r = 16 * k;
    Sound {
        numbers: (low_half(raw, r), low_half(raw, r + 2), low_half(raw, r + 4)),
        phoneme: raw[r + 6],
        proslab: raw[r + 7],
        text: None,
        reserved: low_word(raw, r + 12),
    }
}

/// Where the stream ends, from record `k` on: at a record without a phone, or
/// where there is no whole record.
pub open spec fn stream_end(raw: Seq<u8>, k: int) -> int
    decreases raw.len() - 16 * k,
{
    if k < 0 || 16 * k + 16 > raw.len() || raw[16 * k + 6] == 0 {
        k
    } else {
        stream_end(raw, k + 1)
    }
}

/// The phones in some records.
pub open spec fn sounds_in(raw: Seq<u8>) -> Seq<Sound> {
    Seq::new(stream_end(raw, 0) as nat, |k: int| sound_at(raw, k))
}

/// Byte `i` of a phone's record.
pub open spec fn record_byte(p: Sound, i: int) -> u8 {
    if i == 0 {
        (p.numbers.0 % 0x100) as u8
    } else if i == 1 {
        (p.numbers.0 / 0x100) as u8
    } else if i == 2 {
        (p.numbers.1 % 0x100) as u8
    } else if i == 3 {
        (p.numbers.1 / 0x100) as u8
    } else if i == 4 {
        (p.numbers.2 % 0x100) as u8
    } else if i == 5 {
        (p.numbers.2 / 0x100) as u8
    } else if i == 6 {
        p.phoneme
    } else if i == 7 {
        p.proslab
    } else if i == 12 {
        (p.reserved % 0x100) as u8
    } else if i == 13 {
        (p.reserved / 0x100 % 0x100) as u8
    } else if i == 14 {
        (p.reserved / 0x1_0000 % 0x100) as u8
    } else if i == 15 {
        (p.reserved / 0x100_0000) as u8
    } else {
        0
    }
}

/// The records of some phones, and one without a phone.
pub open spec fn records_of(s: Seq<Sound>) -> Seq<u8> {
    Seq::new(
        (16 * (s.len() as int + 1)) as nat,
        |i: int|
            if i / 16 < s.len() {
                record_byte(s[i / 16], i % 16)
            } else {
                0u8
            },
    )
}

impl PhoneStream {
    /// A stream without phones.
    pub fn new() -> (r: Self)
        ensures
            r@ == Seq::<Sound>::empty(),
    {
        let r = PhoneStream { phones: Vec::new() };
        assert(r@ =~= Seq::<Sound>::empty());
        r
    }

    /// How many phones there are.
    pub fn len(&self) -> (r: usize)
        ensures
            r == self@.len(),
    {
        self.phones.len()
    }

    /// Whether there are none.
    pub fn is_empty(&self) -> (r: bool)
        ensures
            r == (self@.len() == 0),
    {
        self.phones.len() == 0
    }

    /// Reads records, up to one without a phone or to where no whole record is
    /// left.
    pub fn from_records(raw: &[u8]) -> (r: PhoneStream)
        ensures
            r@ == sounds_in(raw@),
    {
        let mut phones: Vec<Phone> = Vec::new();
        let size: usize = raw.len();
        let mut k: usize = 0;
        let mut at: usize = 0;
        proof {
            end_is_not_negative(raw@, 0);
        }
        while 16 <= size - at && raw[at + 6] != 0
            invariant
                size == raw@.len(),
                at == 16 * k,
                at <= size,
                phones@.len() == k,
                stream_end(raw@, 0) == stream_end(raw@, k as int),
                forall|i: int| 0 <= i < k ==> (#[trigger] phones@[i])@ == sound_at(raw@, i),
            decreases size - at,
        {
            let p = Phone {
                duration_ms: half_at(raw, at),
                f0_hz: half_at(raw, at + 2),
                gain: half_at(raw, at + 4),
                phoneme: raw[at + 6],
                proslab: ProsLabel(raw[at + 7]),
                text: None,
                reserved: half_at(raw, at + 12) as u32 + 0x1_0000 * half_at(raw, at + 14) as u32,
            };
            assert(p@ == sound_at(raw@, k as int));
            phones.push(p);
            k = k + 1;
            at = at + 16;
        }
        let r = PhoneStream { phones };
        assert(r@ =~= sounds_in(raw@));
        r
    }

    /// Lays the phones out as records, and a record without a phone behind
    /// them. Texts are left out.
    pub fn to_records(&self) -> (r: Vec<u8>)
        requires
            16 * (self@.len() + 1) <= usize::MAX,
        ensures
            r@ == records_of(self@),
    {
        let mut out: Vec<u8> = Vec::new();
        let ghost want = records_of(self@);
        let mut k: usize = 0;
        while k < self.phones.len()
            invariant
                k <= self.phones@.len(),
                want == records_of(self@),
                out@ == want.subrange(0, 16 * k),
            decreases self.phones@.len() - k,
        {
            assert(self@[k as int] == self.phones@[k as int]@);
            push_record(&mut out, &self.phones[k]);
            assert(out@ =~= want.subrange(0, 16 * (k + 1)));
            k = k + 1;
        }
        let mut n: usize = 0;
        while n < 16
            invariant
                n <= 16,
                k == self.phones@.len() == self@.len(),
                want == records_of(self@),
                out@ == want.subrange(0, 16 * k + n),
            decreases 16 - n,
        {
            out.push(0);
            assert(out@ =~= want.subrange(0, 16 * k + n + 1));
            n = n + 1;
        }
        assert(out@ =~= want);
        out
    }
}

fn half_at(b: &[u8], i: usize) -> (r: u16)
    requires
        i + 2 <= b@.len(),
    ensures
        r == low_half(b@, i as int),
{
    b[i] as u16 + 0x100 * b[i + 1] as u16
}

fn push_record(out: &mut Vec<u8>, p: &Phone)
    ensures
        final(out)@.len() == old(out)@.len() + 16,
        forall|i: int| 0 <= i < old(out)@.len() ==> #[trigger] final(out)@[i] == old(out)@[i],
        forall|i: int|
            old(out)@.len() <= i < old(out)@.len() + 16 ==> #[trigger] final(out)@[i]
                == record_byte(p@, i - old(out)@.len()),
{
    out.push((p.duration_ms % 0x100) as u8);
    out.push((p.duration_ms / 0x100) as u8);
    out.push((p.f0_hz % 0x100) as u8);
    out.push((p.f0_hz / 0x100) as u8);
    out.push((p.gain % 0x100) as u8);
    out.push((p.gain / 0x100) as u8);
    out.push(p.phoneme);
    out.push(p.proslab.0);
    out.push(0);
    out.push(0);
    out.push(0);
    out.push(0);
    out.push((p.reserved % 0x100) as u8);
    out.push((p.reserved / 0x100 % 0x100) as u8);
    out.push((p.reserved / 0x1_0000 % 0x100) as u8);
    out.push((p.reserved / 0x100_0000) as u8);
}

proof fn end_is_not_negative(raw: Seq<u8>, k: int)
    requires
        0 <= k,
    ensures
        k <= stream_end(raw, k),
        forall|i: int| k <= i < stream_end(raw, k) ==> (#[trigger] sound_at(raw, i)).phoneme != 0,
    decreases raw.len() - 16 * k,
{
    if !(16 * k + 16 > raw.len() || raw[16 * k + 6] == 0) {
        end_is_not_negative(raw, k + 1);
    }
}

/// Phones laid out as records read back as they were, where each is one and has
/// no text.
pub proof fn records_read_back(s: Seq<Sound>)
    requires
        forall|k: int| 0 <= k < s.len() ==> (#[trigger] s[k]).phoneme != 0 && s[k].text is None,
    ensures
        sounds_in(records_of(s)) == s,
{
    let raw = records_of(s);
    ends_after(s, 0);
    assert forall|k: int| 0 <= k < s.len() implies #[trigger] sound_at(raw, k) == s[k] by {
        one_reads_back(s, k);
    }
    assert(sounds_in(raw) =~= s);
}

proof fn one_reads_back(s: Seq<Sound>, k: int)
    requires
        0 <= k < s.len(),
        s[k].text is None,
    ensures
        sound_at(records_of(s), k) == s[k],
{
    let raw = records_of(s);
    let p = s[k];
    record_bytes_at(s, k);
    let r = 16 * k;
    assert(raw[r] == record_byte(p, 0) && raw[r + 1] == record_byte(p, 1));
    assert(low_half(raw, r) == p.numbers.0);
    assert(raw[r + 2] == record_byte(p, 2) && raw[r + 2 + 1] == record_byte(p, 3));
    assert(low_half(raw, r + 2) == p.numbers.1);
    assert(raw[r + 4] == record_byte(p, 4) && raw[r + 4 + 1] == record_byte(p, 5));
    assert(low_half(raw, r + 4) == p.numbers.2);
    assert(raw[r + 6] == record_byte(p, 6) && raw[r + 7] == record_byte(p, 7));
    assert(raw[r + 12] == record_byte(p, 12) && raw[r + 12 + 1] == record_byte(p, 13));
    assert(raw[r + 12 + 2] == record_byte(p, 14) && raw[r + 12 + 3] == record_byte(p, 15));
    word_from_parts(p.reserved);
    assert(low_word(raw, r + 12) == p.reserved);
}

#[verifier::spinoff_prover]
proof fn word_from_parts(v: u32)
    ensures
        v % 0x100 + 0x100 * (v / 0x100 % 0x100) + 0x1_0000 * (v / 0x1_0000 % 0x100) + 0x100_0000 * (v
            / 0x100_0000) == v,
{
    let a = v as int / 0x100;
    let b = a / 0x100;
    let c = b / 0x100;
    assert(b == v as int / 0x1_0000);
    assert(c == v as int / 0x100_0000);
    assert(v == 0x100 * a + v as int % 0x100);
    assert(a == 0x100 * b + a % 0x100);
    assert(b == 0x100 * c + b % 0x100);
}

proof fn record_bytes_at(s: Seq<Sound>, k: int)
    requires
        0 <= k < s.len(),
    ensures
        forall|i: int|
            16 * k <= i < 16 * k + 16 ==> #[trigger] records_of(s)[i] == record_byte(
                s[k],
                i - 16 * k,
            ),
{
}

proof fn ends_after(s: Seq<Sound>, k: int)
    requires
        0 <= k <= s.len(),
        forall|k: int| 0 <= k < s.len() ==> (#[trigger] s[k]).phoneme != 0,
    ensures
        stream_end(records_of(s), k) == s.len(),
    decreases s.len() - k,
{
    let raw = records_of(s);
    if k < s.len() {
        record_bytes_at(s, k);
        assert(raw[16 * k + 6] == s[k].phoneme);
        ends_after(s, k + 1);
    } else {
        assert(raw[16 * k + 6] == 0);
    }
}

/// Records that were read come back from the records of what was read.
pub proof fn reading_again_changes_nothing(raw: Seq<u8>)
    ensures
        sounds_in(records_of(sounds_in(raw))) == sounds_in(raw),
{
    end_is_not_negative(raw, 0);
    records_read_back(sounds_in(raw));
}

/// One line of a stage's text.
#[derive(Debug, Clone, PartialEq, Eq)]
pub struct DumpedPhone {
    /// The phone's name.
    pub phoneme: String,
    /// How long, in milliseconds.
    pub duration_ms: u16,
    /// How high, in hertz.
    pub f0_hz: u16,
    /// How loud.
    pub gain_q14: u16,
    /// Its style.
    pub style: String,
    /// Its label.
    pub proslab: String,
}

/// One line of a stage's text as mathematics.
pub struct Dumped {
    /// The phone's name.
    pub phoneme: Seq<char>,
    /// Duration, pitch and gain.
    pub numbers: (u16, u16, u16),
    /// Its style.
    pub style: Seq<char>,
    /// Its label.
    pub proslab: Seq<char>,
}

impl View for DumpedPhone {
    type V = Dumped;

    open spec fn view(&self) -> Dumped {
        Dumped {
            phoneme: self.phoneme@,
            numbers: (self.duration_ms, self.f0_hz, self.gain_q14),
            style: self.style@,
            proslab: self.proslab@,
        }
    }
}

impl Default for DumpedPhone {
    fn default() -> (r: Self)
        ensures
            r@ == (Dumped {
                phoneme: Seq::empty(),
                numbers: (0u16, 0u16, 0u16),
                style: Seq::empty(),
                proslab: Seq::empty(),
            }),
    {
        let r = DumpedPhone {
            phoneme: String::new(),
            duration_ms: 0,
            f0_hz: 0,
            gain_q14: 0,
            style: String::new(),
            proslab: String::new(),
        };
        assert(r.phoneme@ =~= Seq::empty() && r.style@ =~= Seq::empty() && r.proslab@
            =~= Seq::empty());
        r
    }
}

/// Lines of a stage's text as mathematics.
pub open spec fn dumps(v: Seq<DumpedPhone>) -> Seq<Dumped> {
    v.map_values(|d: DumpedPhone| d@)
}

/// A number of sixteen bits, with white space around it.
pub open spec fn half_in(s: Seq<char>) -> Option<int> {
    unsigned(trimmed(s), 0xffff)
}

/// The first word from `i` on, and where it ends.
pub open spec fn word_at(s: Seq<char>, i: int) -> (Seq<char>, int) {
    let a = past_white(s, i);
    let b = past_word(s, a, a, None);
    (s.subrange(a, b), b)
}

/// What a line says; nothing where it has fewer than five fields or its numbers
/// are none.
pub open spec fn dump_on(line: Seq<char>) -> Option<Dumped> {
    let f = split_at_each(line, '\t');
    if f.len() < 5 {
        None
    } else {
        match (half_in(f[1]), half_in(f[2]), half_in(f[3])) {
            (Some(d), Some(h), Some(g)) => {
                let (style, at) = word_at(f[4], 0);
                Some(
                    Dumped {
                        phoneme: f[0],
                        numbers: (d as u16, h as u16, g as u16),
                        style,
                        proslab: word_at(f[4], at).0,
                    },
                )
            },
            _ => None,
        }
    }
}

/// What the first `n` lines say.
pub open spec fn dumps_on(ls: Seq<Seq<char>>, n: nat) -> Seq<Dumped>
    decreases n,
{
    if n == 0 {
        Seq::empty()
    } else {
        let before = dumps_on(ls, (n - 1) as nat);
        match dump_on(ls[n - 1]) {
            Some(d) => before.push(d),
            None => before,
        }
    }
}

fn half_of(s: &[char]) -> (r: Option<u16>)
    ensures
        match (r, half_in(s@)) {
            (Some(v), Some(want)) => v == want,
            (None, None) => true,
            _ => false,
        },
{
    match parse_unsigned(trim(s), 0xffff) {
        Some(v) => Some(v as u16),
        None => None,
    }
}

fn next_word(s: &[char], i: usize) -> (r: (String, usize))
    requires
        i <= s@.len(),
    ensures
        (r.0@, r.1 as int) == word_at(s@, i as int),
        r.1 <= s@.len(),
{
    let a: usize = skip_white(s, i);
    let b: usize = skip_word(s, a, None);
    (text_of(vstd::slice::slice_subrange(s, a, b)), b)
}

fn parse_dump(line: &[char]) -> (r: Option<DumpedPhone>)
    ensures
        match (r, dump_on(line@)) {
            (Some(d), Some(want)) => d@ == want,
            (None, None) => true,
            _ => false,
        },
{
    let f: Vec<Vec<char>> = split_on(line, '\t');
    assert(pieces(f@).len() == f@.len());
    if f.len() < 5 {
        return None;
    }
    assert(pieces(f@)[0] == f@[0]@ && pieces(f@)[1] == f@[1]@ && pieces(f@)[2] == f@[2]@ && pieces(
        f@,
    )[3] == f@[3]@ && pieces(f@)[4] == f@[4]@);
    match (half_of(f[1].as_slice()), half_of(f[2].as_slice()), half_of(f[3].as_slice())) {
        (Some(d), Some(h), Some(g)) => {
            let (style, at) = next_word(f[4].as_slice(), 0);
            let (proslab, _) = next_word(f[4].as_slice(), at);
            Some(
                DumpedPhone {
                    phoneme: text_of(f[0].as_slice()),
                    duration_ms: d,
                    f0_hz: h,
                    gain_q14: g,
                    style,
                    proslab,
                },
            )
        },
        _ => None,
    }
}

/// Reads a stage's text: one phone to a line, its fields set apart by tabs.
/// Lines that say something else are passed over.
pub fn parse_fon_dump(dump: &str) -> (r: Vec<DumpedPhone>)
    ensures
        dumps(r@) == dumps_on(lines(dump@), lines(dump@).len()),
{
    let ls: Vec<Vec<char>> = split_lines(chars_of(dump).as_slice());
    let ghost all = pieces(ls@);
    let mut out: Vec<DumpedPhone> = Vec::new();
    assert(dumps(out@) =~= Seq::empty());
    let mut i: usize = 0;
    while i < ls.len()
        invariant
            i <= ls@.len(),
            all == pieces(ls@),
            dumps(out@) == dumps_on(all, i as nat),
        decreases ls@.len() - i,
    {
        assert(all[i as int] == ls@[i as int]@);
        match parse_dump(ls[i].as_slice()) {
            Some(d) => {
                let ghost before = dumps(out@);
                out.push(d);
                assert(dumps(out@) =~= before.push(d@));
            },
            None => {},
        }
        i = i + 1;
    }
    out
}

/// Where the numbers of a phone stand in its record of sixteen bytes, and that
/// the stream goes on to the first record that is not whole or has no phone.
pub proof fn records_have_their_fields(raw: Seq<u8>, k: int)
    requires
        0 <= k < sounds_in(raw).len(),
    ensures
        ({
            let p = sounds_in(raw)[k];
            let r = 16 * k;
            &&& r + 16 <= raw.len()
            &&& p.numbers.0 == raw[r] + 0x100 * raw[r + 1]
            &&& p.numbers.1 == raw[r + 2] + 0x100 * raw[r + 3]
            &&& p.numbers.2 == raw[r + 4] + 0x100 * raw[r + 5]
            &&& p.phoneme == raw[r + 6] && raw[r + 6] != 0
            &&& p.proslab == raw[r + 7]
            &&& p.reserved == raw[r + 12] + 0x100 * raw[r + 13] + 0x1_0000 * raw[r + 14]
                + 0x100_0000 * raw[r + 15]
            &&& p.text is None
        }),
        ({
            let n = 16 * sounds_in(raw).len() as int;
            n + 16 > raw.len() || raw[n + 6] == 0
        }),
{
    end_is_not_negative(raw, 0);
    stream_goes_on(raw, 0, k);
}

proof fn stream_goes_on(raw: Seq<u8>, from: int, k: int)
    requires
        0 <= from,
    ensures
        from <= stream_end(raw, from),
        from <= k < stream_end(raw, from) ==> 16 * k + 16 <= raw.len() && raw[16 * k + 6] != 0,
        16 * stream_end(raw, from) + 16 > raw.len() || raw[16 * stream_end(raw, from) + 6] == 0,
    decreases raw.len() - 16 * from,
{
    if 16 * from + 16 <= raw.len() && raw[16 * from + 6] != 0 {
        stream_goes_on(raw, from + 1, k);
    }
}

/// A line's fields are a phone's name, how long, how high and how loud it is, and
/// its style and label; one with another number of fields or with no numbers in
/// their places says nothing.
pub proof fn lines_say_their_fields(
    f: Seq<Seq<char>>,
    d: u16,
    h: u16,
    g: u16,
    style: Seq<char>,
    label: Seq<char>,
)
    requires
        f.len() >= 5,
        forall|k: int| 0 <= k < f.len() ==> lacks(#[trigger] f[k], '\t'),
        f[1] == written(d as nat, 10),
        f[2] == written(h as nat, 10),
        f[3] == written(g as nat, 10),
        f[4] == style.push(' ') + label,
        style.len() > 0,
        forall|i: int| 0 <= i < style.len() ==> !is_white(#[trigger] style[i]),
        forall|i: int| 0 <= i < label.len() ==> !is_white(#[trigger] label[i]),
    ensures
        dump_on(joined_by(f, '\t')) matches Some(r) && r.phoneme == f[0] && r.numbers == (d, h, g)
            && r.style == style && r.proslab == label,
{
    two_words(style, label);
    joined_pieces_are_split_again(f, '\t');
    plain_half(d);
    plain_half(h);
    plain_half(g);
}

proof fn two_words(style: Seq<char>, label: Seq<char>)
    requires
        style.len() > 0,
        forall|i: int| 0 <= i < style.len() ==> !is_white(#[trigger] style[i]),
        forall|i: int| 0 <= i < label.len() ==> !is_white(#[trigger] label[i]),
    ensures
        word_at(style.push(' ') + label, 0) == (style, style.len() as int),
        word_at(style.push(' ') + label, style.len() as int).0 == label,
{
    let s = style.push(' ') + label;
    let n = style.len() as int;
    assert(s[0] == style[0]);
    assert(past_white(s, 0) == 0);
    word_end(s, 0, 0, None);
    let e = past_word(s, 0, 0, None);
    assert(s[n] == ' ');
    if e < n {
        assert(s[e] == style[e]);
    }
    assert(s.subrange(0, n) =~= style);
    if label.len() > 0 {
        assert(s[n + 1] == label[0]);
    }
    assert(past_white(s, n + 1) == n + 1);
    assert(past_white(s, n) == past_white(s, n + 1));
    word_end(s, n + 1, n + 1, None);
    let e2 = past_word(s, n + 1, n + 1, None);
    if e2 < s.len() {
        assert(s[e2] == label[e2 - n - 1]);
    }
    assert(s.subrange(n + 1, s.len() as int) =~= label);
}

proof fn plain_half(d: u16)
    ensures
        half_in(written(d as nat, 10)) == Some(d as int),
{
    let w = written(d as nat, 10);
    decimals_read_back(d as nat, 0xffff);
    assert(unsigned(w, 0xffff) is Some);
    assert(w.len() > 0 && !is_white(w[0]) && !is_white(w.last())) by {
        let e = without_plus(w);
        assert(all_digits(e));
        assert(is_digit(e[0]) && is_digit(e[e.len() - 1]));
    }
    white_space_is_taken_off(Seq::empty(), w, Seq::empty());
    assert(Seq::<char>::empty() + w + Seq::<char>::empty() =~= w);
}

} // verus!
