//! The grapheme-to-phoneme automaton.
//!
//! A file has four sections, all big-endian: a header of twelve bytes that
//! says where the others are, a block of parameters, the symbols, and the
//! transitions. The symbols are strings, each behind a byte that holds its
//! length less one and followed by a zero. The transitions are a descriptor
//! for each state and, after them, a record of four bytes for each transition.
use vstd::prelude::*;
use super::chars::{chars_of, number, push_all, push_str, rest, text_of, written};
use super::error::{Error, Fault};
use super::sde::strings;
use super::text::{latin1, latin1_chars};

verus! {

/// How an automaton's data is read.
#[derive(Debug, Clone, Copy, PartialEq, Eq, Structural)]
pub enum SourceMode {
    /// From a file, on demand.
    Stdio,
    /// From a mapping of the file.
    Mapped,
    /// From inside a container.
    BinContainer,
    /// From memory, read whole.
    Slurped,
}

impl SourceMode {
    /// The mode that a code selects.
    pub fn from_code(code: u16) -> (r: Option<SourceMode>)
        ensures
            code == 0 ==> r == Some(SourceMode::Stdio),
            code == 1 ==> r == Some(SourceMode::Mapped),
            code == 2 ==> r == Some(SourceMode::BinContainer),
            code == 3 ==> r == Some(SourceMode::Slurped),
            code > 3 ==> r is None,
    {
        match code {
            0 => Some(SourceMode::Stdio),
            1 => Some(SourceMode::Mapped),
            2 => Some(SourceMode::BinContainer),
            3 => Some(SourceMode::Slurped),
            _ => None,
        }
    }
}

/// Splits an automaton's path into the character that selects its source and
/// the file's own path.
pub fn split_source_prefix(path: &str) -> (r: Option<(char, String)>)
    ensures
        match r {
            Some((c, p)) => path@.len() > 0 && c == path@[0] && p@ == path@.subrange(
                1,
                path@.len() as int,
            ),
            None => path@.len() == 0,
        },
{
    let cs: Vec<char> = chars_of(path);
    if cs.len() == 0 {
        return None;
    }
    Some((cs[0], text_of(rest(cs.as_slice(), 1))))
}

/// The file header.
#[derive(Debug, Clone, Copy, PartialEq, Eq)]
pub struct Header {
    /// Byte 0.
    pub f0: u8,
    /// Byte 1.
    pub f1: u8,
    /// Byte 2.
    pub f2: u8,
    /// Where the parameters are.
    pub params_off: u32,
    /// Where the symbols are.
    pub symbols_off: u32,
    /// Where the transitions are.
    pub transitions_off: u32,
    /// The file's own length, as the header states it.
    pub file_size: u32,
}

/// The parameter block.
#[derive(Debug, Clone, Copy, PartialEq, Eq)]
pub struct Params {
    /// The block's own length.
    pub record_len: u8,
    /// How many graphemes there are.
    pub grapheme_count: u16,
    /// How many phonemes there are.
    pub phoneme_count: u16,
    /// Two words that are the same in every file seen.
    pub tag: (u32, u32),
    /// How wide the automaton's transition space is.
    pub column_count: u16,
    /// How many states there are.
    pub state_count: u32,
    /// Bytes 0, 1, 2, 12, 14, 15 and 16.
    pub unknown_bytes: [u8; 7],
}

/// The parameter block as mathematics.
pub struct ParamBlock {
    /// The block's own length.
    pub record_len: int,
    /// How many graphemes there are.
    pub grapheme_count: int,
    /// How many phonemes there are.
    pub phoneme_count: int,
    /// Two words.
    pub tag: (int, int),
    /// How wide the transition space is.
    pub column_count: int,
    /// How many states there are.
    pub state_count: int,
    /// Bytes 0, 1, 2, 12, 14, 15 and 16.
    pub unknown_bytes: Seq<u8>,
}

impl View for Params {
    type V = ParamBlock;

    open spec fn view(&self) -> ParamBlock {
        ParamBlock {
            record_len: self.record_len as int,
            grapheme_count: self.grapheme_count as int,
            phoneme_count: self.phoneme_count as int,
            tag: (self.tag.0 as int, self.tag.1 as int),
            column_count: self.column_count as int,
            state_count: self.state_count as int,
            unknown_bytes: self.unknown_bytes@,
        }
    }
}

/// The symbols.
#[derive(Debug, Clone, PartialEq, Eq)]
pub struct Symbols {
    /// One string for each grapheme.
    pub graphemes: Vec<String>,
    /// One string for each phoneme.
    pub phonemes: Vec<String>,
    /// One row of bytes for each phoneme.
    pub classes: Vec<Vec<u8>>,
    /// How wide a row is.
    pub class_width: usize,
    /// The section's length as it states it, its header among it.
    pub section_len: u32,
}

/// The symbols as mathematics.
pub struct SymbolSet {
    /// One string for each grapheme.
    pub graphemes: Seq<Seq<char>>,
    /// One string for each phoneme.
    pub phonemes: Seq<Seq<char>>,
    /// One row of bytes for each phoneme.
    pub classes: Seq<Seq<u8>>,
    /// How wide a row is.
    pub class_width: int,
    /// The section's length as it states it.
    pub section_len: int,
}

/// Rows of bytes as sequences.
pub open spec fn rows(v: Seq<Vec<u8>>) -> Seq<Seq<u8>> {
    v.map_values(|r: Vec<u8>| r@)
}

impl View for Symbols {
    type V = SymbolSet;

    open spec fn view(&self) -> SymbolSet {
        SymbolSet {
            graphemes: strings(self.graphemes@),
            phonemes: strings(self.phonemes@),
            classes: rows(self.classes@),
            class_width: self.class_width as int,
            section_len: self.section_len as int,
        }
    }
}

impl Default for Symbols {
    fn default() -> (r: Self)
        ensures
            r@ == (SymbolSet {
                graphemes: Seq::empty(),
                phonemes: Seq::empty(),
                classes: Seq::empty(),
                class_width: 0,
                section_len: 0,
            }),
    {
        let r = Symbols {
            graphemes: Vec::new(),
            phonemes: Vec::new(),
            classes: Vec::new(),
            class_width: 0,
            section_len: 0,
        };
        assert(strings(r.graphemes@) =~= Seq::empty());
        assert(strings(r.phonemes@) =~= Seq::empty());
        assert(rows(r.classes@) =~= Seq::empty());
        r
    }
}

/// One state: where its transitions start and how many it has.
#[derive(Debug, Clone, Copy, PartialEq, Eq, Structural)]
pub struct StateDesc {
    /// Where its records start, in bytes.
    pub record_off: u32,
    /// How many it has.
    pub count: u8,
}

/// One transition.
#[derive(Debug, Clone, Copy, PartialEq, Eq, Structural)]
pub struct Transition {
    /// The symbol, in the low seven bits of the first byte.
    pub symbol: u8,
    /// The bit above it.
    pub high_bit: bool,
    /// The state it leads to.
    pub target: u16,
    /// The last byte.
    pub aux: u8,
}

/// The transitions.
#[derive(Debug, Clone)]
pub struct Transitions {
    /// Byte 0.
    pub f0: u8,
    /// Byte 1.
    pub f1: u8,
    /// Byte 2.
    pub f2: u8,
    /// How long a descriptor is.
    pub desc_stride: usize,
    /// Byte 4.
    pub f4: u8,
    /// A descriptor for each state.
    pub states: Vec<StateDesc>,
    /// The records of all states.
    pub records: Vec<Transition>,
}

/// The transitions as mathematics.
pub struct TransitionTable {
    /// Bytes 0, 1, 2 and 4.
    pub bytes: (u8, u8, u8, u8),
    /// How long a descriptor is.
    pub desc_stride: int,
    /// A descriptor for each state.
    pub states: Seq<StateDesc>,
    /// The records of all states.
    pub records: Seq<Transition>,
}

impl View for Transitions {
    type V = TransitionTable;

    open spec fn view(&self) -> TransitionTable {
        TransitionTable {
            bytes: (self.f0, self.f1, self.f2, self.f4),
            desc_stride: self.desc_stride as int,
            states: self.states@,
            records: self.records@,
        }
    }
}

impl Default for Transitions {
    fn default() -> (r: Self)
        ensures
            r@ == (TransitionTable {
                bytes: (0u8, 0u8, 0u8, 0u8),
                desc_stride: 0,
                states: Seq::empty(),
                records: Seq::empty(),
            }),
    {
        Transitions {
            f0: 0,
            f1: 0,
            f2: 0,
            desc_stride: 0,
            f4: 0,
            states: Vec::new(),
            records: Vec::new(),
        }
    }
}

/// An automaton.
#[derive(Debug, Clone)]
pub struct Atm {
    /// The header.
    pub header: Header,
    /// The parameters.
    pub params: Params,
    /// The symbols.
    pub symbols: Symbols,
    /// The transitions.
    pub transitions: Transitions,
}

/// An automaton as mathematics.
pub struct Automaton {
    /// The header.
    pub header: Header,
    /// The parameters.
    pub params: ParamBlock,
    /// The symbols.
    pub symbols: SymbolSet,
    /// The transitions.
    pub transitions: TransitionTable,
}

impl View for Atm {
    type V = Automaton;

    open spec fn view(&self) -> Automaton {
        Automaton {
            header: self.header,
            params: self.params@,
            symbols: self.symbols@,
            transitions: self.transitions@,
        }
    }
}

/// Two bytes as a number.
pub open spec fn two_at(b: Seq<u8>, i: int) -> int {
    b[i] * 0x100 + b[i + 1]
}

/// Three bytes as a number.
pub open spec fn three_at(b: Seq<u8>, i: int) -> int {
    b[i] * 0x1_0000 + b[i + 1] * 0x100 + b[i + 2]
}

/// Four bytes as a number.
pub open spec fn four_at(b: Seq<u8>, i: int) -> int {
    b[i] * 0x100_0000 + b[i + 1] * 0x1_0000 + b[i + 2] * 0x100 + b[i + 3]
}

/// Whether `n` bytes at `at` are more than there are.
pub open spec fn lacks(raw: Seq<u8>, at: int, n: int) -> bool {
    at + n > raw.len()
}

/// What is said of a section that the file is too short for.
pub open spec fn shortage(raw: Seq<u8>, at: int, n: int, what: Seq<char>) -> Seq<char> {
    what + " needs "@ + written(n as nat, 10) + " bytes at 0x"@ + written(at as nat, 16)
        + ", file is "@ + written(raw.len(), 10) + " long"@
}

/// The header.
pub open spec fn header_of(raw: Seq<u8>) -> Result<Header, Seq<char>> {
    if lacks(raw, 0, 12) {
        Err(shortage(raw, 0, 12, "header"@))
    } else {
        Ok(
            Header {
                f0: raw[0],
                f1: raw[1],
                f2: raw[2],
                params_off: two_at(raw, 3) as u32,
                symbols_off: two_at(raw, 5) as u32,
                transitions_off: two_at(raw, 7) as u32,
                file_size: three_at(raw, 9) as u32,
            },
        )
    }
}

/// The parameters at `at`.
pub open spec fn params_at(raw: Seq<u8>, at: int) -> Result<ParamBlock, Seq<char>> {
    if lacks(raw, at, 24) {
        Err(shortage(raw, at, 24, "params"@))
    } else {
        Ok(
            ParamBlock {
                record_len: raw[at + 3] as int,
                grapheme_count: raw[at + 13] as int,
                phoneme_count: two_at(raw, at + 19),
                tag: (four_at(raw, at + 4), four_at(raw, at + 8)),
                column_count: two_at(raw, at + 17),
                state_count: three_at(raw, at + 21),
                unknown_bytes: seq![
                    raw[at],
                    raw[at + 1],
                    raw[at + 2],
                    raw[at + 12],
                    raw[at + 14],
                    raw[at + 15],
                    raw[at + 16],
                ],
            },
        )
    }
}

/// Bytes up to the first zero.
pub open spec fn before_zero(b: Seq<u8>) -> Seq<u8>
    decreases b.len(),
{
    if b.len() == 0 || b[0] == 0 {
        Seq::empty()
    } else {
        seq![b[0]] + before_zero(b.subrange(1, b.len() as int))
    }
}

/// The first `n` strings of a table at `p`, and where the next one is; or what
/// is missing, and where reading stopped.
pub open spec fn table_at(raw: Seq<u8>, p: int, n: nat, what: Seq<char>) -> Result<
    (Seq<Seq<char>>, int),
    (Seq<char>, int),
>
    decreases n,
{
    if n == 0 {
        Ok((Seq::empty(), p))
    } else {
        match table_at(raw, p, (n - 1) as nat, what) {
            Err(e) => Err(e),
            Ok((v, q)) => if lacks(raw, q, 1) {
                Err((shortage(raw, q, 1, what), q))
            } else if raw[q] == 0xff {
                Ok((v.push(Seq::empty()), q + 1))
            } else if lacks(raw, q + 1, raw[q] + 1) {
                Err((shortage(raw, q + 1, raw[q] + 1, what), q + 1))
            } else {
                Ok(
                    (
                        v.push(latin1(before_zero(raw.subrange(q + 1, q + 2 + raw[q])))),
                        q + 2 + raw[q],
                    ),
                )
            },
        }
    }
}

/// The classes at `p`, each row as wide as the byte at `p` says.
pub open spec fn classes_at(raw: Seq<u8>, p: int, n: int) -> Result<Seq<Seq<u8>>, Seq<char>> {
    if lacks(raw, p, 1) {
        Err(shortage(raw, p, 1, "class width"@))
    } else if lacks(raw, p + 1, n * raw[p]) {
        Err(shortage(raw, p + 1, n * raw[p], "class table"@))
    } else {
        Ok(
            Seq::new(
                n as nat,
                |i: int| raw.subrange(p + 1 + i * raw[p], p + 1 + i * raw[p] + raw[p]),
            ),
        )
    }
}

/// The symbols at `at`.
pub open spec fn symbols_at(raw: Seq<u8>, at: int, graphemes: int, phonemes: int) -> Result<
    SymbolSet,
    Seq<char>,
> {
    if lacks(raw, at, 11) {
        Err(shortage(raw, at, 11, "symbols header"@))
    } else {
        match table_at(raw, at + 11, graphemes as nat, "graphemes"@) {
            Err((e, _)) => Err(e),
            Ok((g, p)) => if lacks(raw, p, 2) {
                Err(shortage(raw, p, 2, "phoneme pool size"@))
            } else {
                match table_at(raw, p + 2, phonemes as nat, "phonemes"@) {
                    Err((e, _)) => Err(e),
                    Ok((ph, q)) => match classes_at(raw, q, phonemes) {
                        Err(e) => Err(e),
                        Ok(classes) => Ok(
                            SymbolSet {
                                graphemes: g,
                                phonemes: ph,
                                classes,
                                class_width: raw[q] as int,
                                section_len: two_at(raw, at + 3),
                            },
                        ),
                    },
                }
            },
        }
    }
}

/// How many transitions the first `n` states have.
pub open spec fn transitions_of(states: Seq<StateDesc>, n: nat) -> int
    decreases n,
{
    if n == 0 {
        0
    } else {
        transitions_of(states, (n - 1) as nat) + states[n - 1].count
    }
}

/// A state's descriptor at `at`. Its count is its last byte.
pub open spec fn state_at(raw: Seq<u8>, at: int, stride: int) -> StateDesc {
    StateDesc { record_off: three_at(raw, at) as u32, count: raw[at + stride - 1] }
}

/// A transition's record at `at`.
pub open spec fn transition_at(raw: Seq<u8>, at: int) -> Transition {
    Transition {
        symbol: (raw[at] % 128) as u8,
        high_bit: raw[at] >= 128,
        target: two_at(raw, at + 1) as u16,
        aux: raw[at + 3],
    }
}

/// The descriptors of `n` states at `at`.
pub open spec fn states_at(raw: Seq<u8>, at: int, n: nat, stride: int) -> Seq<StateDesc> {
    Seq::new(n, |s: int| state_at(raw, at + s * stride, stride))
}

/// The records of `n` transitions at `at`.
pub open spec fn records_at(raw: Seq<u8>, at: int, n: nat) -> Seq<Transition> {
    Seq::new(n, |i: int| transition_at(raw, at + i * 4))
}

/// What is said of descriptors that are too short.
pub open spec fn small_stride(stride: int) -> Seq<char> {
    "descriptor stride "@ + written(stride as nat, 10)
        + " is too small for a u24 offset plus a count"@
}

/// The transitions of `n` states at `at`.
pub open spec fn transitions_at(raw: Seq<u8>, at: int, n: nat) -> Result<
    TransitionTable,
    Seq<char>,
> {
    if lacks(raw, at, 5) {
        Err(shortage(raw, at, 5, "transitions header"@))
    } else {
        let stride = raw[at + 3] as int;
        let states = states_at(raw, at + 5, n, stride);
        let total = transitions_of(states, n);
        let recs = at + 5 + n * stride;
        if stride < 4 {
            Err(small_stride(stride))
        } else if lacks(raw, at + 5, n * stride) {
            Err(shortage(raw, at + 5, n * stride, "state table"@))
        } else if lacks(raw, recs, total * 4) {
            Err(shortage(raw, recs, total * 4, "transition records"@))
        } else {
            Ok(
                TransitionTable {
                    bytes: (raw[at], raw[at + 1], raw[at + 2], raw[at + 4]),
                    desc_stride: stride,
                    states,
                    records: records_at(raw, recs, total as nat),
                },
            )
        }
    }
}

/// The automaton that a file holds, or the first thing that is wrong with it.
pub open spec fn automaton_in(raw: Seq<u8>) -> Result<Automaton, Seq<char>> {
    match header_of(raw) {
        Err(e) => Err(e),
        Ok(header) => match params_at(raw, header.params_off as int) {
            Err(e) => Err(e),
            Ok(params) => match symbols_at(
                raw,
                header.symbols_off as int,
                params.grapheme_count,
                params.phoneme_count,
            ) {
                Err(e) => Err(e),
                Ok(symbols) => match transitions_at(
                    raw,
                    header.transitions_off as int,
                    params.state_count as nat,
                ) {
                    Err(e) => Err(e),
                    Ok(transitions) => Ok(Automaton { header, params, symbols, transitions }),
                },
            },
        },
    }
}

/// A result is what was wanted, or an error of `name` that says so.
pub open spec fn as_wanted<T>(
    name: Seq<char>,
    r: Result<T, Fault>,
    want: Result<T, Seq<char>>,
) -> bool {
    match (r, want) {
        (Ok(v), Ok(w)) => v == w,
        (Err(e), Err(what)) => e == (Fault { file: name, line: 0, what }),
        _ => false,
    }
}

/// A result with its parts as mathematics.
pub open spec fn plain<T: View>(r: Result<T, Error>) -> Result<T::V, Fault> {
    match r {
        Ok(v) => Ok(v@),
        Err(e) => Err(e@),
    }
}

/// Whether a state table and its records fit together: each state's records
/// start where those of the one before it end.
pub open spec fn offsets_run(states: Seq<StateDesc>) -> bool {
    forall|s: int|
        0 <= s < states.len() ==> (#[trigger] states[s]).record_off == 4 * transitions_of(
            states,
            s as nat,
        )
}

/// Whether an automaton agrees with itself and with its file's length.
pub open spec fn consistent(a: Automaton, len: int) -> bool {
    let t = a.transitions;
    let total = transitions_of(t.states, t.states.len());
    &&& a.header.file_size == len
    &&& a.header.symbols_off + a.symbols.section_len == a.header.transitions_off
    &&& offsets_run(t.states)
    &&& total == t.records.len()
    &&& a.header.transitions_off + 5 + t.states.len() * t.desc_stride + 4 * total == len
}

impl Atm {
    /// Reads an automaton. `name` appears in errors.
    pub fn parse_bytes(name: &str, raw: &[u8]) -> (r: Result<Atm, Error>)
        ensures
            as_wanted(name@, plain(r), automaton_in(raw@)),
    {
        let header: Header = match parse_header(name, raw) {
            Ok(h) => h,
            Err(e) => {
                return Err(e);
            },
        };
        let params: Params = match parse_params(name, raw, header.params_off as usize) {
            Ok(p) => p,
            Err(e) => {
                return Err(e);
            },
        };
        let symbols: Symbols = match parse_symbols(name, raw, header.symbols_off as usize, &params) {
            Ok(s) => s,
            Err(e) => {
                return Err(e);
            },
        };
        let transitions: Transitions = match parse_transitions(
            name,
            raw,
            header.transitions_off as usize,
            &params,
        ) {
            Ok(t) => t,
            Err(e) => {
                return Err(e);
            },
        };
        Ok(Atm { header, params, symbols, transitions })
    }

    /// The transitions that leave a state. A state that is not there has none.
    pub fn state_transitions(&self, state: usize) -> (r: &[Transition])
        ensures
            state >= self.transitions.states@.len() ==> r@.len() == 0,
            state < self.transitions.states@.len() ==> r@ == leaving(
                self.transitions@,
                state as int,
            ),
    {
        let all: &[Transition] = self.transitions.records.as_slice();
        if state >= self.transitions.states.len() {
            return vstd::slice::slice_subrange(all, 0, 0);
        }
        let d: StateDesc = self.transitions.states[state];
        let start: usize = (d.record_off / 4) as usize;
        let wanted: usize = start + d.count as usize;
        let end: usize = if wanted < all.len() {
            wanted
        } else {
            all.len()
        };
        let from: usize = if start < end {
            start
        } else {
            end
        };
        vstd::slice::slice_subrange(all, from, end)
    }

    /// Every check that the format makes possible: the header states the
    /// file's length, the symbols end where the transitions begin, the
    /// descriptors' offsets are a running total, and that total takes the file
    /// to its last byte.
    pub fn self_consistent(&self, actual_len: usize) -> (r: bool)
        ensures
            r == consistent(self@, actual_len as int),
    {
        if self.header.file_size as u64 != actual_len as u64 {
            return false;
        }
        if self.header.symbols_off as u64 + self.symbols.section_len as u64
            != self.header.transitions_off as u64 {
            return false;
        }
        let states: &Vec<StateDesc> = &self.transitions.states;
        let mut cum: u128 = 0;
        let mut s: usize = 0;
        while s < states.len()
            invariant
                s <= states@.len(),
                states@ == self@.transitions.states,
                cum == 4 * transitions_of(states@, s as nat),
                cum <= 1020 * s,
                forall|k: int|
                    0 <= k < s ==> (#[trigger] states@[k]).record_off == 4 * transitions_of(
                        states@,
                        k as nat,
                    ),
            decreases states@.len() - s,
        {
            let d: StateDesc = states[s];
            if d.record_off as u128 != cum {
                assert(!(states@[s as int].record_off == 4 * transitions_of(states@, s as nat)));
                return false;
            }
            cum = cum + d.count as u128 * 4;
            s = s + 1;
        }
        let n: usize = states.len();
        let stride: usize = self.transitions.desc_stride;
        proof {
            vstd::arithmetic::mul::lemma_mul_inequality(
                n as int,
                u64::MAX as int,
                stride as int,
            );
            vstd::arithmetic::mul::lemma_mul_inequality(
                stride as int,
                u64::MAX as int,
                u64::MAX as int,
            );
            assert(0 <= n * stride) by (nonlinear_arith)
                requires
                    n >= 0,
                    stride >= 0,
            ;
        }
        let table: u128 = n as u128 * stride as u128;
        if table > actual_len as u128 {
            return false;
        }
        cum == self.transitions.records.len() as u128 * 4 && self.header.transitions_off as u128 + 5
            + table + cum == actual_len as u128
    }
}

/// The records of a state, as far as they are there.
pub open spec fn leaving(t: TransitionTable, state: int) -> Seq<Transition> {
    let d = t.states[state];
    let start = d.record_off as int / 4;
    let end = if start + d.count < t.records.len() {
        start + d.count
    } else {
        t.records.len() as int
    };
    if start < end {
        t.records.subrange(start, end)
    } else {
        Seq::empty()
    }
}

/// Fails unless `n` bytes at `at` are there.
fn need(name: &str, raw: &[u8], at: usize, n: u64, what: &str) -> (r: Result<(), Error>)
    ensures
        match r {
            Ok(_) => !lacks(raw@, at as int, n as int),
            Err(e) => lacks(raw@, at as int, n as int) && e@ == (Fault {
                file: name@,
                line: 0,
                what: shortage(raw@, at as int, n as int, what@),
            }),
        },
        raw@.len() <= usize::MAX,
{
    if at as u128 + n as u128 > raw.len() as u128 {
        let mut out: Vec<char> = Vec::new();
        push_str(&mut out, what);
        push_str(&mut out, " needs ");
        push_all(&mut out, number(n as u128, 10).as_slice());
        push_str(&mut out, " bytes at 0x");
        push_all(&mut out, number(at as u128, 16).as_slice());
        push_str(&mut out, ", file is ");
        push_all(&mut out, number(raw.len() as u128, 10).as_slice());
        push_str(&mut out, " long");
        assert(out@ =~= shortage(raw@, at as int, n as int, what@));
        return Err(Error::new(name, 0, text_of(out.as_slice())));
    }
    Ok(())
}

/// Two bytes as a number.
pub fn be16(b: &[u8], i: usize) -> (r: u32)
    requires
        i + 2 <= b@.len(),
    ensures
        r == two_at(b@, i as int),
{
    b[i] as u32 * 0x100 + b[i + 1] as u32
}

/// Three bytes as a number.
pub fn be24(b: &[u8], i: usize) -> (r: u32)
    requires
        i + 3 <= b@.len(),
    ensures
        r == three_at(b@, i as int),
{
    b[i] as u32 * 0x1_0000 + b[i + 1] as u32 * 0x100 + b[i + 2] as u32
}

/// Four bytes as a number.
pub fn be32(b: &[u8], i: usize) -> (r: u32)
    requires
        i + 4 <= b@.len(),
    ensures
        r == four_at(b@, i as int),
{
    b[i] as u32 * 0x100_0000 + b[i + 1] as u32 * 0x1_0000 + b[i + 2] as u32 * 0x100 + b[i
        + 3] as u32
}

/// Reads the header.
pub fn parse_header(name: &str, raw: &[u8]) -> (r: Result<Header, Error>)
    ensures
        as_wanted(
            name@,
            match r {
                Ok(h) => Ok(h),
                Err(e) => Err(e@),
            },
            header_of(raw@),
        ),
{
    match need(name, raw, 0, 12, "header") {
        Ok(_) => {},
        Err(e) => {
            return Err(e);
        },
    }
    Ok(
        Header {
            f0: raw[0],
            f1: raw[1],
            f2: raw[2],
            params_off: be16(raw, 3),
            symbols_off: be16(raw, 5),
            transitions_off: be16(raw, 7),
            file_size: be24(raw, 9),
        },
    )
}

/// Reads the parameters at `at`.
pub fn parse_params(name: &str, raw: &[u8], at: usize) -> (r: Result<Params, Error>)
    ensures
        as_wanted(name@, plain(r), params_at(raw@, at as int)),
{
    match need(name, raw, at, 24, "params") {
        Ok(_) => {},
        Err(e) => {
            return Err(e);
        },
    }
    let p = Params {
        record_len: raw[at + 3],
        grapheme_count: raw[at + 13] as u16,
        phoneme_count: be16(raw, at + 19) as u16,
        tag: (be32(raw, at + 4), be32(raw, at + 8)),
        column_count: be16(raw, at + 17) as u16,
        state_count: be24(raw, at + 21),
        unknown_bytes: [
            raw[at],
            raw[at + 1],
            raw[at + 2],
            raw[at + 12],
            raw[at + 14],
            raw[at + 15],
            raw[at + 16],
        ],
    };
    proof {
        let want = params_at(raw@, at as int)->Ok_0;
        assert(p.unknown_bytes@ =~= want.unknown_bytes);
    }
    Ok(p)
}

proof fn zero_is_first(b: Seq<u8>, n: int)
    requires
        0 <= n <= b.len(),
        forall|i: int| 0 <= i < n ==> #[trigger] b[i] != 0,
        n < b.len() ==> b[n] == 0,
    ensures
        before_zero(b) == b.subrange(0, n),
    decreases b.len(),
{
    if n > 0 {
        let more = b.subrange(1, b.len() as int);
        zero_is_first(more, n - 1);
        assert(b.subrange(0, n) =~= seq![b[0]] + more.subrange(0, n - 1));
    } else {
        assert(b.subrange(0, 0) =~= Seq::empty());
    }
}

/// A string up to its zero.
fn text_before_zero(b: &[u8]) -> (r: String)
    ensures
        r@ == latin1(before_zero(b@)),
{
    let mut n: usize = 0;
    while n < b.len() && b[n] != 0
        invariant
            n <= b@.len(),
            forall|i: int| 0 <= i < n ==> #[trigger] b@[i] != 0,
        decreases b@.len() - n,
    {
        n = n + 1;
    }
    proof {
        zero_is_first(b@, n as int);
    }
    text_of(latin1_chars(vstd::slice::slice_subrange(b, 0, n)).as_slice())
}

proof fn bad_table_stays(raw: Seq<u8>, p: int, n: nat, m: nat, what: Seq<char>)
    requires
        n <= m,
        table_at(raw, p, n, what) is Err,
    ensures
        table_at(raw, p, m, what) == table_at(raw, p, n, what),
    decreases m,
{
    if n < m {
        bad_table_stays(raw, p, n, (m - 1) as nat, what);
    }
}

/// Reads `count` strings at `*p` and moves it past them. Where one is missing,
/// it is left at the byte that was wanted first.
pub fn read_table(name: &str, raw: &[u8], p: &mut usize, count: usize, what: &str) -> (r: Result<
    Vec<String>,
    Error,
>)
    ensures
        match (r, table_at(raw@, *old(p) as int, count as nat, what@)) {
            (Ok(v), Ok((want, end))) => strings(v@) == want && *final(p) == end,
            (Err(e), Err((text, stop))) => e@ == (Fault { file: name@, line: 0, what: text })
                && *final(p) == stop,
            _ => false,
        },
        r is Ok && *old(p) <= raw@.len() ==> *final(p) <= raw@.len(),
{
    let ghost p0 = *p as int;
    let mut out: Vec<String> = Vec::new();
    assert(strings(out@) =~= Seq::empty());
    let mut i: usize = 0;
    while i < count
        invariant
            i <= count,
            p0 == *old(p),
            table_at(raw@, p0, i as nat, what@) == Ok::<
                (Seq<Seq<char>>, int),
                (Seq<char>, int),
            >(
                (strings(out@), *p as int),
            ),
            p0 <= raw@.len() ==> *p <= raw@.len(),
        decreases count - i,
    {
        let ghost before = strings(out@);
        match need(name, raw, *p, 1, what) {
            Ok(_) => {},
            Err(e) => {
                proof {
                    bad_table_stays(raw@, p0, (i + 1) as nat, count as nat, what@);
                }
                return Err(e);
            },
        }
        let len: u8 = raw[*p];
        *p = *p + 1;
        if len == 0xff {
            let t: String = String::new();
            out.push(t);
            assert(t@ =~= Seq::<char>::empty());
            assert(strings(out@) =~= before.push(Seq::empty()));
        } else {
            match need(name, raw, *p, len as u64 + 1, what) {
                Ok(_) => {},
                Err(e) => {
                    proof {
                        bad_table_stays(raw@, p0, (i + 1) as nat, count as nat, what@);
                    }
                    return Err(e);
                },
            }
            let end: usize = *p + 1 + len as usize;
            let t: String = text_before_zero(vstd::slice::slice_subrange(raw, *p, end));
            out.push(t);
            assert(strings(out@) =~= before.push(t@));
            *p = end;
        }
        i = i + 1;
    }
    Ok(out)
}

/// Reads the classes at `p`: their rows and how wide one is.
fn parse_classes(name: &str, raw: &[u8], p: usize, n: u16) -> (r: Result<(Vec<Vec<u8>>, usize), Error>)
    ensures
        match (r, classes_at(raw@, p as int, n as int)) {
            (Ok((v, w)), Ok(want)) => rows(v@) == want && w == raw@[p as int],
            (Err(e), Err(text)) => e@ == (Fault { file: name@, line: 0, what: text }),
            _ => false,
        },
{
    match need(name, raw, p, 1, "class width") {
        Ok(_) => {},
        Err(e) => {
            return Err(e);
        },
    }
    let w: usize = raw[p] as usize;
    assert(n * w <= 0xffff * 0xff) by (nonlinear_arith)
        requires
            n <= 0xffff,
            w <= 0xff,
    ;
    match need(name, raw, p + 1, n as u64 * w as u64, "class table") {
        Ok(_) => {},
        Err(e) => {
            return Err(e);
        },
    }
    let mut out: Vec<Vec<u8>> = Vec::new();
    let size: usize = raw.len();
    let mut q: usize = p + 1;
    let mut i: u16 = 0;
    while i < n
        invariant
            i <= n,
            w == raw@[p as int],
            q == p + 1 + i * w,
            p + 1 + n * w <= raw@.len() == size,
            rows(out@) == Seq::new(
                i as nat,
                |k: int| raw@.subrange(p + 1 + k * w, p + 1 + k * w + w),
            ),
        decreases n - i,
    {
        let ghost before = rows(out@);
        assert((i + 1) * w == i * w + w && (i + 1) * w <= n * w) by (nonlinear_arith)
            requires
                0 <= i < n,
                w >= 0,
        ;
        let row: Vec<u8> = vstd::slice::slice_to_vec(vstd::slice::slice_subrange(raw, q, q + w));
        out.push(row);
        assert(rows(out@) =~= before.push(row@));
        assert(rows(out@) =~= Seq::new(
            (i + 1) as nat,
            |k: int| raw@.subrange(p + 1 + k * w, p + 1 + k * w + w),
        ));
        q = q + w;
        i = i + 1;
    }
    assert(rows(out@) =~= classes_at(raw@, p as int, n as int)->Ok_0);
    Ok((out, w))
}

/// Reads the symbols at `at`.
pub fn parse_symbols(name: &str, raw: &[u8], at: usize, params: &Params) -> (r: Result<
    Symbols,
    Error,
>)
    ensures
        as_wanted(
            name@,
            plain(r),
            symbols_at(
                raw@,
                at as int,
                params.grapheme_count as int,
                params.phoneme_count as int,
            ),
        ),
{
    match need(name, raw, at, 11, "symbols header") {
        Ok(_) => {},
        Err(e) => {
            return Err(e);
        },
    }
    let section_len: u32 = be16(raw, at + 3);
    let mut p: usize = at + 11;
    let graphemes: Vec<String> = match read_table(
        name,
        raw,
        &mut p,
        params.grapheme_count as usize,
        "graphemes",
    ) {
        Ok(v) => v,
        Err(e) => {
            return Err(e);
        },
    };
    match need(name, raw, p, 2, "phoneme pool size") {
        Ok(_) => {},
        Err(e) => {
            return Err(e);
        },
    }
    p = p + 2;
    let phonemes: Vec<String> = match read_table(
        name,
        raw,
        &mut p,
        params.phoneme_count as usize,
        "phonemes",
    ) {
        Ok(v) => v,
        Err(e) => {
            return Err(e);
        },
    };
    let (classes, class_width) = match parse_classes(name, raw, p, params.phoneme_count) {
        Ok(v) => v,
        Err(e) => {
            return Err(e);
        },
    };
    Ok(Symbols { graphemes, phonemes, classes, class_width, section_len })
}

/// Reads the descriptors of `n` states at `at`, and counts their transitions.
fn read_states(raw: &[u8], at: usize, n: u32, stride: usize) -> (r: (Vec<StateDesc>, u64))
    requires
        4 <= stride <= 255,
        at + n * stride <= raw@.len(),
    ensures
        r.0@ == states_at(raw@, at as int, n as nat, stride as int),
        r.1 == transitions_of(r.0@, n as nat),
        r.1 <= 255 * n,
{
    let mut states: Vec<StateDesc> = Vec::new();
    let ghost all = states_at(raw@, at as int, n as nat, stride as int);
    let size: usize = raw.len();
    let mut total: u64 = 0;
    let mut q: usize = at;
    let mut s: u32 = 0;
    while s < n
        invariant
            s <= n,
            4 <= stride <= 255,
            q == at + s * stride,
            at + n * stride <= raw@.len() == size,
            all == states_at(raw@, at as int, n as nat, stride as int),
            states@ == all.subrange(0, s as int),
            total == transitions_of(all, s as nat),
            total <= 255 * s,
        decreases n - s,
    {
        assert((s + 1) * stride == s * stride + stride && (s + 1) * stride <= n * stride)
            by (nonlinear_arith)
            requires
                0 <= s < n,
                stride >= 0,
        ;
        let count: u8 = raw[q + stride - 1];
        let d = StateDesc { record_off: be24(raw, q), count };
        assert(d == all[s as int]);
        states.push(d);
        assert(states@ =~= all.subrange(0, s + 1));
        total = total + count as u64;
        q = q + stride;
        s = s + 1;
    }
    assert(states@ =~= all);
    (states, total)
}

/// Reads `n` records at `at`.
fn read_records(raw: &[u8], at: usize, n: usize) -> (r: Vec<Transition>)
    requires
        at + n * 4 <= raw@.len(),
    ensures
        r@ == records_at(raw@, at as int, n as nat),
{
    let mut out: Vec<Transition> = Vec::new();
    let size: usize = raw.len();
    let mut i: usize = 0;
    while i < n
        invariant
            i <= n,
            at + n * 4 <= raw@.len() == size,
            out@ == records_at(raw@, at as int, i as nat),
        decreases n - i,
    {
        let q: usize = at + i * 4;
        let b: u8 = raw[q];
        let t = Transition {
            symbol: b % 128,
            high_bit: b >= 128,
            target: be16(raw, q + 1) as u16,
            aux: raw[q + 3],
        };
        out.push(t);
        assert(out@ =~= records_at(raw@, at as int, (i + 1) as nat));
        i = i + 1;
    }
    out
}

/// Reads the transitions at `at`.
pub fn parse_transitions(name: &str, raw: &[u8], at: usize, params: &Params) -> (r: Result<
    Transitions,
    Error,
>)
    ensures
        as_wanted(
            name@,
            plain(r),
            transitions_at(raw@, at as int, params.state_count as nat),
        ),
{
    match need(name, raw, at, 5, "transitions header") {
        Ok(_) => {},
        Err(e) => {
            return Err(e);
        },
    }
    let stride: usize = raw[at + 3] as usize;
    if stride < 4 {
        let mut out: Vec<char> = Vec::new();
        push_str(&mut out, "descriptor stride ");
        push_all(&mut out, number(stride as u128, 10).as_slice());
        push_str(&mut out, " is too small for a u24 offset plus a count");
        assert(out@ =~= small_stride(stride as int));
        return Err(Error::new(name, 0, text_of(out.as_slice())));
    }
    let n: u32 = params.state_count;
    assert(0 <= n * stride <= 0xffff_ffff * 255) by (nonlinear_arith)
        requires
            0 <= n <= 0xffff_ffff,
            0 <= stride <= 255,
    ;
    let len: u64 = n as u64 * stride as u64;
    match need(name, raw, at + 5, len, "state table") {
        Ok(_) => {},
        Err(e) => {
            return Err(e);
        },
    }
    let (states, total) = read_states(raw, at + 5, n, stride);
    let recs: usize = at + 5 + len as usize;
    match need(name, raw, recs, total * 4, "transition records") {
        Ok(_) => {},
        Err(e) => {
            return Err(e);
        },
    }
    let records: Vec<Transition> = read_records(raw, recs, total as usize);
    Ok(
        Transitions {
            f0: raw[at],
            f1: raw[at + 1],
            f2: raw[at + 2],
            desc_stride: stride,
            f4: raw[at + 4],
            states,
            records,
        },
    )
}

/// A file that reads has a record for each transition that its states count,
/// and a descriptor for each state that its parameters state.
pub proof fn counts_match_records(raw: Seq<u8>, at: int, n: nat)
    requires
        0 <= at,
        transitions_at(raw, at, n) is Ok,
    ensures
        transitions_at(raw, at, n)->Ok_0.states.len() == n,
        transitions_at(raw, at, n)->Ok_0.records.len() == transitions_of(
            transitions_at(raw, at, n)->Ok_0.states,
            n,
        ),
{
    total_is_not_negative(transitions_at(raw, at, n)->Ok_0.states, n);
}

pub(crate) proof fn total_is_not_negative(states: Seq<StateDesc>, n: nat)
    ensures
        transitions_of(states, n) >= 0,
    decreases n,
{
    if n > 0 {
        total_is_not_negative(states, (n - 1) as nat);
    }
}

/// In a consistent automaton every state has exactly the records it counts,
/// and no two states share one.
pub proof fn states_share_nothing(a: Automaton, len: int, s: int, u: int)
    requires
        consistent(a, len),
        0 <= s < u < a.transitions.states.len(),
    ensures
        leaving(a.transitions, s).len() == a.transitions.states[s].count,
        leaving(a.transitions, u).len() == a.transitions.states[u].count,
        a.transitions.states[s].record_off / 4 + a.transitions.states[s].count
            <= a.transitions.states[u].record_off / 4,
{
    let t = a.transitions;
    totals_grow(t.states, (s + 1) as nat, u as nat);
    totals_grow(t.states, (s + 1) as nat, t.states.len());
    totals_grow(t.states, (u + 1) as nat, t.states.len());
    total_is_not_negative(t.states, s as nat);
    total_is_not_negative(t.states, u as nat);
}

pub(crate) proof fn totals_grow(states: Seq<StateDesc>, n: nat, m: nat)
    requires
        n <= m,
    ensures
        transitions_of(states, n) <= transitions_of(states, m),
    decreases m,
{
    if n < m {
        totals_grow(states, n, (m - 1) as nat);
    }
}

} // verus!
