//! What holds of an automaton's file, whatever it holds.
use vstd::prelude::*;
use super::atm::{
    automaton_in, before_zero, classes_at, consistent, header_of, leaving, params_at, table_at,
    transitions_at, transitions_of, Automaton,
};
use super::text::latin1;

verus! {

/// Numbers stand with their highest byte first: the header's offsets take two
/// bytes each, and the file's size three.
pub proof fn header_numbers_have_their_high_byte_first(raw: Seq<u8>)
    requires
        raw.len() >= 12,
    ensures
        header_of(raw) matches Ok(h) && {
            &&& h.f0 == raw[0] && h.f1 == raw[1] && h.f2 == raw[2]
            &&& h.params_off == 0x100 * raw[3] + raw[4]
            &&& h.symbols_off == 0x100 * raw[5] + raw[6]
            &&& h.transitions_off == 0x100 * raw[7] + raw[8]
            &&& h.file_size == 0x1_0000 * raw[9] + 0x100 * raw[10] + raw[11]
        },
{
}

/// Where each parameter stands.
pub proof fn parameters_stand_in_order(raw: Seq<u8>, at: int)
    requires
        0 <= at,
        at + 24 <= raw.len(),
    ensures
        params_at(raw, at) matches Ok(p) && {
            &&& p.record_len == raw[at + 3]
            &&& p.tag.0 == 0x100_0000 * raw[at + 4] + 0x1_0000 * raw[at + 5] + 0x100 * raw[at + 6]
                + raw[at + 7]
            &&& p.tag.1 == 0x100_0000 * raw[at + 8] + 0x1_0000 * raw[at + 9] + 0x100 * raw[at + 10]
                + raw[at + 11]
            &&& p.grapheme_count == raw[at + 13]
            &&& p.column_count == 0x100 * raw[at + 17] + raw[at + 18]
            &&& p.phoneme_count == 0x100 * raw[at + 19] + raw[at + 20]
            &&& p.state_count == 0x1_0000 * raw[at + 21] + 0x100 * raw[at + 22] + raw[at + 23]
        },
{
}

/// A string as it stands in a table: its length, its bytes and a zero; an empty
/// one as one byte.
pub open spec fn shelved(s: Seq<u8>) -> Seq<u8> {
    if s.len() == 0 {
        seq![0xffu8]
    } else {
        seq![s.len() as u8] + s + seq![0u8]
    }
}

/// Strings as they stand in a table.
pub open spec fn shelf(v: Seq<Seq<u8>>) -> Seq<u8>
    decreases v.len(),
{
    if v.len() == 0 {
        Seq::empty()
    } else {
        shelf(v.drop_last()) + shelved(v.last())
    }
}

proof fn bytes_before_zero(s: Seq<u8>, rest: Seq<u8>)
    requires
        forall|i: int| 0 <= i < s.len() ==> #[trigger] s[i] != 0,
    ensures
        before_zero(s + seq![0u8] + rest) == s,
    decreases s.len(),
{
    let t = s + seq![0u8] + rest;
    if s.len() > 0 {
        assert(t[0] == s[0]);
        assert(t.subrange(1, t.len() as int) =~= s.skip(1) + seq![0u8] + rest);
        bytes_before_zero(s.skip(1), rest);
        assert(seq![s[0]] + s.skip(1) =~= s);
    } else {
        assert(t[0] == 0);
        assert(s =~= Seq::empty());
    }
}

/// A table of strings reads back, and leads to what stands behind it.
pub proof fn tables_read_back(
    front: Seq<u8>,
    v: Seq<Seq<u8>>,
    rest: Seq<u8>,
    what: Seq<char>,
)
    requires
        forall|k: int| 0 <= k < v.len() ==> (#[trigger] v[k]).len() < 0xff,
        forall|k: int, i: int| 0 <= k < v.len() && 0 <= i < v[k].len() ==> #[trigger] v[k][i] != 0,
    ensures
        table_at(front + shelf(v) + rest, front.len() as int, v.len(), what) == Ok::<
            (Seq<Seq<char>>, int),
            (Seq<char>, int),
        >((v.map_values(|s: Seq<u8>| latin1(s)), (front + shelf(v)).len() as int)),
    decreases v.len(),
{
    let raw = front + shelf(v) + rest;
    let names = v.map_values(|s: Seq<u8>| latin1(s));
    if v.len() == 0 {
        assert(names =~= Seq::empty());
    } else {
        let u = v.drop_last();
        let last = v.last();
        assert(last == v[v.len() - 1]);
        let tail = shelved(last) + rest;
        assert(raw =~= front + shelf(u) + tail);
        assert forall|k: int, i: int| 0 <= k < u.len() && 0 <= i < u[k].len() implies #[trigger] u[k][i]
            != 0 by {
            assert(v[k][i] != 0);
        }
        assert forall|k: int| 0 <= k < u.len() implies (#[trigger] u[k]).len() < 0xff by {
            assert(u[k] == v[k]);
        }
        tables_read_back(front, u, tail, what);
        let q = (front + shelf(u)).len() as int;
        let n = last.len() as int;
        assert(raw[q] == shelved(last)[0]);
        assert(names =~= u.map_values(|s: Seq<u8>| latin1(s)).push(latin1(last)));
        if n > 0 {
            let part = raw.subrange(q + 1, q + 2 + raw[q]);
            assert(part =~= last + seq![0u8] + Seq::<u8>::empty());
            assert forall|i: int| 0 <= i < n implies #[trigger] last[i] != 0 by {
                assert(v[v.len() - 1][i] != 0);
            }
            bytes_before_zero(last, Seq::empty());
        } else {
            assert(last =~= Seq::empty());
            assert(latin1(last) =~= Seq::empty());
        }
    }
}

/// The rows of classes follow each other behind the byte that says how wide each
/// is.
pub proof fn class_rows_follow_each_other(raw: Seq<u8>, p: int, n: int, i: int, j: int)
    requires
        0 <= p,
        classes_at(raw, p, n) is Ok,
        0 <= i < n,
        0 <= j < raw[p],
    ensures
        classes_at(raw, p, n)->Ok_0.len() == n,
        classes_at(raw, p, n)->Ok_0[i].len() == raw[p],
        classes_at(raw, p, n)->Ok_0[i][j] == raw[p + 1 + (i * raw[p] + j)],
{
    let w = raw[p] as int;
    assert(0 <= i * w && i * w + w <= n * w) by (nonlinear_arith)
        requires
            0 <= i < n,
            w >= 0,
    ;
}

/// Each state's descriptor starts with where its records are, and ends with how
/// many there are.
pub proof fn descriptors_hold_offset_and_count(raw: Seq<u8>, at: int, n: nat, s: int)
    requires
        0 <= at,
        transitions_at(raw, at, n) is Ok,
        0 <= s < n,
    ensures
        ({
            let t = transitions_at(raw, at, n)->Ok_0;
            let stride = raw[at + 3] as int;
            let d = at + 5 + s * stride;
            &&& stride >= 4
            &&& t.desc_stride == stride
            &&& t.states[s].record_off == 0x1_0000 * raw[d] + 0x100 * raw[d + 1] + raw[d + 2]
            &&& t.states[s].count == raw[d + stride - 1]
        }),
{
}

/// The records stand behind the descriptors, four bytes each: a symbol below 128
/// with a bit above it, the state it leads to, and one byte more.
pub proof fn records_hold_symbol_and_target(raw: Seq<u8>, at: int, n: nat, i: int)
    requires
        0 <= at,
        transitions_at(raw, at, n) is Ok,
        0 <= i < transitions_at(raw, at, n)->Ok_0.records.len(),
    ensures
        ({
            let x = transitions_at(raw, at, n)->Ok_0.records[i];
            let r = at + 5 + n * raw[at + 3] + 4 * i;
            &&& r + 4 <= raw.len()
            &&& x.symbol < 128
            &&& x.symbol + (if x.high_bit {
                128int
            } else {
                0
            }) == raw[r]
            &&& x.target == 0x100 * raw[r + 1] + raw[r + 2]
            &&& x.aux == raw[r + 3]
        }),
{
    let t = transitions_at(raw, at, n)->Ok_0;
    super::atm::total_is_not_negative(t.states, n);
    assert(0 <= n * (raw[at + 3] as int)) by (nonlinear_arith)
        requires
            0 <= n,
            0 <= raw[at + 3] as int,
    ;
}

/// What leaves a state of a consistent automaton is what its own records say, in
/// order: those behind the records of all states before it.
pub proof fn states_own_their_records(a: Automaton, len: int, s: int, k: int)
    requires
        consistent(a, len),
        0 <= s < a.transitions.states.len(),
        0 <= k < a.transitions.states[s].count,
    ensures
        leaving(a.transitions, s).len() == a.transitions.states[s].count,
        leaving(a.transitions, s)[k] == a.transitions.records[transitions_of(
            a.transitions.states,
            s as nat,
        ) + k],
{
    let t = a.transitions;
    super::atm::totals_grow(t.states, (s + 1) as nat, t.states.len());
    super::atm::total_is_not_negative(t.states, s as nat);
}

/// The sections of a file are read where its header says.
pub proof fn sections_are_where_the_header_says(raw: Seq<u8>, a: Automaton)
    requires
        automaton_in(raw) == Ok::<Automaton, Seq<char>>(a),
    ensures
        params_at(raw, 0x100 * raw[3] + raw[4]) == Ok::<_, Seq<char>>(a.params),
        transitions_at(raw, 0x100 * raw[7] + raw[8], a.params.state_count as nat) == Ok::<
            _,
            Seq<char>,
        >(a.transitions),
        a.symbols.section_len == ({
            let at = 0x100 * raw[5] + raw[6];
            0x100 * raw[at + 3] + raw[at + 4]
        }),
{
}

} // verus!
