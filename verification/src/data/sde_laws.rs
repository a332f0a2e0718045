//! What holds of a signal descriptor's lines and units.
use vstd::prelude::*;
use super::char_laws::{
    decimals_read_back, joined_by, joined_pieces_are_split_again, lacks, white_space_is_taken_off,
};
use super::chars::{all_digits, is_digit, signed, trimmed, unsigned, without_plus, written};
use super::sde::{
    after_prefix, base93, digits93, digits_are_ascii, non_empty, number_list,
    numbers_in, numbers_round_trip, record_on, tally_of, unit_end, unit_of, units_in,
    utterances_in, SdeLine, Side, Unit,
};

verus! {

/// A digit behind others counts once, and they count 93 times what they did.
pub proof fn later_digits_count_less(bytes: Seq<u8>, b: u8, acc: u32)
    requires
        forall|i: int| 0 <= i < bytes.len() ==> #[trigger] bytes[i] > 0x21,
        b > 0x21,
    ensures
        base93(bytes.push(b), acc) == (93 * base93(bytes, acc) + (b - 0x22)) % 0x1_0000_0000,
    decreases bytes.len(),
{
    let s = bytes.push(b);
    if bytes.len() == 0 {
        assert(s.subrange(1, 1) =~= Seq::empty());
        assert(s[0] == b);
        assert(base93(s.subrange(1, 1), ((acc * 93 + (b - 0x22)) % 0x1_0000_0000) as u32) == (acc * 93
            + (b - 0x22)) % 0x1_0000_0000);
    } else {
        assert(s[0] == bytes[0]);
        let t = bytes.subrange(1, bytes.len() as int);
        assert(s.subrange(1, s.len() as int) =~= t.push(b));
        later_digits_count_less(
            t,
            b,
            ((acc * 93 + (bytes[0] - 0x22)) % 0x1_0000_0000) as u32,
        );
    }
}

/// The first byte that is no digit ends a number.
pub proof fn numbers_end_at_the_first_other_byte(bytes: Seq<u8>, b: u8, rest: Seq<u8>, acc: u32)
    requires
        forall|i: int| 0 <= i < bytes.len() ==> #[trigger] bytes[i] > 0x21,
        b <= 0x21,
    ensures
        base93(bytes + seq![b] + rest, acc) == base93(bytes, acc),
    decreases bytes.len(),
{
    let s = bytes + seq![b] + rest;
    if bytes.len() == 0 {
        assert(s[0] == b);
    } else {
        assert(s[0] == bytes[0]);
        let t = bytes.subrange(1, bytes.len() as int);
        assert(s.subrange(1, s.len() as int) =~= t + seq![b] + rest);
        numbers_end_at_the_first_other_byte(
            t,
            b,
            rest,
            ((acc * 93 + (bytes[0] - 0x22)) % 0x1_0000_0000) as u32,
        );
    }
}

/// A record without a start goes on where the unit before it ended: its fields
/// are its index and its length, and the fourth, where it is there, the value
/// beside that.
pub proof fn units_go_on_where_the_last_ended(
    side: Side,
    index: u32,
    length: u32,
    third: Seq<char>,
    extra: u32,
    end: u32,
)
    ensures
        unit_of(
            side,
            seq![digits93(index as nat), digits93(length as nat), third],
            end,
        ) == (Unit { side, index, start: end, length, extra: 0, explicit_start: false }),
        unit_of(
            side,
            seq![digits93(index as nat), digits93(length as nat), third, digits93(extra as nat)],
            end,
        ) == (Unit { side, index, start: end, length, extra, explicit_start: false }),
{
    reveal(unit_of);
    numbers_round_trip(index);
    numbers_round_trip(length);
    numbers_round_trip(extra);
    digits_are_ascii(length as nat);
    assert(digits93(length as nat).len() > 0);
    assert('"' <= digits93(length as nat)[0]);
}

/// A record with a start, which a mark sets apart, begins there, wherever the
/// unit before it ended.
pub proof fn stated_starts_win(
    side: Side,
    index: u32,
    start: u32,
    length: u32,
    third: Seq<char>,
    extra: u32,
    end: u32,
)
    ensures
        unit_of(
            side,
            seq![
                digits93(index as nat),
                seq!['!'] + digits93(start as nat),
                digits93(length as nat),
                third,
                digits93(extra as nat),
            ],
            end,
        ) == (Unit { side, index, start, length, extra, explicit_start: true }),
{
    reveal(unit_of);
    numbers_round_trip(index);
    numbers_round_trip(start);
    numbers_round_trip(length);
    numbers_round_trip(extra);
    let s = seq!['!'] + digits93(start as nat);
    assert(s.subrange(1, s.len() as int) =~= digits93(start as nat));
}

/// Each record with three fields or more gives one unit, of its own side, and any
/// other record none.
pub proof fn records_give_their_units(v: Seq<SdeLine>, n: nat)
    requires
        0 < n <= v.len(),
    ensures
        ({
            let (before, us) = (units_in(v, (n - 1) as nat), units_in(v, n));
            match v[n - 1] {
                SdeLine::Left(t) => if t.len() >= 3 {
                    us.len() == before.len() + 1 && us.drop_last() == before && us.last().side
                        == Side::Left
                } else {
                    us == before
                },
                SdeLine::Right(t) => if t.len() >= 3 {
                    us.len() == before.len() + 1 && us.drop_last() == before && us.last().side
                        == Side::Right
                } else {
                    us == before
                },
                _ => us == before,
            }
        }),
{
    reveal(unit_of);
    let (before, us) = (units_in(v, (n - 1) as nat), units_in(v, n));
    if us.len() > before.len() {
        assert(us.drop_last() =~= before);
    }
}

/// The tally counts each transcription, and each record of either side.
pub proof fn tallies_count_records(v: Seq<SdeLine>, n: nat)
    requires
        n <= v.len(),
    ensures
        tally_of(v, n).0 == utterances_in(v, n).len(),
        tally_of(v, n).1 == v.take(n as int).filter(|r: SdeLine| r is Left).len(),
        tally_of(v, n).2 == v.take(n as int).filter(|r: SdeLine| r is Right).len(),
    decreases n,
{
    reveal(Seq::filter);
    if n > 0 {
        tallies_count_records(v, (n - 1) as nat);
        let t = v.take(n as int);
        assert(t.drop_last() =~= v.take(n - 1));
        assert(t.last() == v[n - 1]);
    } else {
        assert(v.take(0).len() == 0);
    }
}

proof fn written_is_plain(n: nat)
    ensures
        written(n, 10).len() > 0,
        lacks(written(n, 10), ','),
        trimmed(written(n, 10)) == written(n, 10),
        n <= i64::MAX ==> signed(trimmed(written(n, 10))) == Some(n as int),
{
    let w = written(n, 10);
    decimals_read_back(n, n as int);
    assert(unsigned(w, n as int) is Some);
    let e = without_plus(w);
    assert(all_digits(e));
    assert(is_digit(e[0]) && is_digit(e[e.len() - 1]));
    assert(w[0] != '+') by {
        if w[0] == '+' {
            super::char_laws::decimals_mean_their_number(n);
            assert(is_digit(w[0]));
        }
    }
    white_space_is_taken_off(Seq::empty(), w, Seq::empty());
    assert(Seq::<char>::empty() + w + Seq::<char>::empty() =~= w);
    assert forall|i: int| 0 <= i < w.len() implies #[trigger] w[i] != ',' by {
        assert(is_digit(e[i]));
    }
}

/// Numbers as they are written.
pub open spec fn all_written(v: Seq<nat>) -> Seq<Seq<char>> {
    v.map_values(|n: nat| written(n, 10))
}

proof fn written_numbers_are_read(v: Seq<nat>, n: nat)
    requires
        n <= v.len(),
        forall|i: int| 0 <= i < v.len() ==> #[trigger] v[i] <= i64::MAX,
    ensures
        numbers_in(all_written(v), n) == Ok::<Seq<i64>, Seq<char>>(
            v.take(n as int).map_values(|x: nat| x as i64),
        ),
    decreases n,
{
    if n > 0 {
        written_numbers_are_read(v, (n - 1) as nat);
        written_is_plain(v[n - 1]);
        assert(v[n - 1] <= i64::MAX);
        assert(all_written(v)[n - 1] == written(v[n - 1], 10));
        assert(v.take(n as int).map_values(|x: nat| x as i64) =~= v.take(n - 1).map_values(
            |x: nat| x as i64,
        ).push(v[n - 1] as i64));
    } else {
        assert(v.take(0).map_values(|x: nat| x as i64) =~= Seq::empty());
    }
}

/// Numbers with commas between them are read as they are, in their order.
pub proof fn lists_of_numbers_are_read(v: Seq<nat>)
    requires
        v.len() > 0,
        forall|i: int| 0 <= i < v.len() ==> #[trigger] v[i] <= i64::MAX,
    ensures
        number_list(joined_by(all_written(v), ',')) == Ok::<Seq<i64>, Seq<char>>(
            v.map_values(|x: nat| x as i64),
        ),
{
    let ps = all_written(v);
    assert forall|k: int| 0 <= k < ps.len() implies lacks(#[trigger] ps[k], ',') by {
        written_is_plain(v[k]);
    }
    joined_pieces_are_split_again(ps, ',');
    written_numbers_are_read(v, v.len());
    assert(v.take(v.len() as int) =~= v);
}

proof fn full_pieces_stay(ps: Seq<Seq<char>>, n: nat)
    requires
        n <= ps.len(),
        forall|k: int| 0 <= k < ps.len() ==> (#[trigger] ps[k]).len() > 0,
    ensures
        non_empty(ps, n) == ps.take(n as int),
    decreases n,
{
    if n > 0 {
        full_pieces_stay(ps, (n - 1) as nat);
        assert(ps[n - 1].len() > 0);
        assert(ps.take(n as int) =~= ps.take(n - 1).push(ps[n - 1]));
    } else {
        assert(ps.take(0) =~= Seq::empty());
    }
}

/// A line is told by its start: what follows is a transcription or a section, a
/// version, counts, or the fields of a unit's half, with spaces between them.
pub proof fn lines_are_told_by_their_start(
    s: Seq<char>,
    n: nat,
    v: Seq<nat>,
    f: Seq<Seq<char>>,
    line: int,
)
    requires
        n <= i64::MAX,
        v.len() > 0,
        forall|i: int| 0 <= i < v.len() ==> #[trigger] v[i] <= i64::MAX,
        f.len() > 0,
        forall|k: int| 0 <= k < f.len() ==> (#[trigger] f[k]).len() > 0 && lacks(f[k], ' '),
    ensures
        record_on("U="@ + s, line) == Ok::<SdeLine, Seq<char>>(SdeLine::Utterance(s)),
        record_on("S="@ + s, line) == Ok::<SdeLine, Seq<char>>(SdeLine::Section(s)),
        record_on("VERSION="@ + written(n, 10), line) == Ok::<SdeLine, Seq<char>>(
            SdeLine::Version(n as i64),
        ),
        record_on("N="@ + joined_by(all_written(v), ','), line) == Ok::<SdeLine, Seq<char>>(
            SdeLine::Counts(v.map_values(|x: nat| x as i64)),
        ),
        record_on(seq!['L'] + joined_by(f, ' '), line) == Ok::<SdeLine, Seq<char>>(
            SdeLine::Left(f),
        ),
        record_on(seq!['R'] + joined_by(f, ' '), line) == Ok::<SdeLine, Seq<char>>(
            SdeLine::Right(f),
        ),
{
    reveal_strlit("VERSION=");
    reveal_strlit("N=");
    reveal_strlit("U=");
    reveal_strlit("S=");
    let (vp, np, up, sp) = ("VERSION="@, "N="@, "U="@, "S="@);
    starts_and_rest(up, s);
    starts_and_rest(sp, s);
    starts_and_rest(vp, written(n, 10));
    starts_and_rest(np, joined_by(all_written(v), ','));
    written_is_plain(n);
    lists_of_numbers_are_read(v);
    let w = joined_by(f, ' ');
    assert(f[0].len() > 0 && lacks(f[0], ' '));
    assert(w.len() > 0);
    joined_pieces_are_split_again(f, ' ');
    full_pieces_stay(f, f.len());
    assert(f.take(f.len() as int) =~= f);
    let (l, r) = (seq!['L'] + w, seq!['R'] + w);
    assert(l.subrange(1, l.len() as int) =~= w);
    assert(r.subrange(1, r.len() as int) =~= w);
    differs(l, vp);
    differs(l, np);
    differs(l, up);
    differs(l, sp);
    differs(r, vp);
    differs(r, np);
    differs(r, up);
    differs(r, sp);
    differs(np + joined_by(all_written(v), ','), vp);
    differs(up + s, vp);
    differs(up + s, np);
    differs(sp + s, vp);
    differs(sp + s, np);
    differs(sp + s, up);
}

proof fn starts_and_rest(p: Seq<char>, s: Seq<char>)
    ensures
        super::chars::begins(p + s, p),
        after_prefix(p + s, p) == s,
{
    assert((p + s).subrange(0, p.len() as int) =~= p);
    assert((p + s).subrange(p.len() as int, (p + s).len() as int) =~= s);
}

proof fn differs(s: Seq<char>, p: Seq<char>)
    requires
        s.len() > 0,
        p.len() > 0,
        s[0] != p[0],
    ensures
        !super::chars::begins(s, p),
{
    if p.len() <= s.len() {
        assert(s.subrange(0, p.len() as int)[0] == s[0]);
    }
}

/// A unit ends its length behind its start.
pub proof fn units_end_behind_their_start(u: Unit)
    requires
        u.start + u.length <= u32::MAX,
    ensures
        unit_end(u) - u.start == u.length,
{
}

} // verus!
