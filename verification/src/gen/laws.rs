//! What holds of rules, whichever they are.
use vstd::prelude::*;
use vstd::utf8::encode_utf8;
use super::narrow::{
    acted, all_from, any_from, arm_passes, chosen, compares, failing, firing, narrowed, passes,
    phone_at, prepared, prepared_at, put_at, rule_fires, spelling, stepped, text_matches, Ctx,
    Phone,
};
use super::rules::{Act, Cond, Match, Rel, Rule, Subj, Tables};
use crate::xrt::text::stands;

verus! {

/// Asking for the opposite gives the opposite: of a test of a phone's code that
/// a rule may look at and the same test turned round, exactly one holds.
pub proof fn opposite_code_tests_exclude(
    ph: Seq<Phone>,
    i: int,
    ctx: Ctx<'_>,
    feats: Seq<u32>,
    at: i16,
    codes: Vec<u8>,
)
    requires
        0 <= i,
        0 <= i + at <= 0x3ff,
    ensures
        passes(Cond::Code { at, want: false, codes }, ph, i, ctx, feats) == !passes(
            Cond::Code { at, want: true, codes },
            ph,
            i,
            ctx,
            feats,
        ),
{
    nearby(ph, i, at as int);
}

/// The phone that a test looks at stands so far from the one it is for.
proof fn nearby(ph: Seq<Phone>, i: int, off: int)
    requires
        0 <= i,
        0 <= i + off <= 0x3ff,
        -0x8000 <= off <= 0x7fff,
    ensures
        phone_at(ph, i, off) == Some(
            if i + off < ph.len() {
                ph[i + off]
            } else {
                Phone { word: 0, code: 0 }
            },
        ),
{
    assert(i < 0x1_0000);
}

/// The same holds of every other test that can be asked both ways.
pub proof fn opposite_tests_exclude(
    ph: Seq<Phone>,
    i: int,
    ctx: Ctx<'_>,
    feats: Seq<u32>,
    a: i16,
    b: i16,
    mask: u32,
    subj: Subj,
    how: Match,
    lits: Vec<String>,
    off: u32,
    value: u8,
)
    requires
        0 <= i <= 0x3ff,
        0 <= i + a <= 0x3ff,
        0 <= i + b <= 0x3ff,
    ensures
        passes(Cond::SameWord { a, b, want: false }, ph, i, ctx, feats) == !passes(
            Cond::SameWord { a, b, want: true },
            ph,
            i,
            ctx,
            feats,
        ),
        passes(Cond::Feat { at: a, want: false, mask }, ph, i, ctx, feats) == !passes(
            Cond::Feat { at: a, want: true, mask },
            ph,
            i,
            ctx,
            feats,
        ),
        passes(Cond::Text { subj, how, want: false, lits }, ph, i, ctx, feats) == !passes(
            Cond::Text { subj, how, want: true, lits },
            ph,
            i,
            ctx,
            feats,
        ),
        passes(Cond::Absent { subj, want: false }, ph, i, ctx, feats) == !passes(
            Cond::Absent { subj, want: true },
            ph,
            i,
            ctx,
            feats,
        ),
        i < ph.len() && ph[i].word < ctx.elem12@.len() ==> passes(
            Cond::ElemByte { off, want: false, value },
            ph,
            i,
            ctx,
            feats,
        ) == !passes(Cond::ElemByte { off, want: true, value }, ph, i, ctx, feats),
{
    nearby(ph, i, 0);
    nearby(ph, i, a as int);
    nearby(ph, i, b as int);
}

/// A test of a code asks whether the phone at its distance has one of the codes,
/// and a test of words whether two phones belong to one.
pub proof fn tests_ask_the_phones_at_their_distance(
    ph: Seq<Phone>,
    i: int,
    ctx: Ctx<'_>,
    feats: Seq<u32>,
    a: i16,
    b: i16,
    codes: Vec<u8>,
    mask: u32,
)
    requires
        0 <= i < ph.len() <= 0x400,
        0 <= i + a < ph.len(),
        0 <= i + b < ph.len(),
    ensures
        passes(Cond::Code { at: a, want: true, codes }, ph, i, ctx, feats) <==> exists|k: int|
            0 <= k < codes@.len() && #[trigger] codes@[k] == ph[i + a].code,
        passes(Cond::SameWord { a, b, want: true }, ph, i, ctx, feats) <==> ph[i + a].word == ph[i
            + b].word,
        passes(Cond::Feat { at: a, want: true, mask }, ph, i, ctx, feats) <==> mask == (if ph[i
            + a].code < feats.len() {
            feats[ph[i + a].code as int]
        } else {
            0
        }) & mask,
        passes(Cond::Unread, ph, i, ctx, feats) == false,
{
    nearby(ph, i, a as int);
    nearby(ph, i, b as int);
    assert(codes@.contains(ph[i + a].code) <==> exists|k: int|
        0 <= k < codes@.len() && #[trigger] codes@[k] == ph[i + a].code);
}

/// A test of a spelling asks the phone's word, or the one before or after it, and
/// one of a word's flag byte asks that of the phone's word.
pub proof fn tests_ask_their_word(
    ph: Seq<Phone>,
    i: int,
    ctx: Ctx<'_>,
    feats: Seq<u32>,
    w: int,
    lit: String,
    lits: Vec<String>,
    rel: Rel,
    off: u32,
    value: u8,
)
    requires
        0 <= i < ph.len() <= 0x400,
        ph[i].word == w,
        0 < w,
        w + 1 < ctx.words@.len(),
        w < ctx.elem12@.len(),
        lits@ == seq![lit],
    ensures
        passes(
            Cond::Text { subj: Subj::Word, how: Match::Equals, want: true, lits },
            ph,
            i,
            ctx,
            feats,
        ) <==> ctx.words@[w]@ == lit@,
        passes(
            Cond::Text { subj: Subj::PrevWord, how: Match::Equals, want: true, lits },
            ph,
            i,
            ctx,
            feats,
        ) <==> ctx.words@[w - 1]@ == lit@,
        passes(
            Cond::Text { subj: Subj::NextWord, how: Match::Equals, want: true, lits },
            ph,
            i,
            ctx,
            feats,
        ) <==> ctx.words@[w + 1]@ == lit@,
        passes(Cond::Absent { subj: Subj::Word, want: true }, ph, i, ctx, feats) <==> ctx.words@[w]@.len()
            == 0,
        passes(Cond::Absent { subj: Subj::PrevWord, want: true }, ph, i, ctx, feats)
            <==> ctx.words@[w - 1]@.len() == 0,
        passes(Cond::Absent { subj: Subj::NextWord, want: true }, ph, i, ctx, feats)
            <==> ctx.words@[w + 1]@.len() == 0,
        passes(Cond::ElemByte { off, want: true, value }, ph, i, ctx, feats) <==> ctx.elem12@[w]
            == value,
        passes(Cond::Index { rel: Rel::Lt, value: (value as u32) }, ph, i, ctx, feats) <==> i
            < value,
        passes(Cond::Index { rel: Rel::Eq, value: (value as u32) }, ph, i, ctx, feats) <==> i
            == value,
        encode_utf8(ctx.words@[w]@).len() < 0x1_0000_0000 ==> (passes(
            Cond::Len { rel: Rel::Lt, value: (value as u32) },
            ph,
            i,
            ctx,
            feats,
        ) <==> encode_utf8(ctx.words@[w]@).len() < value),
{
    nearby(ph, i, 0);
    let c = lits@;
    assert(c[0] == lit);
    assert(c.len() == 1);
    assert(spelling(ctx, ph, i, Subj::Word) == ctx.words@[w]@);
    assert(spelling(ctx, ph, i, Subj::PrevWord) == ctx.words@[w - 1]@);
    assert(spelling(ctx, ph, i, Subj::NextWord) == ctx.words@[w + 1]@);
    assert(text_matches(ctx.words@[w]@, Match::Equals, c[0]@) == (ctx.words@[w]@ == lit@));
    assert(text_matches(ctx.words@[w - 1]@, Match::Equals, c[0]@) == (ctx.words@[w - 1]@ == lit@));
    assert(text_matches(ctx.words@[w + 1]@, Match::Equals, c[0]@) == (ctx.words@[w + 1]@ == lit@));
}

/// A text test holds where one of its texts does: more texts never make it fail.
pub proof fn one_text_is_enough(
    ph: Seq<Phone>,
    i: int,
    ctx: Ctx<'_>,
    feats: Seq<u32>,
    subj: Subj,
    how: Match,
    few: Vec<String>,
    more: Vec<String>,
)
    requires
        few@.len() <= more@.len(),
        forall|k: int| 0 <= k < few@.len() ==> #[trigger] few@[k] == more@[k],
        passes(Cond::Text { subj, how, want: true, lits: few }, ph, i, ctx, feats),
    ensures
        passes(Cond::Text { subj, how, want: true, lits: more }, ph, i, ctx, feats),
        few@.len() > 0,
{
    let s = spelling(ctx, ph, i, subj);
    let k = choose|k: int| 0 <= k < few@.len() && text_matches(s, how, #[trigger] few@[k]@);
    assert(text_matches(s, how, more@[k]@));
}

/// How spellings compare: a spelling starts with a text exactly where more
/// letters can be put behind the text to give it, ends with one where they can
/// be put before, and holds one where they can be put on both sides.
pub proof fn spellings_compare(s: Seq<char>, lit: Seq<char>, n: u8, a: Seq<u8>, b: Seq<u8>)
    ensures
        text_matches(s, Match::Equals, s),
        encode_utf8(s) == encode_utf8(lit) + b ==> text_matches(s, Match::Prefix, lit),
        encode_utf8(s) == a + encode_utf8(lit) + b ==> text_matches(s, Match::Contains, lit),
        encode_utf8(s) == a + encode_utf8(lit) && n == encode_utf8(lit).len() ==> text_matches(
            s,
            Match::Suffix(n),
            lit,
        ),
        text_matches(s, Match::Equals, lit) ==> text_matches(s, Match::Prefix, lit),
        text_matches(s, Match::Prefix, lit) ==> text_matches(s, Match::Contains, lit),
        text_matches(s, Match::Suffix(n), lit) ==> text_matches(s, Match::Contains, lit),
        text_matches(s, Match::Suffix(n), lit) ==> n == encode_utf8(lit).len(),
        text_matches(s, Match::Contains, lit) ==> encode_utf8(lit).len() <= encode_utf8(s).len(),
        text_matches(s, Match::Prefix, lit) ==> forall|k: int|
            0 <= k < encode_utf8(lit).len() ==> encode_utf8(s)[k] == encode_utf8(lit)[k],
        text_matches(s, Match::Equals, lit) ==> s == lit,
{
    let (x, l) = (encode_utf8(s), encode_utf8(lit));
    if x == l + b {
        assert(x.subrange(0, l.len() as int) =~= l);
    }
    if x == a + l + b {
        assert(x.subrange(a.len() as int, (a.len() + l.len()) as int) =~= l);
        assert(stands(x, l, a.len() as int));
    }
    if x == a + l && n == l.len() {
        assert(x.subrange(x.len() - n, x.len() as int) =~= l);
    }
    if s == lit {
        assert(x.subrange(0, l.len() as int) =~= l);
    }
    if text_matches(s, Match::Prefix, lit) {
        assert(stands(x, l, 0));
        assert forall|k: int| 0 <= k < l.len() implies x[k] == l[k] by {
            assert(x.subrange(0, l.len() as int)[k] == x[k]);
        }
    }
    if text_matches(s, Match::Suffix(n), lit) {
        assert(stands(x, l, x.len() - n));
    }
}

/// Numbers compare as numbers do: one is less, equal or greater, and the other
/// relations are made of these.
pub proof fn numbers_compare(a: u32, b: u32)
    ensures
        compares(Rel::Lt, a, b) <==> a < b,
        compares(Rel::Gt, a, b) == compares(Rel::Lt, b, a),
        compares(Rel::Eq, a, b) == (!compares(Rel::Lt, a, b) && !compares(Rel::Gt, a, b)),
        compares(Rel::Ne, a, b) == !compares(Rel::Eq, a, b),
        compares(Rel::Le, a, b) == !compares(Rel::Gt, a, b),
        compares(Rel::Ge, a, b) == !compares(Rel::Lt, a, b),
{
}

/// Any of some tests holds where one does, and all of them where each does.
pub proof fn tests_combine(
    cs: Vec<Cond>,
    ph: Seq<Phone>,
    i: int,
    ctx: Ctx<'_>,
    feats: Seq<u32>,
)
    ensures
        passes(Cond::Any(cs), ph, i, ctx, feats) <==> exists|k: int|
            0 <= k < cs@.len() && passes(#[trigger] cs@[k], ph, i, ctx, feats),
        passes(Cond::All(cs), ph, i, ctx, feats) <==> forall|k: int|
            0 <= k < cs@.len() ==> passes(#[trigger] cs@[k], ph, i, ctx, feats),
{
    any_of(cs@, 0, ph, i, ctx, feats);
    all_of(cs@, 0, ph, i, ctx, feats);
}

proof fn any_of(cs: Seq<Cond>, k: int, ph: Seq<Phone>, i: int, ctx: Ctx<'_>, feats: Seq<u32>)
    requires
        0 <= k <= cs.len(),
    ensures
        any_from(cs, k, ph, i, ctx, feats) <==> exists|n: int|
            k <= n < cs.len() && passes(#[trigger] cs[n], ph, i, ctx, feats),
    decreases cs.len() - k,
{
    if k < cs.len() {
        any_of(cs, k + 1, ph, i, ctx, feats);
    }
}

proof fn all_of(cs: Seq<Cond>, k: int, ph: Seq<Phone>, i: int, ctx: Ctx<'_>, feats: Seq<u32>)
    requires
        0 <= k <= cs.len(),
    ensures
        all_from(cs, k, ph, i, ctx, feats) <==> forall|n: int|
            k <= n < cs.len() ==> passes(#[trigger] cs[n], ph, i, ctx, feats),
    decreases cs.len() - k,
{
    if k < cs.len() {
        all_of(cs, k + 1, ph, i, ctx, feats);
    }
}

/// A rule fires where the phone is one of its own, or it has none, and every
/// test of one of its lists holds.
pub proof fn rules_fire_where_a_list_holds(
    r: Rule,
    ph: Seq<Phone>,
    i: int,
    ctx: Ctx<'_>,
    feats: Seq<u32>,
)
    requires
        0 <= i < ph.len() <= 0x400,
    ensures
        rule_fires(r, ph, i, ctx, feats) <==> {
            &&& r.phones@.len() == 0 || exists|n: int|
                0 <= n < r.phones@.len() && #[trigger] r.phones@[n] == ph[i].code
            &&& exists|k: int|
                0 <= k < r.arms@.len() && list_holds((#[trigger] r.arms@[k])@, ph, i, ctx, feats)
        },
{
    nearby(ph, i, 0);
    assert(r.phones@.contains(ph[i].code) <==> exists|n: int|
        0 <= n < r.phones@.len() && #[trigger] r.phones@[n] == ph[i].code);
    assert forall|k: int| 0 <= k < r.arms@.len() implies list_holds(
        (#[trigger] r.arms@[k])@,
        ph,
        i,
        ctx,
        feats,
    ) == arm_passes(r.arms@[k]@, ph, i, ctx, feats) by {
        fails_first(r.arms@[k]@, ph, i, ctx, feats, 0);
    }
}

/// Every test of a list holds.
pub open spec fn list_holds(
    arm: Seq<Cond>,
    ph: Seq<Phone>,
    i: int,
    ctx: Ctx<'_>,
    feats: Seq<u32>,
) -> bool {
    forall|n: int| 0 <= n < arm.len() ==> passes(#[trigger] arm[n], ph, i, ctx, feats)
}

proof fn fails_first(
    arm: Seq<Cond>,
    ph: Seq<Phone>,
    i: int,
    ctx: Ctx<'_>,
    feats: Seq<u32>,
    from: int,
)
    requires
        0 <= from <= arm.len(),
    ensures
        from <= failing(arm, ph, i, ctx, feats, from) <= arm.len(),
        failing(arm, ph, i, ctx, feats, from) == arm.len() <==> forall|n: int|
            from <= n < arm.len() ==> passes(#[trigger] arm[n], ph, i, ctx, feats),
    decreases arm.len() - from,
{
    if from < arm.len() && passes(arm[from], ph, i, ctx, feats) {
        fails_first(arm, ph, i, ctx, feats, from + 1);
    }
}

/// The first rule that fires is the one that counts: those for every style come
/// before those of a style, which only that style has, and within each the order
/// decides.
pub proof fn first_rule_wins(t: Tables, ph: Seq<Phone>, i: int, ctx: Ctx<'_>, k: int)
    ensures
        0 <= k < t.stage1@.len() && rule_fires(t.stage1@[k], ph, i, ctx, t.feats@) && silent(
            t.stage1@,
            k,
            ph,
            i,
            ctx,
            t.feats@,
        ) ==> chosen(t, ph, i, ctx) == Some(t.stage1@[k]),
        silent(t.stage1@, t.stage1@.len() as int, ph, i, ctx, t.feats@) ==> {
            &&& ctx.style == 2 && 0 <= k < t.stage2@.len() && rule_fires(
                t.stage2@[k],
                ph,
                i,
                ctx,
                t.feats@,
            ) && silent(t.stage2@, k, ph, i, ctx, t.feats@) ==> chosen(t, ph, i, ctx) == Some(
                t.stage2@[k],
            )
            &&& ctx.style == 3 && 0 <= k < t.stage3@.len() && rule_fires(
                t.stage3@[k],
                ph,
                i,
                ctx,
                t.feats@,
            ) && silent(t.stage3@, k, ph, i, ctx, t.feats@) ==> chosen(t, ph, i, ctx) == Some(
                t.stage3@[k],
            )
            &&& ctx.style != 2 && ctx.style != 3 ==> chosen(t, ph, i, ctx) is None
            &&& ctx.style == 2 && silent(
                t.stage2@,
                t.stage2@.len() as int,
                ph,
                i,
                ctx,
                t.feats@,
            ) ==> chosen(t, ph, i, ctx) is None
            &&& ctx.style == 3 && silent(
                t.stage3@,
                t.stage3@.len() as int,
                ph,
                i,
                ctx,
                t.feats@,
            ) ==> chosen(t, ph, i, ctx) is None
        },
{
    fires_first(t.stage1@, ph, i, ctx, t.feats@, 0, k);
    fires_first(t.stage1@, ph, i, ctx, t.feats@, 0, t.stage1@.len() as int);
    fires_first(t.stage2@, ph, i, ctx, t.feats@, 0, k);
    fires_first(t.stage2@, ph, i, ctx, t.feats@, 0, t.stage2@.len() as int);
    fires_first(t.stage3@, ph, i, ctx, t.feats@, 0, k);
    fires_first(t.stage3@, ph, i, ctx, t.feats@, 0, t.stage3@.len() as int);
}

/// None of the first `k` rules fires.
pub open spec fn silent(
    rules: Seq<Rule>,
    k: int,
    ph: Seq<Phone>,
    i: int,
    ctx: Ctx<'_>,
    feats: Seq<u32>,
) -> bool {
    forall|n: int| 0 <= n < k ==> !rule_fires(#[trigger] rules[n], ph, i, ctx, feats)
}

proof fn fires_first(
    rules: Seq<Rule>,
    ph: Seq<Phone>,
    i: int,
    ctx: Ctx<'_>,
    feats: Seq<u32>,
    from: int,
    k: int,
)
    requires
        0 <= from,
    ensures
        from <= k < rules.len() && rule_fires(rules[k], ph, i, ctx, feats) && (forall|n: int|
            from <= n < k ==> !rule_fires(#[trigger] rules[n], ph, i, ctx, feats)) ==> firing(
            rules,
            ph,
            i,
            ctx,
            feats,
            from,
        ) == k,
        k == rules.len() && from <= k && (forall|n: int|
            from <= n < k ==> !rule_fires(#[trigger] rules[n], ph, i, ctx, feats)) ==> firing(
            rules,
            ph,
            i,
            ctx,
            feats,
            from,
        ) == k,
    decreases rules.len() - from,
{
    if from < rules.len() && from < k {
        fires_first(rules, ph, i, ctx, feats, from + 1, k);
    }
}

/// What a rule's last deed does: a written phone stands where it says and
/// nothing else changes but blanks before it, and moving on moves one of the two
/// indices and writes nothing.
pub proof fn deeds_do_one_thing(acts: Seq<Act>, n: nat, j: int, out: Seq<u8>, k: int)
    requires
        0 < n <= acts.len(),
        0 <= j,
    ensures
        ({
            let (j0, e0, o0) = acted(acts, (n - 1) as nat, j, out);
            let (j1, e1, o1) = acted(acts, n, j, out);
            match acts[n - 1] {
                Act::Out { rel, code } => {
                    &&& j1 == j0
                    &&& e1 == e0
                    &&& j0 + rel < o1.len()
                    &&& o1[j0 + rel] == code
                    &&& o0.len() <= o1.len()
                    &&& o1.len() <= o0.len() || o1.len() == j0 + rel + 1
                    &&& 0 <= k < o0.len() && k != j0 + rel ==> o1[k] == o0[k]
                    &&& o0.len() <= k < j0 + rel ==> o1[k] == 0
                },
                Act::BumpJ(m) => j1 == j0 + m && e1 == e0 && o1 == o0,
                Act::BumpI(m) => j1 == j0 && e1 == e0 + m && o1 == o0,
                Act::SetI(m) => j1 == j0 && e1 == m && o1 == o0,
            }
        }),
        acted(acts, 0, j, out) == (j, 0int, out),
{
    bounds_of(acts, (n - 1) as nat, j, out);
}

proof fn bounds_of(acts: Seq<Act>, n: nat, j: int, out: Seq<u8>)
    requires
        n <= acts.len(),
        0 <= j,
    ensures
        j <= acted(acts, n, j, out).0,
    decreases n,
{
    if n > 0 {
        bounds_of(acts, (n - 1) as nat, j, out);
    }
}

/// A step takes the phone as prepared, does what the chosen rule says, and goes
/// on behind what the rule took and wrote.
pub proof fn steps_do_what_their_rule_says(
    t: Tables,
    ph: Seq<Phone>,
    i: int,
    j: int,
    out: Seq<u8>,
    ctx: Ctx<'_>,
    r: Rule,
)
    requires
        0 <= i < ph.len(),
        t.prepass@.len() == 0,
        chosen(t, prepared_at(ph, i), i, ctx) == Some(r),
    ensures
        ({
            let s = stepped(t, ph, i, j, out, ctx);
            let (last, more, written) = acted(r.acts@, r.acts@.len(), j, out);
            &&& s.out == written
            &&& s.i == i + 1 + more
            &&& s.j == last + 1
            &&& s.ph.len() == ph.len()
            &&& s.ph[i].word == ph[i].word
            &&& s.ph[i].code == prepared(ph[i].code)
            &&& forall|k: int| 0 <= k < ph.len() && k != i ==> #[trigger] s.ph[k] == ph[k]
        }),
{
}

/// A rule that comes before all others writes first, and does not stop them.
pub proof fn early_rules_stop_nothing(
    t: Tables,
    ph: Seq<Phone>,
    i: int,
    j: int,
    out: Seq<u8>,
    ctx: Ctx<'_>,
    early: Rule,
)
    requires
        0 <= i < ph.len(),
        t.prepass@ == seq![early],
        rule_fires(early, prepared_at(ph, i), i, ctx, t.feats@),
    ensures
        ({
            let (last, _, written) = acted(early.acts@, early.acts@.len(), j, out);
            let s = stepped(t, ph, i, j, out, ctx);
            match chosen(t, prepared_at(ph, i), i, ctx) {
                Some(r) => {
                    let (l2, more, w2) = acted(r.acts@, r.acts@.len(), last + 1, written);
                    s.out == w2 && s.i == i + 1 + more && s.j == l2 + 1
                },
                None => {
                    &&& s.out == put_at(written, last + 1, prepared(ph[i].code))
                    &&& s.i == i + 1
                    &&& s.j == last + 2
                },
            }
        }),
{
    assert(t.prepass@[0] == early);
    fires_first(t.prepass@, prepared_at(ph, i), i, ctx, t.feats@, 0, 0);
}

/// Preparing a phone changes five of them and none twice: three stops to the
/// next code, their aspirated form, and two vowels seventy-five up.
pub proof fn prepared_phones_stay(code: u8)
    ensures
        prepared(prepared(code)) == prepared(code),
        code == 43 || code == 46 || code == 49 ==> prepared(code) == code + 1,
        code == 10 || code == 11 ==> prepared(code) == code + 75,
        code != 43 && code != 46 && code != 49 && code != 10 && code != 11 ==> prepared(code)
            == code,
{
}

/// A phrase is rewritten phone by phone, from the first to the last: what is left
/// after a step is rewritten from where it ended.
pub proof fn phrases_are_taken_in_order(
    t: Tables,
    ph: Seq<Phone>,
    i: int,
    j: int,
    out: Seq<u8>,
    ctx: Ctx<'_>,
)
    requires
        0 <= i,
    ensures
        i >= ph.len() ==> narrowed(t, ph, i, j, out, ctx) == (ph, out),
        i < ph.len() ==> ({
            let s = stepped(t, ph, i, j, out, ctx);
            narrowed(t, ph, i, j, out, ctx) == narrowed(t, s.ph, s.i, s.j, s.out, ctx)
        }),
{
    if i < ph.len() {
        super::narrow::steps_move_on(t, ph, i, j, out, ctx);
    }
}

} // verus!
