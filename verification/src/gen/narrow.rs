//! The rewrite of broad phones into narrow ones.
//!
//! One broad phone is taken at a time. The first rule that fires says what is
//! written and how far to go on; where none does, the phone stays as it is.
use vstd::prelude::*;
use vstd::utf8::encode_utf8;
use super::rules::{Act, Cond, Match, Rel, Rule, Subj, Tables};
use crate::engine::runtime::{bytes_of, same};
use crate::xrt::text::{find_bytes, stands};

verus! {

/// A broad phone.
#[derive(Clone, Copy, Debug, PartialEq, Eq, Structural)]
pub struct Phone {
    /// The word it belongs to.
    pub word: u32,
    /// What it is.
    pub code: u8,
}

impl Default for Phone {
    fn default() -> (r: Self)
        ensures
            r == (Phone { word: 0, code: 0 }),
    {
        Phone { word: 0, code: 0 }
    }
}

/// What rules can look at besides the phones.
pub struct Ctx<'a> {
    /// The spelling of each word.
    pub words: &'a [String],
    /// The flag byte of each word.
    pub elem12: &'a [u8],
    /// The style.
    pub style: u32,
}

/// The phone at a distance from `i`: none outside what a rule may look at, and
/// a blank one past the end.
pub open spec fn phone_at(ph: Seq<Phone>, i: int, off: int) -> Option<Phone> {
    let k = (i % 0x1_0000_0000 + off) % 0x1_0000_0000;
    if k > 0x3ff {
        None
    } else if k < ph.len() {
        Some(ph[k])
    } else {
        Some(Phone { word: 0, code: 0 })
    }
}

fn at(ph: &[Phone], i: usize, off: i16) -> (r: Option<Phone>)
    ensures
        r == phone_at(ph@, i as int, off as int),
{
    let base: i64 = (i as u64 % 0x1_0000_0000) as i64 + off as i64;
    let k: i64 = if base < 0 {
        base + 0x1_0000_0000
    } else if base >= 0x1_0000_0000 {
        base - 0x1_0000_0000
    } else {
        base
    };
    if k > 0x3ff {
        return None;
    }
    if (k as usize) < ph.len() {
        Some(ph[k as usize])
    } else {
        Some(Phone { word: 0, code: 0 })
    }
}

/// The words' spellings.
pub open spec fn spelled(words: Seq<String>, k: int) -> Seq<char> {
    if 0 <= k < words.len() {
        words[k]@
    } else {
        Seq::empty()
    }
}

/// The spelling of the phone's word or of one beside it; empty where there is
/// none.
pub open spec fn spelling(ctx: Ctx<'_>, ph: Seq<Phone>, i: int, subj: Subj) -> Seq<char> {
    match phone_at(ph, i, 0) {
        None => Seq::empty(),
        Some(p) => spelled(
            ctx.words@,
            match subj {
                Subj::Word => p.word as int,
                Subj::PrevWord => p.word - 1,
                Subj::NextWord => p.word + 1,
            },
        ),
    }
}

fn text(ctx: &Ctx<'_>, ph: &[Phone], i: usize, subj: Subj) -> (r: String)
    ensures
        r@ == spelling(*ctx, ph@, i as int, subj),
{
    let w: u32 = match at(ph, i, 0) {
        Some(p) => p.word,
        None => {
            return String::new();
        },
    };
    let k: u64 = match subj {
        Subj::Word => w as u64,
        Subj::PrevWord => {
            if w == 0 {
                return String::new();
            }
            w as u64 - 1
        },
        Subj::NextWord => w as u64 + 1,
    };
    if k < ctx.words.len() as u64 {
        ctx.words[k as usize].clone()
    } else {
        String::new()
    }
}

/// Whether a spelling compares to a text.
pub open spec fn text_matches(s: Seq<char>, how: Match, lit: Seq<char>) -> bool {
    match how {
        Match::Equals => s == lit,
        Match::Prefix => stands(encode_utf8(s), encode_utf8(lit), 0),
        Match::Suffix(n) => ends_in(encode_utf8(s), n as int, encode_utf8(lit)),
        Match::Contains => exists|k: int| #[trigger] stands(encode_utf8(s), encode_utf8(lit), k),
    }
}

/// Whether one of some texts compares to a spelling.
pub open spec fn one_matches(s: Seq<char>, how: Match, lits: Seq<String>) -> bool {
    exists|k: int| 0 <= k < lits.len() && text_matches(s, how, #[trigger] lits[k]@)
}

/// Whether the last `n` bytes are a text.
pub open spec fn ends_in(b: Seq<u8>, n: int, l: Seq<u8>) -> bool {
    b.len() >= n && b.subrange(b.len() - n, b.len() as int) == l
}

fn matches_text(s: &str, how: Match, lit: &str) -> (r: bool)
    ensures
        r == text_matches(s@, how, lit@),
{
    if let Match::Equals = how {
        return same(s, lit);
    }
    let b: Vec<u8> = bytes_of(s);
    let l: Vec<u8> = bytes_of(lit);
    match how {
        Match::Equals => false,
        Match::Prefix => {
            if l.len() > b.len() {
                return false;
            }
            bytes_equal(vstd::slice::slice_subrange(b.as_slice(), 0, l.len()), l.as_slice())
        },
        Match::Suffix(n) => {
            if b.len() < n as usize {
                return false;
            }
            bytes_equal(
                vstd::slice::slice_subrange(b.as_slice(), b.len() - n as usize, b.len()),
                l.as_slice(),
            )
        },
        Match::Contains => match find_bytes(b.as_slice(), l.as_slice()) {
            Some(k) => {
                assert(stands(b@, l@, k as int));
                true
            },
            None => false,
        },
    }
}

fn bytes_equal(a: &[u8], b: &[u8]) -> (r: bool)
    ensures
        r == (a@ == b@),
{
    if a.len() != b.len() {
        return false;
    }
    let mut i: usize = 0;
    while i < a.len()
        invariant
            i <= a@.len() == b@.len(),
            forall|k: int| 0 <= k < i ==> #[trigger] a@[k] == b@[k],
        decreases a@.len() - i,
    {
        if a[i] != b[i] {
            return false;
        }
        i = i + 1;
    }
    assert(a@ =~= b@);
    true
}

/// Whether two numbers compare so.
pub open spec fn compares(rel: Rel, a: u32, b: u32) -> bool {
    match rel {
        Rel::Eq => a == b,
        Rel::Ne => a != b,
        Rel::Lt => a < b,
        Rel::Le => a <= b,
        Rel::Gt => a > b,
        Rel::Ge => a >= b,
    }
}

fn rel_holds(rel: Rel, a: u32, b: u32) -> (r: bool)
    ensures
        r == compares(rel, a, b),
{
    match rel {
        Rel::Eq => a == b,
        Rel::Ne => a != b,
        Rel::Lt => a < b,
        Rel::Le => a <= b,
        Rel::Gt => a > b,
        Rel::Ge => a >= b,
    }
}

/// The features of a nearby phone; those of phone 1 outside what a rule may
/// look at, and none for a phone that has no features listed.
pub open spec fn features(feats: Seq<u32>, ph: Seq<Phone>, i: int, off: int) -> u32 {
    let code = match phone_at(ph, i, off) {
        Some(p) => p.code as int,
        None => 1,
    };
    if code < feats.len() {
        feats[code]
    } else {
        0
    }
}

/// Whether a test holds.
pub open spec fn passes(c: Cond, ph: Seq<Phone>, i: int, ctx: Ctx<'_>, feats: Seq<u32>) -> bool
    decreases c, 0int,
{
    match c {
        Cond::Code { at, want, codes } => match phone_at(ph, i, at as int) {
            None => false,
            Some(p) => codes@.contains(p.code) == want,
        },
        Cond::SameWord { a, b, want } => match (
            phone_at(ph, i, a as int),
            phone_at(ph, i, b as int),
        ) {
            (Some(x), Some(y)) => (x.word == y.word) == want,
            _ => false,
        },
        Cond::Feat { at, want, mask } => (features(feats, ph, i, at as int) & mask == mask) == want,
        Cond::Text { subj, how, want, lits } => {
            let s = spelling(ctx, ph, i, subj);
            one_matches(s, how, lits@) == want
        },
        Cond::Index { rel, value } => compares(rel, (i % 0x1_0000_0000) as u32, value),
        Cond::Len { rel, value } => compares(
            rel,
            (encode_utf8(spelling(ctx, ph, i, Subj::Word)).len() % 0x1_0000_0000) as u32,
            value,
        ),
        Cond::Unread => false,
        Cond::Absent { subj, want } => (spelling(ctx, ph, i, subj).len() == 0) == want,
        Cond::Any(cs) => any_from(cs@, 0, ph, i, ctx, feats),
        Cond::All(cs) => all_from(cs@, 0, ph, i, ctx, feats),
        Cond::ElemByte { off, want, value } => {
            let w = match phone_at(ph, i, 0) {
                Some(p) => p.word as int,
                None => 0,
            };
            w < ctx.elem12@.len() && (ctx.elem12@[w] == value) == want
        },
    }
}

/// Whether one of the tests from `k` on holds.
pub open spec fn any_from(
    cs: Seq<Cond>,
    k: int,
    ph: Seq<Phone>,
    i: int,
    ctx: Ctx<'_>,
    feats: Seq<u32>,
) -> bool
    decreases cs, cs.len() - k,
{
    0 <= k < cs.len() && (passes(cs[k], ph, i, ctx, feats) || any_from(
        cs,
        k + 1,
        ph,
        i,
        ctx,
        feats,
    ))
}

/// Whether all the tests from `k` on hold.
pub open spec fn all_from(
    cs: Seq<Cond>,
    k: int,
    ph: Seq<Phone>,
    i: int,
    ctx: Ctx<'_>,
    feats: Seq<u32>,
) -> bool
    decreases cs, cs.len() - k,
{
    !(0 <= k < cs.len()) || (passes(cs[k], ph, i, ctx, feats) && all_from(
        cs,
        k + 1,
        ph,
        i,
        ctx,
        feats,
    ))
}

fn has_code(codes: &Vec<u8>, code: u8) -> (r: bool)
    ensures
        r == codes@.contains(code),
{
    let mut i: usize = 0;
    while i < codes.len()
        invariant
            i <= codes@.len(),
            forall|k: int| 0 <= k < i ==> #[trigger] codes@[k] != code,
        decreases codes@.len() - i,
    {
        if codes[i] == code {
            return true;
        }
        i = i + 1;
    }
    false
}

fn some_text(s: &str, how: Match, lits: &Vec<String>) -> (r: bool)
    ensures
        r == one_matches(s@, how, lits@),
{
    let mut i: usize = 0;
    while i < lits.len()
        invariant
            i <= lits@.len(),
            forall|k: int| 0 <= k < i ==> !text_matches(s@, how, #[trigger] lits@[k]@),
        decreases lits@.len() - i,
    {
        if matches_text(s, how, lits[i].as_str()) {
            assert(text_matches(s@, how, lits@[i as int]@));
            return true;
        }
        i = i + 1;
    }
    false
}

/// Whether a test holds.
pub fn holds(c: &Cond, ph: &[Phone], i: usize, ctx: &Ctx<'_>, feats: &[u32]) -> (r: bool)
    ensures
        r == passes(*c, ph@, i as int, *ctx, feats@),
    decreases *c, 0int,
{
    match c {
        Cond::Code { at: off, want, codes } => match at(ph, i, *off) {
            None => false,
            Some(p) => has_code(codes, p.code) == *want,
        },
        Cond::SameWord { a, b, want } => match (at(ph, i, *a), at(ph, i, *b)) {
            (Some(x), Some(y)) => (x.word == y.word) == *want,
            _ => false,
        },
        Cond::Feat { at: off, want, mask } => {
            let code: usize = match at(ph, i, *off) {
                Some(p) => p.code as usize,
                None => 1,
            };
            let feat: u32 = if code < feats.len() {
                feats[code]
            } else {
                0
            };
            (feat & *mask == *mask) == *want
        },
        Cond::Text { subj, how, want, lits } => {
            let s: String = text(ctx, ph, i, *subj);
            some_text(s.as_str(), *how, lits) == *want
        },
        Cond::Index { rel, value } => rel_holds(
            *rel,
            (i as u64 % 0x1_0000_0000) as u32,
            *value,
        ),
        Cond::Len { rel, value } => {
            let s: String = text(ctx, ph, i, Subj::Word);
            let n: usize = bytes_of(s.as_str()).len();
            rel_holds(*rel, (n as u64 % 0x1_0000_0000) as u32, *value)
        },
        Cond::Unread => false,
        Cond::Absent { subj, want } => {
            let s: String = text(ctx, ph, i, *subj);
            (crate::data::chars::chars_of(s.as_str()).len() == 0) == *want
        },
        Cond::Any(cs) => any_holds(cs, 0, ph, i, ctx, feats),
        Cond::All(cs) => all_hold(cs, 0, ph, i, ctx, feats),
        Cond::ElemByte { off: _, want, value } => {
            let w: usize = match at(ph, i, 0) {
                Some(p) => p.word as usize,
                None => 0,
            };
            w < ctx.elem12.len() && (ctx.elem12[w] == *value) == *want
        },
    }
}

fn any_holds(cs: &Vec<Cond>, k: usize, ph: &[Phone], i: usize, ctx: &Ctx<'_>, feats: &[u32]) -> (r:
    bool)
    requires
        k <= cs@.len(),
    ensures
        r == any_from(cs@, k as int, ph@, i as int, *ctx, feats@),
    decreases cs@, cs@.len() - k,
{
    k < cs.len() && (holds(&cs[k], ph, i, ctx, feats) || any_holds(
        cs,
        k + 1,
        ph,
        i,
        ctx,
        feats,
    ))
}

fn all_hold(cs: &Vec<Cond>, k: usize, ph: &[Phone], i: usize, ctx: &Ctx<'_>, feats: &[u32]) -> (r:
    bool)
    requires
        k <= cs@.len(),
    ensures
        r == all_from(cs@, k as int, ph@, i as int, *ctx, feats@),
    decreases cs@, cs@.len() - k,
{
    k >= cs.len() || (holds(&cs[k], ph, i, ctx, feats) && all_hold(
        cs,
        k + 1,
        ph,
        i,
        ctx,
        feats,
    ))
}

/// The first test of a list, from `from` on, that does not hold; their number
/// where all do.
pub open spec fn failing(
    arm: Seq<Cond>,
    ph: Seq<Phone>,
    i: int,
    ctx: Ctx<'_>,
    feats: Seq<u32>,
    from: int,
) -> int
    decreases arm.len() - from,
{
    if from < 0 || from >= arm.len() {
        arm.len() as int
    } else if !passes(arm[from], ph, i, ctx, feats) {
        from
    } else {
        failing(arm, ph, i, ctx, feats, from + 1)
    }
}

fn first_failing(arm: &Vec<Cond>, ph: &[Phone], i: usize, ctx: &Ctx<'_>, feats: &[u32]) -> (r:
    usize)
    ensures
        r == failing(arm@, ph@, i as int, *ctx, feats@, 0),
        r <= arm@.len(),
{
    let mut k: usize = 0;
    while k < arm.len() && holds(&arm[k], ph, i, ctx, feats)
        invariant
            k <= arm@.len(),
            failing(arm@, ph@, i as int, *ctx, feats@, 0) == failing(
                arm@,
                ph@,
                i as int,
                *ctx,
                feats@,
                k as int,
            ),
        decreases arm@.len() - k,
    {
        k = k + 1;
    }
    k
}

/// Whether all tests of a list hold.
pub open spec fn arm_passes(
    arm: Seq<Cond>,
    ph: Seq<Phone>,
    i: int,
    ctx: Ctx<'_>,
    feats: Seq<u32>,
) -> bool {
    failing(arm, ph, i, ctx, feats, 0) == arm.len()
}

/// Whether a rule is for the phone at `i`.
pub open spec fn is_for(r: Rule, ph: Seq<Phone>, i: int) -> bool {
    match phone_at(ph, i, 0) {
        None => false,
        Some(p) => r.phones@.len() == 0 || r.phones@.contains(p.code),
    }
}

/// Whether a rule fires for the phone at `i`.
pub open spec fn rule_fires(
    r: Rule,
    ph: Seq<Phone>,
    i: int,
    ctx: Ctx<'_>,
    feats: Seq<u32>,
) -> bool {
    is_for(r, ph, i) && exists|k: int|
        0 <= k < r.arms@.len() && arm_passes((#[trigger] r.arms@[k])@, ph, i, ctx, feats)
}

fn concerns(r: &Rule, ph: &[Phone], i: usize) -> (b: bool)
    ensures
        b == is_for(*r, ph@, i as int),
{
    match at(ph, i, 0) {
        None => false,
        Some(p) => r.phones.len() == 0 || has_code(&r.phones, p.code),
    }
}

fn fires(r: &Rule, ph: &[Phone], i: usize, ctx: &Ctx<'_>, feats: &[u32]) -> (b: bool)
    ensures
        b == rule_fires(*r, ph@, i as int, *ctx, feats@),
{
    if !concerns(r, ph, i) {
        return false;
    }
    let mut k: usize = 0;
    while k < r.arms.len()
        invariant
            k <= r.arms@.len(),
            is_for(*r, ph@, i as int),
            forall|j: int|
                0 <= j < k ==> !arm_passes(
                    (#[trigger] r.arms@[j])@,
                    ph@,
                    i as int,
                    *ctx,
                    feats@,
                ),
        decreases r.arms@.len() - k,
    {
        if first_failing(&r.arms[k], ph, i, ctx, feats) == r.arms[k].len() {
            assert(arm_passes(r.arms@[k as int]@, ph@, i as int, *ctx, feats@));
            return true;
        }
        k = k + 1;
    }
    false
}

/// The first rule that fires, from `from` on; their number where none does.
pub open spec fn firing(
    rules: Seq<Rule>,
    ph: Seq<Phone>,
    i: int,
    ctx: Ctx<'_>,
    feats: Seq<u32>,
    from: int,
) -> int
    decreases rules.len() - from,
{
    if from < 0 || from >= rules.len() {
        rules.len() as int
    } else if rule_fires(rules[from], ph, i, ctx, feats) {
        from
    } else {
        firing(rules, ph, i, ctx, feats, from + 1)
    }
}

fn first_firing(rules: &Vec<Rule>, ph: &[Phone], i: usize, ctx: &Ctx<'_>, feats: &[u32]) -> (r:
    usize)
    ensures
        r == firing(rules@, ph@, i as int, *ctx, feats@, 0),
        r <= rules@.len(),
{
    let mut k: usize = 0;
    while k < rules.len() && !fires(&rules[k], ph, i, ctx, feats)
        invariant
            k <= rules@.len(),
            firing(rules@, ph@, i as int, *ctx, feats@, 0) == firing(
                rules@,
                ph@,
                i as int,
                *ctx,
                feats@,
                k as int,
            ),
        decreases rules@.len() - k,
    {
        k = k + 1;
    }
    k
}

/// Narrow phones with one written, and blanks before it where there were none.
pub open spec fn put_at(out: Seq<u8>, k: int, code: u8) -> Seq<u8> {
    if k < out.len() {
        out.update(k, code)
    } else {
        (out + Seq::new((k - out.len()) as nat, |n: int| 0u8)).push(code)
    }
}

fn put(out: &mut Vec<u8>, k: usize, code: u8)
    ensures
        final(out)@ == put_at(old(out)@, k as int, code),
{
    let ghost before = out@;
    if k < out.len() {
        out[k] = code;
        return;
    }
    let ghost n0 = out@.len() as int;
    while out.len() < k
        invariant
            n0 == before.len(),
            n0 <= out@.len() <= k,
            out@ == before + Seq::new((out@.len() - n0) as nat, |n: int| 0u8),
        decreases k - out@.len(),
    {
        let ghost so_far = out@;
        out.push(0);
        assert(out@ =~= before + Seq::new((out@.len() - n0) as nat, |n: int| 0u8));
    }
    out.push(code);
}

/// What the first `n` deeds of a rule come to: the index of the last narrow
/// phone, how many more broad phones are taken, and the narrow phones.
pub open spec fn acted(acts: Seq<Act>, n: nat, j: int, out: Seq<u8>) -> (int, int, Seq<u8>)
    decreases n,
{
    if n == 0 {
        (j, 0, out)
    } else {
        let (jj, extra, o) = acted(acts, (n - 1) as nat, j, out);
        match acts[n - 1] {
            Act::Out { rel, code } => (jj, extra, put_at(o, jj + rel, code)),
            Act::BumpJ(k) => (jj + k, extra, o),
            Act::BumpI(k) => (jj, extra + k, o),
            Act::SetI(k) => (jj, k as int, o),
        }
    }
}

/// How far a rule can move, at most.
pub open spec fn span(acts: Seq<Act>) -> int {
    256 * (acts.len() as int + 2)
}

proof fn acted_bounds(acts: Seq<Act>, n: nat, j: int, out: Seq<u8>)
    ensures
        j <= acted(acts, n, j, out).0 <= j + 255 * n,
        0 <= acted(acts, n, j, out).1 <= 255 * n + 255,
        n == 0 ==> acted(acts, n, j, out).1 == 0,
    decreases n,
{
    if n > 0 {
        acted_bounds(acts, (n - 1) as nat, j, out);
    }
}

fn apply(r: &Rule, out: &mut Vec<u8>, j0: usize) -> (b: (usize, usize))
    requires
        j0 + span(r.acts@) <= usize::MAX,
    ensures
        (b.0 as int, b.1 as int, final(out)@) == acted(
            r.acts@,
            r.acts@.len(),
            j0 as int,
            old(out)@,
        ),
        j0 <= b.0 <= j0 + span(r.acts@) - 512,
        b.1 <= span(r.acts@) - 257,
{
    let ghost before = out@;
    let mut j: usize = j0;
    let mut extra: usize = 0;
    let mut k: usize = 0;
    while k < r.acts.len()
        invariant
            k <= r.acts@.len(),
            j0 + span(r.acts@) <= usize::MAX,
            (j as int, extra as int, out@) == acted(r.acts@, k as nat, j0 as int, before),
        decreases r.acts@.len() - k,
    {
        proof {
            acted_bounds(r.acts@, k as nat, j0 as int, before);
        }
        match r.acts[k] {
            Act::Out { rel, code } => {
                put(out, j + rel as usize, code);
            },
            Act::BumpJ(n) => {
                j = j + n as usize;
            },
            Act::BumpI(n) => {
                extra = extra + n as usize;
            },
            Act::SetI(n) => {
                extra = n as usize;
            },
        }
        k = k + 1;
    }
    proof {
        acted_bounds(r.acts@, r.acts@.len(), j0 as int, before);
    }
    (j, extra)
}

/// A phone as every rule sees it: stops are aspirated, and two vowels fold onto
/// their other forms.
pub open spec fn prepared(code: u8) -> u8 {
    match code {
        43 => 44,
        46 => 47,
        49 => 50,
        10 => 85,
        11 => 86,
        _ => code,
    }
}

/// The phones with the one at `i` prepared.
pub open spec fn prepared_at(ph: Seq<Phone>, i: int) -> Seq<Phone> {
    if i < ph.len() {
        ph.update(i, Phone { word: ph[i].word, code: prepared(ph[i].code) })
    } else {
        ph
    }
}

/// The rules of a style, beside those for every style.
pub open spec fn style_rules(t: Tables, style: u32) -> Seq<Rule> {
    if style == 2 {
        t.stage2@
    } else if style == 3 {
        t.stage3@
    } else {
        Seq::empty()
    }
}

/// The rule that fires for the phone at `i`; none where it stays as it is.
pub open spec fn chosen(t: Tables, ph: Seq<Phone>, i: int, ctx: Ctx<'_>) -> Option<Rule> {
    let k = firing(t.stage1@, ph, i, ctx, t.feats@, 0);
    let more = style_rules(t, ctx.style);
    let n = firing(more, ph, i, ctx, t.feats@, 0);
    if k < t.stage1@.len() {
        Some(t.stage1@[k])
    } else if n < more.len() {
        Some(more[n])
    } else {
        None
    }
}

fn pick<'r>(t: &'r Tables, ph: &[Phone], i: usize, ctx: &Ctx<'_>) -> (r: Option<&'r Rule>)
    ensures
        match (r, chosen(*t, ph@, i as int, *ctx)) {
            (Some(x), Some(want)) => *x == want,
            (None, None) => true,
            _ => false,
        },
        r matches Some(x) ==> t.stage1@.contains(*x) || t.stage2@.contains(*x)
            || t.stage3@.contains(*x),
{
    let feats: &[u32] = t.feats.as_slice();
    let k: usize = first_firing(&t.stage1, ph, i, ctx, feats);
    if k < t.stage1.len() {
        assert(t.stage1@[k as int] == t.stage1[k as int]);
        return Some(&t.stage1[k]);
    }
    if ctx.style == 2 {
        let n: usize = first_firing(&t.stage2, ph, i, ctx, feats);
        if n < t.stage2.len() {
            return Some(&t.stage2[n]);
        }
    }
    if ctx.style == 3 {
        let n: usize = first_firing(&t.stage3, ph, i, ctx, feats);
        if n < t.stage3.len() {
            return Some(&t.stage3[n]);
        }
    }
    None
}

/// What one step comes to.
pub struct Stepped {
    /// The phones, with the one that was taken prepared.
    pub ph: Seq<Phone>,
    /// The narrow phones.
    pub out: Seq<u8>,
    /// The next broad phone.
    pub i: int,
    /// The next narrow phone.
    pub j: int,
}

/// What taking the phone at `i` comes to.
pub open spec fn stepped(
    t: Tables,
    ph0: Seq<Phone>,
    i: int,
    j0: int,
    out0: Seq<u8>,
    ctx: Ctx<'_>,
) -> Stepped {
    let ph = prepared_at(ph0, i);
    let p = firing(t.prepass@, ph, i, ctx, t.feats@, 0);
    let (j, out) = if p < t.prepass@.len() {
        let acts = t.prepass@[p].acts@;
        let (last, _, o) = acted(acts, acts.len(), j0, out0);
        (last + 1, o)
    } else {
        (j0, out0)
    };
    match chosen(t, ph, i, ctx) {
        Some(r) => {
            let (last, extra, o) = acted(r.acts@, r.acts@.len(), j, out);
            Stepped { ph, out: o, i: i + extra + 1, j: last + 1 }
        },
        None => Stepped {
            ph,
            out: put_at(
                out,
                j,
                if i < ph.len() {
                    ph[i].code
                } else {
                    0
                },
            ),
            i: i + 1,
            j: j + 1,
        },
    }
}

/// Whether no rule of a list moves further than `m`.
pub open spec fn moves_within(rules: Seq<Rule>, m: int) -> bool {
    forall|k: int| 0 <= k < rules.len() ==> span((#[trigger] rules[k]).acts@) <= m
}

/// Whether no rule moves further than `m`.
pub open spec fn bounded(t: Tables, m: int) -> bool {
    &&& m >= 512
    &&& moves_within(t.prepass@, m)
    &&& moves_within(t.stage1@, m)
    &&& moves_within(t.stage2@, m)
    &&& moves_within(t.stage3@, m)
}

/// Takes the phone at `i`: prepares it, writes narrow phones from `j` on, and
/// returns the next of each.
pub fn step(
    t: &Tables,
    ph: &mut [Phone],
    i: usize,
    j: usize,
    out: &mut Vec<u8>,
    ctx: &Ctx<'_>,
) -> (r: (usize, usize))
    requires
        exists|m: int|
            #[trigger] bounded(*t, m) && i + m <= usize::MAX && j + 2 * m <= usize::MAX,
    ensures
        (Stepped { ph: final(ph)@, out: final(out)@, i: r.0 as int, j: r.1 as int }) == stepped(
            *t,
            old(ph)@,
            i as int,
            j as int,
            old(out)@,
            *ctx,
        ),
        forall|m: int|
            #[trigger] bounded(*t, m) ==> i < r.0 <= i + m && j < r.1 <= j + 2 * m,
{
    let ghost m = choose|m: int|
        #[trigger] bounded(*t, m) && i + m <= usize::MAX && j + 2 * m <= usize::MAX;
    if i < ph.len() {
        let p: Phone = ph[i];
        let code: u8 = match p.code {
            43 => 44,
            46 => 47,
            49 => 50,
            10 => 85,
            11 => 86,
            c => c,
        };
        ph[i] = Phone { word: p.word, code };
    }
    assert(ph@ =~= prepared_at(old(ph)@, i as int));
    let mut jj: usize = j;
    let first: usize = first_firing(&t.prepass, ph, i, ctx, t.feats.as_slice());
    if first < t.prepass.len() {
        let rule: &Rule = &t.prepass[first];
        assert(span(t.prepass@[first as int].acts@) <= m);
        let (last, _) = apply(rule, out, j);
        jj = last + 1;
        assert(jj <= j + span(t.prepass@[first as int].acts@) - 511);
    }
    match pick(t, ph, i, ctx) {
        Some(rule) => {
            assert(span(rule.acts@) <= m) by {
                rule_within(*t, *rule, m);
            }
            let (last, extra) = apply(rule, out, jj);
            proof {
                assert forall|k: int| #[trigger] bounded(*t, k) implies i + extra + 1 <= i + k
                    && last + 1 <= j + 2 * k by {
                    rule_within(*t, *rule, k);
                    if first < t.prepass@.len() {
                        assert(span(t.prepass@[first as int].acts@) <= k);
                    }
                }
            }
            (i + extra + 1, last + 1)
        },
        None => {
            let code: u8 = if i < ph.len() {
                ph[i].code
            } else {
                0
            };
            put(out, jj, code);
            proof {
                assert forall|k: int| #[trigger] bounded(*t, k) implies jj + 1 <= j + 2 * k by {
                    if first < t.prepass@.len() {
                        assert(span(t.prepass@[first as int].acts@) <= k);
                    }
                }
            }
            (i + 1, jj + 1)
        },
    }
}

proof fn rule_within(t: Tables, r: Rule, m: int)
    requires
        bounded(t, m),
        t.stage1@.contains(r) || t.stage2@.contains(r) || t.stage3@.contains(r),
    ensures
        span(r.acts@) <= m,
{
    if t.stage1@.contains(r) {
        let k = choose|k: int| 0 <= k < t.stage1@.len() && t.stage1@[k] == r;
        assert(span(t.stage1@[k].acts@) <= m);
    } else if t.stage2@.contains(r) {
        let k = choose|k: int| 0 <= k < t.stage2@.len() && t.stage2@[k] == r;
        assert(span(t.stage2@[k].acts@) <= m);
    } else {
        let k = choose|k: int| 0 <= k < t.stage3@.len() && t.stage3@[k] == r;
        assert(span(t.stage3@[k].acts@) <= m);
    }
}

/// What taking all phones from `i` on comes to.
pub open spec fn narrowed(
    t: Tables,
    ph: Seq<Phone>,
    i: int,
    j: int,
    out: Seq<u8>,
    ctx: Ctx<'_>,
) -> (Seq<Phone>, Seq<u8>)
    decreases
            (if i < ph.len() {
                ph.len() - i
            } else {
                0
            }),
{
    if i < 0 || i >= ph.len() {
        (ph, out)
    } else {
        let s = stepped(t, ph, i, j, out, ctx);
        if s.i > i && s.ph.len() == ph.len() {
            narrowed(t, s.ph, s.i, s.j, s.out, ctx)
        } else {
            (s.ph, s.out)
        }
    }
}

/// Rewrites a whole phrase.
pub fn narrow(t: &Tables, ph: &mut [Phone], ctx: &Ctx<'_>) -> (r: Vec<u8>)
    requires
        exists|m: int|
            #[trigger] bounded(*t, m) && (old(ph)@.len() + 1) * (2 * m) <= usize::MAX,
    ensures
        (final(ph)@, r@) == narrowed(*t, old(ph)@, 0, 0, Seq::empty(), *ctx),
{
    let ghost n = ph@.len() as int;
    let ghost m = choose|m: int| #[trigger] bounded(*t, m) && (n + 1) * (2 * m) <= usize::MAX;
    let mut out: Vec<u8> = Vec::new();
    let mut i: usize = 0;
    let mut j: usize = 0;
    let ghost mut steps: int = 0;
    while i < ph.len()
        invariant
            ph@.len() == n,
            bounded(*t, m),
            m >= 512,
            (n + 1) * (2 * m) <= usize::MAX,
            0 <= steps <= i,
            j <= steps * (2 * m),
            narrowed(*t, old(ph)@, 0, 0, Seq::empty(), *ctx) == narrowed(
                *t,
                ph@,
                i as int,
                j as int,
                out@,
                *ctx,
            ),
        decreases
            (if i < n {
                n - i
            } else {
                0
            }),
    {
        proof {
            assert((steps + 1) * (2 * m) == steps * (2 * m) + 2 * m && (steps + 1) * (2 * m) <= (n
                + 1) * (2 * m) && n + m <= (n + 1) * (2 * m)) by (nonlinear_arith)
                requires
                    0 <= steps < n,
                    m >= 512,
            ;
        }
        let (ni, nj) = step(t, ph, i, j, &mut out, ctx);
        i = ni;
        j = nj;
        proof {
            steps = steps + 1;
        }
    }
    out
}

/// Which rule fires for the phone at `i`; none where it stays as it is.
pub fn which(t: &Tables, ph: &[Phone], i: usize, ctx: &Ctx<'_>) -> (r: Option<u32>)
    ensures
        r == match chosen(*t, ph@, i as int, *ctx) {
            Some(x) => Some(x.at),
            None => None,
        },
{
    match pick(t, ph, i, ctx) {
        Some(x) => Some(x.at),
        None => None,
    }
}

/// What a phone that stays as it is is known by.
pub const IDENTITY: u32 = 0x316C0;

/// What the effect on the phone at `i` is known by.
pub fn store_of(t: &Tables, ph: &[Phone], i: usize, ctx: &Ctx<'_>) -> (r: u32)
    ensures
        r == match chosen(*t, ph@, i as int, *ctx) {
            Some(x) => x.store,
            None => 0x316C0u32,
        },
{
    match pick(t, ph, i, ctx) {
        Some(x) => x.store,
        None => IDENTITY,
    }
}

/// How near a list of tests came: which it is, and its first test that does not
/// hold; none where all do.
pub type Near = (usize, Option<usize>);

/// How far a list came, as a number: further than any where all tests hold.
pub open spec fn reach(n: (int, Option<int>), most: int) -> int {
    match n.1 {
        Some(k) => k,
        None => most,
    }
}

/// How near list `k` of a rule came.
pub open spec fn arm_near(
    r: Rule,
    k: int,
    ph: Seq<Phone>,
    i: int,
    ctx: Ctx<'_>,
    feats: Seq<u32>,
) -> (int, Option<int>) {
    let arm = r.arms@[k]@;
    let p = failing(arm, ph, i, ctx, feats, 0);
    (
        k,
        if p < arm.len() {
            Some(p)
        } else {
            None
        },
    )
}

/// Of the first `n` lists, the one that came furthest; the last of several.
pub open spec fn nearest(
    r: Rule,
    n: nat,
    ph: Seq<Phone>,
    i: int,
    ctx: Ctx<'_>,
    feats: Seq<u32>,
) -> Option<(int, Option<int>)>
    decreases n,
{
    if n == 0 {
        None
    } else {
        let last = arm_near(r, n - 1, ph, i, ctx, feats);
        match nearest(r, (n - 1) as nat, ph, i, ctx, feats) {
            Some(best) => if reach(last, usize::MAX as int) >= reach(best, usize::MAX as int) {
                Some(last)
            } else {
                Some(best)
            },
            None => Some(last),
        }
    }
}

/// Whether a rule writes a code where the next narrow phone is.
pub open spec fn writes(r: Rule, code: u8) -> bool {
    r.acts@.contains(Act::Out { rel: 0, code })
}

/// What kept a rule from firing: the list that came furthest and its first test
/// that does not hold; none where it fires, or has no list.
pub open spec fn blocked(
    r: Rule,
    ph: Seq<Phone>,
    i: int,
    ctx: Ctx<'_>,
    feats: Seq<u32>,
) -> Option<(int, int)> {
    match nearest(r, r.arms@.len(), ph, i, ctx, feats) {
        Some((k, Some(p))) => Some((k, p)),
        _ => None,
    }
}

/// What kept each of the first `n` rules of a stage from firing, of those that
/// could have written `want`.
pub open spec fn blocked_in(
    rules: Seq<Rule>,
    n: nat,
    ph: Seq<Phone>,
    i: int,
    ctx: Ctx<'_>,
    feats: Seq<u32>,
    want: u8,
    stage: u8,
) -> Seq<(u32, Option<(int, int)>, u8)>
    decreases n,
{
    if n == 0 {
        Seq::empty()
    } else {
        let before = blocked_in(rules, (n - 1) as nat, ph, i, ctx, feats, want, stage);
        let r = rules[n - 1];
        if writes(r, want) && is_for(r, ph, i) {
            before.push((r.at, blocked(r, ph, i, ctx, feats), stage))
        } else {
            before
        }
    }
}

/// What kept a rule from firing.
#[derive(Clone, Copy, Debug, PartialEq, Eq)]
pub struct Blocker {
    /// The rule.
    pub at: u32,
    /// The list that came furthest, and its first test that does not hold; none
    /// where it fires.
    pub test: Option<(usize, usize)>,
    /// The stage of the rule.
    pub stage: u8,
}

/// Blockers as mathematics.
pub open spec fn blocking(v: Seq<Blocker>) -> Seq<(u32, Option<(int, int)>, u8)> {
    v.map_values(
        |b: Blocker|
            (
                b.at,
                match b.test {
                    Some((k, p)) => Some((k as int, p as int)),
                    None => None,
                },
                b.stage,
            ),
    )
}

fn writes_code(r: &Rule, code: u8) -> (b: bool)
    ensures
        b == writes(*r, code),
{
    let mut k: usize = 0;
    while k < r.acts.len()
        invariant
            k <= r.acts@.len(),
            forall|n: int| 0 <= n < k ==> #[trigger] r.acts@[n] != (Act::Out { rel: 0, code }),
        decreases r.acts@.len() - k,
    {
        if let Act::Out { rel, code: x } = r.acts[k] {
            if rel == 0 && x == code {
                assert(r.acts@[k as int] == (Act::Out { rel: 0, code }));
                return true;
            }
        }
        k = k + 1;
    }
    false
}

fn blocker_of(r: &Rule, ph: &[Phone], i: usize, ctx: &Ctx<'_>, feats: &[u32]) -> (b: Option<
    (usize, usize),
>)
    ensures
        match (b, blocked(*r, ph@, i as int, *ctx, feats@)) {
            (Some((k, p)), Some(want)) => k == want.0 && p == want.1,
            (None, None) => true,
            _ => false,
        },
{
    let mut best: Option<Near> = None;
    let mut k: usize = 0;
    while k < r.arms.len()
        invariant
            k <= r.arms@.len(),
            match (best, nearest(*r, k as nat, ph@, i as int, *ctx, feats@)) {
                (Some((x, Some(p))), Some((y, Some(q)))) => x == y && p == q,
                (Some((x, None)), Some((y, None))) => x == y,
                (None, None) => true,
                _ => false,
            },
        decreases r.arms@.len() - k,
    {
        let n: usize = r.arms[k].len();
        let p: usize = first_failing(&r.arms[k], ph, i, ctx, feats);
        let mine: usize = if p < n {
            p
        } else {
            usize::MAX
        };
        let theirs: usize = match best {
            Some((_, Some(q))) => q,
            Some((_, None)) => usize::MAX,
            None => 0,
        };
        if mine >= theirs {
            best = Some(
                (
                    k,
                    if p < n {
                        Some(p)
                    } else {
                        None
                    },
                ),
            );
        }
        k = k + 1;
    }
    match best {
        Some((k, Some(p))) => Some((k, p)),
        _ => None,
    }
}

fn push_blockers(
    out: &mut Vec<Blocker>,
    rules: &Vec<Rule>,
    ph: &[Phone],
    i: usize,
    ctx: &Ctx<'_>,
    feats: &[u32],
    want: u8,
    stage: u8,
)
    ensures
        blocking(final(out)@) == blocking(old(out)@) + blocked_in(
            rules@,
            rules@.len(),
            ph@,
            i as int,
            *ctx,
            feats@,
            want,
            stage,
        ),
{
    let ghost before = blocking(out@);
    let mut k: usize = 0;
    assert(before + Seq::empty() =~= before);
    while k < rules.len()
        invariant
            k <= rules@.len(),
            blocking(out@) == before + blocked_in(
                rules@,
                k as nat,
                ph@,
                i as int,
                *ctx,
                feats@,
                want,
                stage,
            ),
        decreases rules@.len() - k,
    {
        let r: &Rule = &rules[k];
        if writes_code(r, want) && concerns(r, ph, i) {
            let ghost so_far = blocking(out@);
            let b = Blocker { at: r.at, test: blocker_of(r, ph, i, ctx, feats), stage };
            out.push(b);
            let ghost v = blocked(*r, ph@, i as int, *ctx, feats@);
            assert(blocking(out@) =~= so_far.push((r.at, v, stage)));
            assert(blocking(out@) =~= before + blocked_in(
                rules@,
                (k + 1) as nat,
                ph@,
                i as int,
                *ctx,
                feats@,
                want,
                stage,
            ));
        }
        k = k + 1;
    }
}

/// Every rule that could have written `want` for the phone at `i`, and what
/// kept it from firing.
pub fn blockers(t: &Tables, ph: &[Phone], i: usize, ctx: &Ctx<'_>, want: u8) -> (r: Vec<Blocker>)
    ensures
        blocking(r@) == blocked_in(
            t.stage1@,
            t.stage1@.len(),
            ph@,
            i as int,
            *ctx,
            t.feats@,
            want,
            1,
        ) + blocked_in(t.stage2@, t.stage2@.len(), ph@, i as int, *ctx, t.feats@, want, 2)
            + blocked_in(t.stage3@, t.stage3@.len(), ph@, i as int, *ctx, t.feats@, want, 3),
{
    let feats: &[u32] = t.feats.as_slice();
    let mut out: Vec<Blocker> = Vec::new();
    assert(blocking(out@) =~= Seq::empty());
    push_blockers(&mut out, &t.stage1, ph, i, ctx, feats, want, 1);
    push_blockers(&mut out, &t.stage2, ph, i, ctx, feats, want, 2);
    push_blockers(&mut out, &t.stage3, ph, i, ctx, feats, want, 3);
    out
}

/// The first rule known by `at`, from `from` on; their number where there is
/// none.
pub open spec fn known_by(rules: Seq<Rule>, at: u32, from: int) -> int
    decreases rules.len() - from,
{
    if from < 0 || from >= rules.len() {
        rules.len() as int
    } else if rules[from].at == at {
        from
    } else {
        known_by(rules, at, from + 1)
    }
}

/// A test of a rule that was looked up.
pub enum Described<'a> {
    /// There is no such rule.
    UnknownRule,
    /// The rule has no such test.
    NoTest,
    /// The test.
    Test(&'a Cond),
}

/// Test `k` of list `arm` of the rule known by `at`, in a stage.
pub open spec fn test_of<'a>(rules: Seq<Rule>, at: u32, arm: int, k: int) -> Described<'a> {
    let n = known_by(rules, at, 0);
    if n >= rules.len() {
        Described::UnknownRule
    } else if arm < rules[n].arms@.len() && k < rules[n].arms@[arm]@.len() {
        Described::Test(&rules[n].arms@[arm]@[k])
    } else {
        Described::NoTest
    }
}

fn describe_in<'a>(rules: &'a Vec<Rule>, at: u32, arm: usize, k: usize) -> (r: Described<'a>)
    ensures
        r == test_of(rules@, at, arm as int, k as int),
{
    let mut n: usize = 0;
    while n < rules.len()
        invariant
            n <= rules@.len(),
            known_by(rules@, at, 0) == known_by(rules@, at, n as int),
        decreases rules@.len() - n,
    {
        if rules[n].at == at {
            if arm < rules[n].arms.len() && k < rules[n].arms[arm].len() {
                return Described::Test(&rules[n].arms[arm][k]);
            }
            return Described::NoTest;
        }
        n = n + 1;
    }
    Described::UnknownRule
}

/// Looks up test `k` of list `arm` of the rule known by `at`.
pub fn describe<'a>(t: &'a Tables, at: u32, arm: usize, k: usize) -> (r: Described<'a>)
    ensures
        r == ({
            let (a, b, c) = (
                test_of(t.stage1@, at, arm as int, k as int),
                test_of(t.stage2@, at, arm as int, k as int),
                test_of(t.stage3@, at, arm as int, k as int),
            );
            if !(a is UnknownRule) {
                a
            } else if !(b is UnknownRule) {
                b
            } else {
                c
            }
        }),
{
    let a: Described<'a> = describe_in(&t.stage1, at, arm, k);
    if let Described::UnknownRule = a {
        let b: Described<'a> = describe_in(&t.stage2, at, arm, k);
        if let Described::UnknownRule = b {
            return describe_in(&t.stage3, at, arm, k);
        }
        return b;
    }
    a
}

/// What is said of a test that was looked up, where `test` is how it is
/// spelled.
pub open spec fn described_as(d: Described<'_>, test: Seq<char>) -> Seq<char> {
    match d {
        Described::UnknownRule => "<unknown rule>"@,
        Described::NoTest => "<none>"@,
        Described::Test(_) => test,
    }
}

/// Says of a test that was looked up what it is, given how it is spelled.
pub fn spell(d: &Described<'_>, test: &str) -> (r: String)
    ensures
        r@ == described_as(*d, test@),
{
    match d {
        Described::UnknownRule => "<unknown rule>".to_owned(),
        Described::NoTest => "<none>".to_owned(),
        Described::Test(_) => test.to_owned(),
    }
}

/// A test that looks before the first phone, or past what a rule may look at,
/// fails whichever way it runs.
pub proof fn looking_outside_fails(
    ph: Seq<Phone>,
    i: int,
    ctx: Ctx<'_>,
    feats: Seq<u32>,
    at: i16,
    want: bool,
    codes: Vec<u8>,
)
    requires
        0 <= i <= 0x3ff,
        i + at < 0 || i + at > 0x3ff,
    ensures
        !passes(Cond::Code { at, want, codes }, ph, i, ctx, feats),
{
}

/// Where no rule fires, a phone stays as it is, and the next of each is taken.
pub proof fn unmatched_phones_stay(
    t: Tables,
    ph: Seq<Phone>,
    i: int,
    j: int,
    out: Seq<u8>,
    ctx: Ctx<'_>,
)
    requires
        0 <= i < ph.len(),
        j == out.len(),
        chosen(t, prepared_at(ph, i), i, ctx) is None,
        firing(t.prepass@, prepared_at(ph, i), i, ctx, t.feats@, 0) >= t.prepass@.len(),
    ensures
        stepped(t, ph, i, j, out, ctx).out == out.push(prepared(ph[i].code)),
        stepped(t, ph, i, j, out, ctx).i == i + 1,
        stepped(t, ph, i, j, out, ctx).j == j + 1,
{
    assert(stepped(t, ph, i, j, out, ctx).out =~= out.push(prepared(ph[i].code)));
}

/// A phrase is always taken to its end: every step moves on, and no phone is
/// added or lost.
pub proof fn steps_move_on(
    t: Tables,
    ph: Seq<Phone>,
    i: int,
    j: int,
    out: Seq<u8>,
    ctx: Ctx<'_>,
)
    requires
        0 <= i,
    ensures
        stepped(t, ph, i, j, out, ctx).i > i,
        stepped(t, ph, i, j, out, ctx).j > j,
        stepped(t, ph, i, j, out, ctx).ph.len() == ph.len(),
{
    let p = firing(t.prepass@, prepared_at(ph, i), i, ctx, t.feats@, 0);
    if p < t.prepass@.len() {
        let acts = t.prepass@[p].acts@;
        acted_bounds(acts, acts.len(), j, out);
    }
    if let Some(r) = chosen(t, prepared_at(ph, i), i, ctx) {
        let (j1, out1) = if p < t.prepass@.len() {
            let acts = t.prepass@[p].acts@;
            let (last, _, o) = acted(acts, acts.len(), j, out);
            (last + 1, o)
        } else {
            (j, out)
        };
        acted_bounds(r.acts@, r.acts@.len(), j1, out1);
    }
}

} // verus!
