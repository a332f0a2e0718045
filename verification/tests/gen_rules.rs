use loqng::gen::blocks::Blocks;
use loqng::gen::exact::{literals, Phrase};
use loqng::gen::narrow::{
    blockers, describe, holds, narrow, spell, step, store_of, which, Blocker, Ctx, Described, Phone,
    IDENTITY,
};
use loqng::gen::rules::{Act, Cond, Match, Rel, Rule, Subj, Tables};

fn phones(v: &[(u32, u8)]) -> Vec<Phone> {
    v.iter().map(|&(word, code)| Phone { word, code }).collect()
}

fn words(v: &[&str]) -> Vec<String> {
    v.iter().map(|w| w.to_string()).collect()
}

fn code(at: i16, c: u8) -> Cond {
    Cond::Code { at, want: true, codes: vec![c] }
}

fn rule(at: u32, phone: u8, tests: Vec<Cond>, acts: Vec<Act>) -> Rule {
    Rule { at, store: at + 1, phones: vec![phone], arms: vec![tests], acts }
}

fn tables(stage1: Vec<Rule>) -> Tables {
    Tables {
        prepass: Vec::new(),
        stage1,
        stage2: Vec::new(),
        stage3: Vec::new(),
        feats: vec![0, 0, 0b11, 0b01],
    }
}

fn out(c: u8) -> Act {
    Act::Out { rel: 0, code: c }
}

#[test]
fn phones_that_no_rule_is_for_stay_but_for_aspiration() {
    let ws = words(&["a"]);
    let ctx = Ctx { words: &ws, elem12: &[0], style: 3 };
    let mut ph = phones(&[(0, 43), (0, 46), (0, 49), (0, 10), (0, 11), (0, 7)]);
    assert_eq!(narrow(&tables(Vec::new()), &mut ph, &ctx), vec![44, 47, 50, 85, 86, 7]);
    assert_eq!(ph[0].code, 44);
}

#[test]
fn the_first_rule_that_fires_decides() {
    let ws = words(&["a"]);
    let ctx = Ctx { words: &ws, elem12: &[0], style: 1 };
    let t = tables(vec![
        rule(100, 7, vec![code(1, 8)], vec![out(70)]),
        rule(200, 7, vec![], vec![out(71)]),
    ]);
    let mut ph = phones(&[(0, 7), (0, 8), (0, 7)]);
    assert_eq!(which(&t, &ph, 0, &ctx), Some(100));
    assert_eq!(which(&t, &ph, 2, &ctx), Some(200));
    assert_eq!(which(&t, &ph, 1, &ctx), None);
    assert_eq!(store_of(&t, &ph, 0, &ctx), 101);
    assert_eq!(store_of(&t, &ph, 1, &ctx), IDENTITY);
    assert_eq!(narrow(&t, &mut ph, &ctx), vec![70, 8, 71]);
}

#[test]
fn later_stages_are_for_their_styles() {
    let ws = words(&["a"]);
    let mut t = tables(Vec::new());
    t.stage2.push(rule(2, 7, vec![], vec![out(72)]));
    t.stage3.push(rule(3, 7, vec![], vec![out(73)]));
    for (style, want) in [(1, 7), (2, 72), (3, 73)] {
        let ctx = Ctx { words: &ws, elem12: &[0], style };
        assert_eq!(narrow(&t, &mut phones(&[(0, 7)]), &ctx), vec![want]);
    }
}

#[test]
fn acts_write_and_move_on() {
    let ws = words(&["a"]);
    let ctx = Ctx { words: &ws, elem12: &[0], style: 1 };
    let acts = vec![out(1), Act::BumpJ(1), out(2), Act::BumpI(1)];
    let t = tables(vec![rule(1, 7, vec![], acts)]);
    let mut ph = phones(&[(0, 7), (0, 8), (0, 9)]);
    let mut o = Vec::new();
    assert_eq!(step(&t, &mut ph, 0, 0, &mut o, &ctx), (2, 2));
    assert_eq!(o, vec![1, 2]);
    assert_eq!(narrow(&t, &mut ph, &ctx), vec![1, 2, 9]);
    let acts = vec![Act::Out { rel: 2, code: 5 }, Act::SetI(2), Act::BumpI(1)];
    let t = tables(vec![rule(1, 7, vec![], acts)]);
    let mut o = Vec::new();
    assert_eq!(step(&t, &mut ph, 0, 1, &mut o, &ctx), (4, 2));
    assert_eq!(o, vec![0, 0, 0, 5]);
}

#[test]
fn a_glide_comes_before_the_rule() {
    let ws = words(&["a"]);
    let ctx = Ctx { words: &ws, elem12: &[0], style: 1 };
    let mut t = tables(vec![rule(1, 7, vec![], vec![out(70)])]);
    t.prepass.push(rule(9, 7, vec![], vec![out(99)]));
    assert_eq!(narrow(&t, &mut phones(&[(0, 7), (0, 8)]), &ctx), vec![99, 70, 8]);
}

#[test]
fn tests_look_at_phones_words_and_flags() {
    let ws = words(&["test", "on", ""]);
    let ctx = Ctx { words: &ws, elem12: &[4, 5], style: 1 };
    let feats = [0u32, 0, 0b11, 0b01];
    let ph = phones(&[(0, 2), (1, 3), (2, 2)]);
    let h = |c: Cond, i: usize| holds(&c, &ph, i, &ctx, &feats);
    assert!(h(Cond::SameWord { a: 0, b: 1, want: false }, 0));
    assert!(!h(Cond::SameWord { a: -1, b: 0, want: false }, 0));
    assert!(h(Cond::Feat { at: 0, want: true, mask: 0b11 }, 0));
    assert!(!h(Cond::Feat { at: 1, want: true, mask: 0b11 }, 0));
    assert!(h(Cond::Feat { at: -1, want: false, mask: 1 }, 0));
    let text = |subj, how, lit: &str| Cond::Text {
        subj,
        how,
        want: true,
        lits: vec![lit.to_string()],
    };
    assert!(h(text(Subj::Word, Match::Equals, "test"), 0));
    assert!(h(text(Subj::NextWord, Match::Prefix, "o"), 0));
    assert!(h(text(Subj::PrevWord, Match::Suffix(2), "st"), 1));
    assert!(!h(text(Subj::Word, Match::Suffix(3), "on"), 1));
    assert!(h(text(Subj::Word, Match::Contains, "es"), 0));
    assert!(h(text(Subj::PrevWord, Match::Equals, ""), 0));
    assert!(h(Cond::Absent { subj: Subj::Word, want: true }, 2));
    assert!(h(Cond::Len { rel: Rel::Eq, value: 4 }, 0));
    assert!(h(Cond::Index { rel: Rel::Ge, value: 1 }, 1));
    assert!(h(Cond::Index { rel: Rel::Lt, value: 1 }, 0));
    assert!(h(Cond::Index { rel: Rel::Le, value: 0 }, 0));
    assert!(h(Cond::Index { rel: Rel::Ne, value: 1 }, 0));
    assert!(!h(Cond::Index { rel: Rel::Gt, value: 0 }, 0));
    assert!(h(Cond::ElemByte { off: 0x12, want: true, value: 5 }, 1));
    assert!(!h(Cond::ElemByte { off: 0x12, want: false, value: 5 }, 2));
    assert!(!h(Cond::Unread, 0));
    assert!(h(Cond::Any(vec![Cond::Unread, code(0, 2)]), 0));
    assert!(!h(Cond::All(vec![Cond::Unread, code(0, 2)]), 0));
    assert!(h(Cond::All(Vec::new()), 0));
    assert!(!h(Cond::Any(Vec::new()), 0));
}

#[test]
fn blockers_name_the_test_that_failed() {
    let ws = words(&["a"]);
    let ctx = Ctx { words: &ws, elem12: &[0], style: 1 };
    let mut r = rule(100, 7, vec![code(1, 9)], vec![out(70)]);
    r.arms.push(vec![code(1, 8), Cond::Unread]);
    let mut t = tables(vec![r, rule(200, 7, vec![], vec![out(71)])]);
    t.stage3.push(rule(300, 7, vec![], vec![out(70)]));
    let ph = phones(&[(0, 7), (0, 8)]);
    assert_eq!(
        blockers(&t, &ph, 0, &ctx, 70),
        vec![
            Blocker { at: 100, test: Some((1, 1)), stage: 1 },
            Blocker { at: 300, test: None, stage: 3 },
        ]
    );
    assert!(matches!(describe(&t, 100, 1, 1), Described::Test(Cond::Unread)));
    assert!(matches!(describe(&t, 100, 1, 2), Described::NoTest));
    assert!(matches!(describe(&t, 101, 0, 0), Described::UnknownRule));
    assert_eq!(spell(&describe(&t, 100, 1, 1), "Unread"), "Unread");
    assert_eq!(spell(&describe(&t, 100, 1, 2), "Unread"), "<none>");
    assert_eq!(spell(&describe(&t, 101, 0, 0), "Unread"), "<unknown rule>");
}

const IMAGE: &[u8] = b"ing\0ed\0\x01x\0ed\0";

#[test]
fn literals_are_sorted_and_told_once() {
    let image: Vec<(u32, &'static [u8])> = vec![(0x100, IMAGE), (0x200, b"a b\0z")];
    assert_eq!(literals(&image), vec!["ed", "ing", "z"]);
}

#[test]
fn a_phrase_is_laid_out_for_the_routine() {
    let image: Vec<(u32, &'static [u8])> = vec![(0x100, IMAGE)];
    let ph = phones(&[(0, 0x2f), (1, 0x55)]);
    let ws = words(&["he", "is"]);
    let mut p = Phrase::new(&image, &ph, &ws, &[0, 7]).unwrap();
    let args = p.next_call().unwrap();
    let ctx = args[0];
    assert_eq!(&args[1..3], &[0, 0]);
    assert_eq!(p.m.r32(p.sp()), p.m.r32(ctx + 0x10));
    let broad = p.m.r32(ctx + 0x10);
    assert_eq!((p.m.r32(broad), p.m.r8(broad + 4)), (0, 0x2f));
    assert_eq!((p.m.r32(broad + 8), p.m.r8(broad + 12)), (1, 0x55));
    let phrase = p.m.r32(ctx + 0x28);
    assert_eq!(p.m.r32(phrase + 4), 2);
    let elems = p.m.r32(ctx + 0x2c);
    let s = p.m.r32(elems + 20 + 4);
    assert_eq!(p.m.read(s, 3), b"is\0");
    assert_eq!(p.m.r8(elems + 20 + 0x12), 7);
    let cfg = p.m.r32(ctx + 0x40);
    assert_eq!(p.m.r32(cfg + 0x30c), 3);
    let narrow_phones = p.m.r32(ctx + 4);
    p.m.w8(narrow_phones + 6, 0x11);
    p.m.w8(narrow_phones + 16 + 6, 0x22);
    p.m.w32(args[3], 2);
    assert!(p.returned(2));
    assert!(p.next_call().is_none());
    assert_eq!(p.codes(), Some(vec![0x11, 0x22]));
    assert_eq!(p.owner, vec![0, 0]);
    let clash: Vec<(u32, &'static [u8])> = vec![(0x2000_0000, IMAGE)];
    assert!(Phrase::new(&clash, &ph, &ws, &[]).is_none());
}

#[test]
fn entered_blocks_are_counted() {
    let mut b = Blocks::new(vec![0x10, 0x20, 0x30]);
    b.hit(0x20);
    b.hit(0x20);
    b.hit(0x30);
    b.hit(0x25);
    assert_eq!(b.coverage(), vec![(0x10, 0), (0x20, 2), (0x30, 1)]);
}
