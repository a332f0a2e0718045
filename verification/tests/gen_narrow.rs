use loqng::gen::narrow::{holds, Ctx, Phone};
use loqng::gen::rules::Cond;

fn phrase(words: &[(&str, &[u8])]) -> (Vec<Phone>, Vec<String>) {
    let mut ph = Vec::new();
    let mut ws = Vec::new();
    for (w, codes) in words {
        let idx = ws.len() as u32;
        ws.push((*w).to_string());
        for &c in *codes {
            ph.push(Phone { word: idx, code: c });
        }
    }
    (ph, ws)
}

#[test]
fn a_rule_that_looks_back_cannot_fire_at_index_zero() {
    let (ph, words) = phrase(&[("testing", &[0x2f, 0x55])]);
    let elem = vec![0u8; words.len()];
    let ctx = Ctx {
        words: &words,
        elem12: &elem,
        style: 3,
    };
    let c = Cond::Code {
        at: -1,
        want: true,
        codes: vec![0x45],
    };
    assert!(!holds(&c, &ph, 0, &ctx, &[]));
    let c = Cond::Code {
        at: -1,
        want: false,
        codes: vec![0x45],
    };
    assert!(!holds(&c, &ph, 0, &ctx, &[]));
}
