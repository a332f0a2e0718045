use loqng::codec::math::{spx_sqrt, trunc16};

#[test]
fn non_positive_input_is_zero() {
    assert_eq!(spx_sqrt(0), 0);
    assert_eq!(spx_sqrt(-1), 0);
    assert_eq!(spx_sqrt(i32::MIN), 0);
}

#[test]
fn it_tracks_sqrt_up_to_a_constant_factor() {
    let mut ratios = Vec::new();
    for x in [10_000i32, 1_000_000, 4_000_000, 100_000_000] {
        let got = spx_sqrt(x) as f64;
        assert!(got > 0.0, "sqrt({x}) returned {got}");
        ratios.push(got / (x as f64).sqrt());
    }
    let first = ratios[0];
    for r in &ratios {
        assert!(
            (r - first).abs() / first < 0.05,
            "scaling is not constant: {ratios:?}"
        );
    }
}

#[test]
fn it_is_monotonic_over_a_wide_range() {
    let mut prev = 0;
    let mut x = 1i32;
    while x < 0x4000_0000 {
        let v = spx_sqrt(x);
        assert!(v >= prev, "dropped at {x}: {v} < {prev}");
        prev = v;
        x = x.saturating_mul(3) / 2 + 1;
    }
}

#[test]
fn it_never_panics_on_extremes() {
    for x in [
        1,
        0xfff,
        0x1000,
        0x3fff,
        0x4000,
        0x7fff,
        0x8000,
        0x3ffff,
        0x40000,
        0xfffff,
        0x100000,
        0xffffff,
        0x1000000,
        i32::MAX,
    ] {
        let _ = spx_sqrt(x);
    }
}

#[test]
fn the_horner_chain_narrows_at_each_step() {
    assert_eq!(trunc16(0x1_0000), 0);
    assert_eq!(trunc16(0x0_8000), -32768);
    assert_eq!(trunc16(-0x1_0001), -1);
}
