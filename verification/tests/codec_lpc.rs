use loqng::codec::lpc::{lsp_to_lpc, mult16_16_p13, saturate_ak, spx_cos};

#[test]
fn cos_is_plus_one_at_zero_and_minus_one_at_pi() {
    assert_eq!(spx_cos(0), 8192);
    assert_eq!(spx_cos(25736), -8192);
}

#[test]
fn cos_is_near_zero_at_the_quarter_turn() {
    assert!(spx_cos(12868).abs() < 64, "{}", spx_cos(12868));
}

#[test]
fn cos_descends_across_the_first_quadrant() {
    let mut prev = spx_cos(0);
    for a in (0..12868).step_by(97) {
        let v = spx_cos(a as i16);
        assert!(v <= prev + 1, "not monotonic at {a}: {prev} -> {v}");
        prev = v;
    }
}

#[test]
fn a_short_output_is_left_alone_rather_than_panicking() {
    let freq: Vec<i16> = (0..10).map(|i| 2000 + i * 2000).collect();
    let mut ak = [0i16; 3];
    lsp_to_lpc(&freq, &mut ak, 10);
    assert!(ak.iter().any(|v| *v != 0));
}

#[test]
fn coefficients_below_the_magnitude_limit_wrap_instead_of_clamping() {
    assert_eq!(saturate_ak(0), 0);
    assert_eq!(saturate_ak(32767), 32767);
    assert_eq!(saturate_ak(40000), 40000u16 as i16);
    assert_eq!(saturate_ak(40000), -25536);
    assert_eq!(saturate_ak(65535), -1);
    assert_eq!(saturate_ak(-40000), (-40000i32) as i16);
}

#[test]
fn only_a_magnitude_of_65536_or_more_saturates() {
    assert_eq!(saturate_ak(65536), 32767);
    assert_eq!(saturate_ak(-65536), -32767);
    assert_eq!(saturate_ak(i32::MAX), 32767);
    assert_eq!(saturate_ak(i32::MIN), -32767);
}

#[test]
fn the_p13_multiply_keeps_operands_wider_than_sixteen_bits() {
    let wide = 40000i32;
    assert_eq!(mult16_16_p13(wide, wide), (4096 + wide * wide) >> 13);
    let truncated = wide as i16 as i32;
    assert_ne!(mult16_16_p13(wide, 3), (4096 + truncated * 3) >> 13);
}

#[test]
fn a_zero_order_call_writes_nothing() {
    let mut ak = [7i16; 4];
    lsp_to_lpc(&[], &mut ak, 0);
    assert_eq!(ak, [7; 4]);
}
