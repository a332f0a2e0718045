use loqng::codec::filters::{
    fir2x, history_len, iir16, iir32, mult16_32_q14, scratch_len, signal_mul,
};

#[test]
fn history_length_matches_the_guest_loop() {
    for ord in 0..64i32 {
        let mut expect = 0usize;
        let mut i = 0i32;
        while i < ord - 1 {
            expect += 1;
            i += 2;
        }
        assert_eq!(history_len(ord), expect, "ord = {ord}");
    }
}

#[test]
fn scratch_is_as_big_as_the_guest_alloca() {
    assert_eq!(scratch_len(160, 16), 88);
    assert_eq!(scratch_len(0, 0), 0);
    assert!(scratch_len(160, 16) >= 160 / 2 + history_len(16));
}

#[test]
fn an_impulse_reproduces_the_taps() {
    let ord = 4;
    let n = 8;
    let mut s = vec![0i16; scratch_len(n, ord)];
    s[(n / 2 - 1) as usize] = 1 << 10;
    let coef = [100i16, 200, 300, 400];
    let mut out = vec![0i32; n as usize];
    fir2x(&s, &coef, n, ord, &mut out);
    assert_eq!(out[0], (1024 * 100) >> 2);
    assert_eq!(out[1], (1024 * 200) >> 2);
    assert!(out.iter().any(|v| *v != 0));
}

#[test]
fn iir16_saturates_at_the_codec_limit_not_the_type_limit() {
    let den = [0i16; 2];
    let x = [i16::MAX, i16::MIN];
    let mut out = vec![0i16; 2];
    let mut mem = vec![0x1000_0000i32, 0];
    iir16(&x, &den, 2, 2, &mut out, &mut mem);
    assert_eq!(out[0], 32767);
    assert_eq!(out[1], -32767, "-32768 must clamp up to -32767");
}

#[test]
fn iir32_drains_its_history_through_the_feedback_term() {
    let x = vec![0i32; 8];
    let den = [0i16; 4];
    let mut out = vec![0i32; 8];
    let mut mem = vec![8i32, 16, 24, 32];
    iir32(&x, &den, 8, 4, &mut out, &mut mem);
    assert_eq!(out, vec![16, 32, 48, 64, 0, 0, 0, 0]);
    assert_eq!(mem, vec![0, 0, 0, 0]);
}

#[test]
fn iir32_clamps_to_the_wide_limit() {
    let x = [i32::MAX, i32::MIN];
    let den = [0i16; 2];
    let mut out = vec![0i32; 2];
    let mut mem = vec![0i32; 2];
    iir32(&x, &den, 2, 2, &mut out, &mut mem);
    assert_eq!(out, vec![0x3000_0000, -0x3000_0000]);
}

#[test]
fn mult16_32_q14_does_not_truncate_its_wide_operand() {
    let wide = 0x0012_3456i32;
    assert_eq!(mult16_32_q14(3, wide), ((wide as i64 * 3) >> 14) as i32);
    let truncated = wide as i16 as i32;
    assert_ne!(
        mult16_32_q14(3, wide),
        ((truncated as i64 * 3) >> 14) as i32
    );
}

#[test]
fn signal_mul_keeps_the_low_seven_bits_out_of_the_product() {
    let a = [0x0001_2380i32];
    let b = [0x0001_23ffi32];
    let mut ya = [0i32];
    let mut yb = [0i32];
    signal_mul(&a, &mut ya, 0x4000, 1);
    signal_mul(&b, &mut yb, 0x4000, 1);
    assert_eq!(ya, yb);
}
