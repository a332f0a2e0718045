use loqng::codec::ltp::{
    cdbk_index, gains, predict, predict_into, sample, GAIN_CDBK_STRIDE, GAIN_SCALE,
};

#[test]
fn codebook_entries_are_four_bytes_apart() {
    assert_eq!(0x12e2e - 0x12c2e, 128 * GAIN_CDBK_STRIDE);
    assert_eq!(cdbk_index(0, 7, 0), 0);
    assert_eq!(cdbk_index(0, 7, 1), 4);
    assert_eq!(cdbk_index(1, 7, 0), 128 * 4);
}

#[test]
fn gains_are_biased_by_thirty_two() {
    let cdbk: Vec<i8> = vec![0, 1, -1, 99, -32, 127, -128, 0];
    assert_eq!(gains(&cdbk, 0), [32, 33, 31]);
    assert_eq!(gains(&cdbk, 4), [0, 159, -96]);
}

#[test]
fn scaled_gains_still_fit_an_i16() {
    assert_eq!((32i16 + 127) * GAIN_SCALE, 20352);
    assert_eq!((32i16 - 128) * GAIN_SCALE, -12288);
}

#[test]
fn a_long_pitch_uses_only_the_first_segment() {
    let hist: Vec<i16> = (0..64).collect();
    let out = predict(&hist, 40, [32, 32, 32], 16);
    assert_eq!(out.len(), 16);
    assert!(out.iter().all(|v| *v != 0));
}

#[test]
fn a_short_pitch_crosses_into_the_second_segment() {
    let hist: Vec<i16> = (0..64).collect();
    let short = predict(&hist, 5, [32, 32, 32], 16);

    let mut wrong = vec![0i32; 16];
    for k in 0..3i32 {
        let tap = (32i16.wrapping_mul(GAIN_SCALE)) as i32;
        let lag1 = 5 + 1 - k;
        for i in 0..16i32 {
            if let Some(h) = sample(&hist, i, lag1) {
                wrong[i as usize] = wrong[i as usize].wrapping_add(tap * h as i32);
            }
        }
    }
    assert_ne!(short, wrong);
}

#[test]
fn output_is_zeroed_before_accumulating() {
    let hist: Vec<i16> = vec![0; 64];
    let mut exc = vec![99i32; 8];
    predict_into(&hist, 20, [32, 32, 32], 8, &mut exc);
    assert_eq!(exc, vec![0i32; 8]);
}

#[test]
fn a_negative_lag_produces_no_iterations() {
    let hist: Vec<i16> = (0..64).collect();
    assert_eq!(predict(&hist, -10, [32, 32, 32], 8), vec![0i32; 8]);
}
