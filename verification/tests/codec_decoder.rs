use loqng::codec::bits::Bits;
use loqng::codec::decoder::{
    mult16_32_q15, nb_ltp, nb_split_cb, pdiv32_16, sb_split_cb, DecodeError, NbDecoder, SbDecoder,
    Voice, FULL_FRAME, NB_EXC_BUF, NB_EXC_OFF, NB_FRAME, NB_HIST, NB_ORDER, NB_SPACING, NB_SUBFRAME,
    OL_GAIN_FACTOR, PITCH_END, QMF_ORDER, SB_ORDER, SB_SPACING, SUBFRAMES,
};
use loqng::codec::tables::OL_GAIN;

fn nb_frame_bits() -> usize {
    let lsp = 7 + 4 + 4;
    let gain = 5;
    let per_sub = nb_ltp().pitch_bits as usize
        + nb_ltp().gain_bits as usize
        + 3
        + nb_split_cb().nb_subvect * nb_split_cb().shape_bits as usize;
    lsp + gain + SUBFRAMES * per_sub
}

fn sb_frame_bits() -> usize {
    let lsp = 5 + 3;
    let per_sub = 4 + sb_split_cb().nb_subvect * sb_split_cb().shape_bits as usize;
    lsp + SUBFRAMES * per_sub
}

#[test]
fn the_frame_budget_is_exactly_forty_eight_bytes() {
    assert_eq!(nb_frame_bits(), 280);
    assert_eq!(sb_frame_bits(), 104);
    let total = nb_frame_bits() + sb_frame_bits();
    assert_eq!(total, 384);
    assert_eq!(total % 8, 0);
    assert_eq!(total / 8, 48);
}

#[test]
fn the_excitation_buffer_lines_up_with_the_history_shift() {
    assert_eq!(NB_EXC_BUF, NB_FRAME + NB_HIST);
    assert_eq!(NB_EXC_BUF, 500);
    assert_eq!(NB_EXC_OFF, 334);
    assert!(NB_EXC_OFF >= NB_SUBFRAME);
    let deepest = NB_EXC_OFF + 3 * NB_SUBFRAME;
    assert!(deepest >= 2 * PITCH_END as usize);
}

#[test]
fn the_two_ladders_span_the_same_range() {
    assert_eq!(NB_ORDER * NB_SPACING as usize, 20480);
    assert_eq!(SB_ORDER * SB_SPACING as usize, 20480);
}

#[test]
fn pdiv_rounds_then_truncates_toward_zero() {
    assert_eq!(pdiv32_16(10, 4), 3);
    assert_eq!(pdiv32_16(-10, 4), -2);
    assert_eq!(pdiv32_16(0, 7), 0);
    assert_eq!(pdiv32_16(100, 8), 13);
}

#[test]
fn pdiv_survives_a_zero_divisor_instead_of_trapping() {
    assert_eq!(pdiv32_16(1234, 0), 0);
    assert_eq!(pdiv32_16(1234, 0x1_0000), 0);
}

#[test]
fn q15_multiply_keeps_the_full_product() {
    assert_eq!(
        mult16_32_q15(OL_GAIN_FACTOR, OL_GAIN[0]),
        (28406i64 * 18900) as i32 >> 15
    );
    assert_eq!(
        mult16_32_q15(32767, 0x7fff_ffff),
        ((32767i64 * 0x7fff_ffff) >> 15) as i32
    );
}

#[test]
fn a_fresh_decoder_starts_silent_and_first() {
    let d = NbDecoder::new();
    assert!(d.first);
    assert!(d.excitation().iter().all(|&v| v == 0));
    assert_eq!(d.pi_gain().len(), SUBFRAMES);
    let s = SbDecoder::new();
    assert_eq!(s.g0_mem.len(), QMF_ORDER);
    assert_eq!(s.mem_sp.len(), 2 * SB_ORDER);
}

#[test]
fn a_short_output_slice_is_refused() {
    let mut d = SbDecoder::new();
    let v = Voice {
        ctx: &[0],
        nb_lsp: [&[], &[], &[]],
        nb_innov: &[],
        sb_lsp: [&[], &[]],
        sb_innov: &[],
        nb_innov_log2: 7,
        sb_innov_log2: 8,
    };
    let data = [0u8; 48];
    let mut bits = Bits::new(&data);
    let mut out = [0i16; 16];
    assert_eq!(
        d.decode(&v, 0, &mut bits, &mut out),
        Err(DecodeError::BadOutputLen(16))
    );
}

#[test]
fn a_frame_past_the_context_array_is_refused() {
    let mut d = SbDecoder::new();
    let v = Voice {
        ctx: &[0, 1, 2],
        nb_lsp: [&[], &[], &[]],
        nb_innov: &[],
        sb_lsp: [&[], &[]],
        sb_innov: &[],
        nb_innov_log2: 7,
        sb_innov_log2: 8,
    };
    let data = [0u8; 48];
    let mut bits = Bits::new(&data);
    let mut out = [0i16; FULL_FRAME];
    assert_eq!(
        d.decode(&v, 9, &mut bits, &mut out),
        Err(DecodeError::NoContext(9))
    );
}
