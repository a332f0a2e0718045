use loqng::codec::bits::Bits;
use loqng::codec::innov::{arm_lsl, codebook_offset, expand, read_indices, SplitCbParams};

fn par() -> SplitCbParams {
    SplitCbParams {
        subvect_size: 5,
        nb_subvect: 8,
        shape_bits: 6,
        have_sign: false,
    }
}

#[test]
fn per_voice_offset_steps_a_whole_codebook() {
    assert_eq!(codebook_offset(5, 6, 0), 0);
    assert_eq!(codebook_offset(5, 6, 1), 5 * 64);
    assert_eq!(codebook_offset(5, 6, 3), 3 * 5 * 64);
}

#[test]
fn entries_are_shifted_up_by_fourteen_minus_shift() {
    let cb: Vec<i8> = (0..64 * 5).map(|i| (i % 7) as i8 - 3).collect();
    let p = par();
    let mut exc = vec![0i32; p.nb_subvect * p.subvect_size];
    expand(&cb, &p, 0, &[0; 8], &[0; 8], &mut exc);
    assert_eq!(exc[0], (cb[0] as i32) << 14);
    assert_eq!(exc[1], (cb[1] as i32) << 14);
}

#[test]
fn a_shift_above_fourteen_yields_zero_rather_than_panicking() {
    assert_eq!(arm_lsl(-128, 14u32.wrapping_sub(20)), 0);
    assert_eq!(arm_lsl(1, 31), i32::MIN);
    assert_eq!(arm_lsl(1, 32), 0);
    assert_eq!(arm_lsl(3, 256), 3);
}

#[test]
fn a_sign_bit_negates_the_whole_subvector() {
    let cb: Vec<i8> = (0..64 * 5).map(|i| (i % 7) as i8 - 3).collect();
    let p = par();
    let mut plus = vec![0i32; p.nb_subvect * p.subvect_size];
    let mut minus = vec![0i32; p.nb_subvect * p.subvect_size];
    expand(&cb, &p, 2, &[0; 8], &[1; 8], &mut plus);
    expand(&cb, &p, 2, &[1; 8], &[1; 8], &mut minus);
    for (a, b) in plus.iter().zip(minus.iter()) {
        assert_eq!(*a, -*b);
    }
}

#[test]
fn each_subvector_uses_its_own_index() {
    let cb: Vec<i8> = (0..64 * 5).map(|i| i as i8).collect();
    let p = par();
    let mut exc = vec![0i32; p.nb_subvect * p.subvect_size];
    let ind = [0u32, 1, 2, 3, 4, 5, 6, 7];
    expand(&cb, &p, 14, &[0; 8], &ind, &mut exc);
    for (i, want) in ind.iter().enumerate() {
        assert_eq!(exc[i * 5], cb[*want as usize * 5] as i32);
    }
}

#[test]
fn a_short_codebook_is_skipped_rather_than_panicking() {
    let p = par();
    let mut exc = vec![0i32; p.nb_subvect * p.subvect_size];
    expand(&[1i8, 2, 3], &p, 0, &[0; 8], &[0; 8], &mut exc);
    assert_eq!(exc[0], 1 << 14);
    assert_eq!(exc[4], 0);
}

#[test]
fn signs_and_indices_alternate_in_the_bitstream() {
    let p = SplitCbParams {
        subvect_size: 5,
        nb_subvect: 2,
        shape_bits: 6,
        have_sign: true,
    };
    let buf = [0b1000_0010u8, 0b0000_1000, 0x00];
    let mut b = Bits::new(&buf);
    let (signs, ind) = read_indices(&p, &mut b);
    assert_eq!(signs, vec![1, 0]);
    assert_eq!(ind, vec![1, 2]);
    assert_eq!(b.position(), 14);
}

#[test]
fn an_index_wider_than_the_type_reads_nothing() {
    let p = SplitCbParams { subvect_size: 1, nb_subvect: 2, shape_bits: u32::MAX, have_sign: true };
    let buf = [0b1000_0000u8];
    let mut b = Bits::new(&buf);
    assert_eq!(read_indices(&p, &mut b), (vec![1, 0], vec![0, 0]));
    assert_eq!(b.position(), 2);
}
