use loqng::codec::bits::Bits;
use loqng::codec::decoder::{DecodeError, SbDecoder, Voice, FULL_FRAME};
use loqng::codec::innov::Band;
use loqng::codec::reader::{
    crossfade, fade_in_index, fade_out_index, render, render_joined, window_scale, BankReader,
    FlatFrames, Unit, JOIN_HALF,
};

const CTX: [u8; 12] = [0; 12];

fn voice() -> Voice<'static> {
    Voice {
        ctx: &CTX,
        nb_lsp: [&[], &[], &[]],
        nb_innov: &[3; 320],
        sb_lsp: [&[], &[]],
        sb_innov: &[-5; 320],
        nb_innov_log2: 7,
        sb_innov_log2: 6,
    }
}

fn coded() -> Vec<u8> {
    let mut s = 12345u32;
    (0..12 * 48)
        .map(|_| {
            s = s.wrapping_mul(1103515245).wrapping_add(12345);
            (s >> 16) as u8
        })
        .collect()
}

#[test]
fn a_read_in_two_parts_is_one_read() {
    let data = coded();
    let src = FlatFrames::new(&data, 48);
    let mut whole = Vec::new();
    let mut r = BankReader::new(voice(), 0);
    r.read(&src, 100, 900, &mut whole).unwrap();
    assert_eq!(whole.len(), 900);
    assert!(whole.iter().any(|&v| v != 0));
    let mut parts = Vec::new();
    let mut r = BankReader::new(voice(), 0);
    r.read(&src, 100, 333, &mut parts).unwrap();
    r.read(&src, 433, 567, &mut parts).unwrap();
    assert_eq!(parts, whole);
}

#[test]
fn a_key_scrambles_the_frames() {
    let data = coded();
    let scrambled: Vec<u8> = data.iter().map(|b| b ^ 0x6e).collect();
    let mut plain = Vec::new();
    BankReader::new(voice(), 0)
        .read(&FlatFrames::new(&data, 48), 0, 400, &mut plain)
        .unwrap();
    let mut keyed = Vec::new();
    BankReader::new(voice(), 0x6e)
        .read(&FlatFrames::new(&scrambled, 48), 0, 400, &mut keyed)
        .unwrap();
    assert_eq!(plain, keyed);
}

#[test]
fn a_read_past_the_bank_is_an_error() {
    let data = coded();
    let src = FlatFrames::new(&data, 48);
    let mut out = Vec::new();
    let r = BankReader::new(voice(), 0).read(&src, 12 * 320, 10, &mut out);
    assert!(r.is_err());
    let short = FlatFrames::new(&data, 20);
    let r = BankReader::new(voice(), 0).read(&short, 0, 10, &mut out);
    assert_eq!(r, Err(DecodeError::Truncated));
}

#[test]
fn a_truncated_frame_is_refused() {
    let mut d = SbDecoder::new();
    let mut out = [0i16; FULL_FRAME];
    let mut bits = Bits::new(&[0u8; 30]);
    assert_eq!(
        d.decode(&voice(), 0, &mut bits, &mut out),
        Err(DecodeError::Truncated)
    );
}

#[test]
fn rendering_is_as_long_as_its_units() {
    let data = coded();
    let src = FlatFrames::new(&data, 48);
    let units = [Unit::between(100, 400), Unit::between(1000, 1100), Unit::between(7, 3)];
    let out = render(&mut BankReader::new(voice(), 0), &src, &units).unwrap();
    assert_eq!(out.len(), 400);
    let win: Vec<i16> = (0..628).map(|k| (32767 - k * 52) as i16).collect();
    let cut = render_joined(&mut BankReader::new(voice(), 0), &src, &units, &[], &win).unwrap();
    assert_eq!(cut, out);
    let joined =
        render_joined(&mut BankReader::new(voice(), 0), &src, &units, &[true, true], &win).unwrap();
    assert_eq!(joined.len(), out.len());
    assert_ne!(joined, out);
    assert_eq!(joined[..300 - JOIN_HALF], out[..300 - JOIN_HALF]);
    assert_eq!(joined[300 + JOIN_HALF..], out[300 + JOIN_HALF..]);
}

#[test]
fn scaling_rounds_toward_zero_and_fades_mirror() {
    assert_eq!(window_scale(100, 16384), 50);
    assert_eq!(window_scale(-101, 16384), -50);
    assert_eq!(window_scale(-1, 1), 0);
    assert_eq!(window_scale(i16::MIN, i16::MIN), 32768);
    assert_eq!(fade_out_index(0, 64), 0);
    assert_eq!(fade_out_index(1, 64), 9);
    assert_eq!(fade_in_index(0, 64), fade_out_index(64, 64));
    assert_eq!(fade_in_index(63, 64), fade_out_index(1, 64));
    assert_eq!((fade_out_index(3, 0), fade_in_index(3, 0)), (0, 0));
}

#[test]
fn a_blend_saturates() {
    let win = vec![i16::MAX; 628];
    assert_eq!(crossfade(&win, &[32767; 2], &[32767; 2], 2), vec![32767, 32767]);
    assert_eq!(crossfade(&win, &[-32768; 1], &[-32768; 1], 1), vec![-32768]);
    assert_eq!(crossfade(&win, &[100], &[], 2), vec![99, 0]);
}

#[test]
fn the_bands_keep_their_state_apart() {
    assert_eq!((Band::Low.cb_base_offset(), Band::High.cb_base_offset()), (0x60, 0x64));
    assert_eq!((Band::Low.entry_bytes_offset(), Band::High.entry_bytes_offset()), (0x38, 0x3c));
    assert_eq!((Band::Low.shift_offset(), Band::High.shift_offset()), (0x84, 0x85));
}

#[test]
fn a_frame_at_the_end_of_the_longest_stream_is_truncated() {
    let mut bits = Bits {
        chars: &[],
        nb_bits: i32::MAX - 7,
        char_ptr: i32::MAX / 8 - 12,
        bit_ptr: 0,
        overflow: 0,
    };
    let mut out = vec![0i16; FULL_FRAME];
    assert_eq!(
        SbDecoder::new().decode(&voice(), 0, &mut bits, &mut out),
        Err(DecodeError::Truncated)
    );
    assert_eq!(bits.overflow, 1);
    assert!(bits.position() <= bits.nb_bits);
}
