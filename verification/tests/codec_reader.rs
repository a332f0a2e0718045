use loqng::codec::reader::{CodedFrames, FlatFrames, PREROLL};

#[test]
fn flat_frames_slices_on_the_coded_size() {
    let data: Vec<u8> = (0..96u8).collect();
    let f = FlatFrames::new(&data, 48);
    assert_eq!(f.frames(), 2);
    assert_eq!(f.frame(0).unwrap()[0], 0);
    assert_eq!(f.frame(1).unwrap()[0], 48);
    assert!(f.frame(2).is_none());
}

#[test]
fn preroll_is_six_and_clamps_at_the_start_of_the_bank() {
    assert_eq!(PREROLL, 6);
    assert_eq!(3u32.saturating_sub(PREROLL), 0);
    assert_eq!(9u32.saturating_sub(PREROLL), 3);
}

#[test]
fn frames_of_no_bytes_are_never_there() {
    let data = [1u8, 2, 3];
    let f = FlatFrames::new(&data, 0);
    assert_eq!(f.frames(), 0);
    for i in [0, 1, 2, u32::MAX] {
        assert!(f.frame(i).is_none());
    }
}

#[test]
fn a_frame_is_there_exactly_below_the_total() {
    let data: Vec<u8> = (0..100u8).collect();
    for n in 0..=101usize {
        let f = FlatFrames::new(&data, n);
        for i in 0..110u32 {
            assert_eq!(f.frame(i).is_some(), i < f.frames(), "{n} bytes, frame {i}");
            if let Some(b) = f.frame(i) {
                assert_eq!(b, &data[i as usize * n..(i as usize + 1) * n]);
            }
        }
    }
}
