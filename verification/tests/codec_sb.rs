use loqng::codec::sb::{
    div_trunc5_shr5, qmf_combine, submode_from_frame_bytes, OUT_MAX, OUT_MIN, SUBMODE_FRAME_BYTES,
};

#[test]
fn dave_selects_submode_three_in_this_modules_numbering() {
    assert_eq!(submode_from_frame_bytes(48), Some(3));
    assert_eq!(submode_from_frame_bytes(0x30), Some(3));
}

#[test]
fn every_unconditional_size_maps_to_its_submode() {
    for (i, set) in SUBMODE_FRAME_BYTES.iter().enumerate() {
        for b in set.iter() {
            assert_eq!(submode_from_frame_bytes(*b), Some(i as u8 + 1));
        }
    }
    assert_eq!(submode_from_frame_bytes(0x21), None);
    assert_eq!(submode_from_frame_bytes(0), None);
}

#[test]
fn no_submode_exceeds_the_three_bit_field() {
    for set in SUBMODE_FRAME_BYTES.iter() {
        for b in set.iter() {
            let m = submode_from_frame_bytes(*b).unwrap();
            assert!(m < 8, "submode {m} does not fit SB_SUBMODE_BITS");
        }
    }
}

#[test]
fn saturation_is_asymmetric() {
    assert_eq!(qmf_combine(i32::MIN / 4, 0), OUT_MIN as i16);
    assert_eq!(qmf_combine(i32::MAX / 4, 0), OUT_MAX as i16);
    assert_ne!(OUT_MIN, i16::MIN as i32);
}

#[test]
fn qmf_rounds_before_shifting() {
    assert_eq!(qmf_combine(0, 0), 0);
    assert_eq!(qmf_combine(0x1000, 0), 1);
    assert_eq!(qmf_combine(0x0fff, 0), 0);
    assert_eq!(qmf_combine(0x4000, 0x2000), 1);
}

#[test]
fn the_division_matches_a_reference_over_its_range() {
    for x in [
        -100_000i32,
        -1441,
        -161,
        -160,
        -5,
        -1,
        0,
        1,
        5,
        160,
        161,
        100_000,
    ] {
        let want = ((x as i64 / 5) as i32) >> 5;
        assert_eq!(div_trunc5_shr5(x), want, "x = {x}");
    }
}

#[test]
fn the_division_is_not_a_plain_divide_by_160() {
    let differs = (-2000..0).any(|x| div_trunc5_shr5(x) != x / 160);
    assert!(differs);
}
