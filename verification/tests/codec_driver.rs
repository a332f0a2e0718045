use loqng::codec::driver::{descramble, frame_offset, plan, Request, Step};

#[test]
fn dispatch_keys_are_not_in_table_order() {
    let keys: Vec<u32> = Request::TABLE_ORDER.iter().map(|r| r.key()).collect();
    assert_eq!(keys, vec![1, 2, 3, 5, 6, 4]);
    assert_eq!(Request::TABLE_ORDER[5], Request::Decode);
    assert_eq!(Request::Decode.entry(), 0x48d0);
}

#[test]
fn descramble_is_a_no_op_for_a_zero_key() {
    let mut f = [1u8, 2, 3];
    descramble(&mut f, 0);
    assert_eq!(f, [1, 2, 3]);
}

#[test]
fn descramble_round_trips() {
    let mut f = [0x00u8, 0x5a, 0xff];
    descramble(&mut f, 0x5a);
    assert_eq!(f, [0x5a, 0x00, 0xa5]);
    descramble(&mut f, 0x5a);
    assert_eq!(f, [0x00, 0x5a, 0xff]);
}

#[test]
fn frame_offsets_match_the_dave_bank() {
    assert_eq!(frame_offset(0, 48, 657_106, 0), 657_106);
    assert_eq!(frame_offset(1, 48, 657_106, 0), 657_154);
    let last = frame_offset(426_581, 48, 657_106, 0);
    assert_eq!(last + 48, 21_133_042);
}

#[test]
fn seek_planning_matches_the_four_cases() {
    assert_eq!(plan(10, 10, 9, 4), Step::Current);
    assert_eq!(plan(11, 10, 9, 4), Step::Advance);
    assert_eq!(plan(9, 10, 9, 4), Step::Previous);
    assert_eq!(plan(100, 10, 9, 4), Step::Reseek { from: 96 });
}

#[test]
fn a_reseek_near_zero_does_not_wrap() {
    assert_eq!(plan(2, 50, 49, 8), Step::Reseek { from: 0 });
}

#[test]
fn current_wins_over_previous_when_they_coincide() {
    assert_eq!(plan(7, 7, 7, 4), Step::Current);
}
