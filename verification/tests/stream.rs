use loqng::stream::{
    parse_fon_dump, PhoneStream, ProsLabel, GAIN_STEP, GAIN_UNITY, PHONE_RECORD_LEN,
};

fn raw() -> Vec<u8> {
    let mut v = vec![0u8; 3 * PHONE_RECORD_LEN];
    v[0..2].copy_from_slice(&100u16.to_le_bytes());
    v[2..4].copy_from_slice(&200u16.to_le_bytes());
    v[4..6].copy_from_slice(&300u16.to_le_bytes());
    v[6] = 42;
    v[7] = 12;
    v[16..18].copy_from_slice(&7u16.to_le_bytes());
    v[22] = 9;
    v[23] = 1;
    v
}

#[test]
fn reads_records_until_the_terminator() {
    let s = PhoneStream::from_records(&raw());
    assert_eq!(s.len(), 2);
    assert_eq!(s.phones[0].duration_ms, 100);
    assert_eq!(s.phones[0].f0_hz, 200);
    assert_eq!(s.phones[0].gain, 300);
    assert_eq!(s.phones[0].phoneme, 42);
    assert_eq!(s.phones[1].phoneme, 9);
}

const FON_DUMP: &str = "\
th\t  79\t 95\t13107\tD F\n\
`E\t 100\t106\t13107\tD P\n\
@\t 500\t 73\t13107\tD W\n";

#[test]
fn parses_a_real_fon_dump() {
    let p = parse_fon_dump(FON_DUMP);
    assert_eq!(p.len(), 3);
    assert_eq!(p[0].phoneme, "th");
    assert_eq!(p[0].duration_ms, 79);
    assert_eq!(p[0].f0_hz, 95);
    assert_eq!(p[0].style, "D");
    assert_eq!(p[0].proslab, "F");
    assert_eq!(p[1].phoneme, "`E");
    assert_eq!(p[2].phoneme, "@");
    assert_eq!(p[2].duration_ms, 500);
}

#[test]
fn every_phone_carries_unity_gain() {
    for p in parse_fon_dump(FON_DUMP) {
        assert_eq!(p.gain_q14, GAIN_UNITY);
    }
    assert_eq!(3 * 17 * 257, GAIN_UNITY as i32);
    assert_eq!(GAIN_UNITY / 10, GAIN_STEP);
    assert_eq!(GAIN_UNITY as u32 * 2, 26214);
}

#[test]
fn non_record_lines_are_skipped_not_fatal() {
    let mixed = format!("th `E s d I N\n{FON_DUMP}");
    assert_eq!(parse_fon_dump(&mixed).len(), 3);
}

#[test]
fn a_zero_phoneme_ends_the_stream_even_mid_buffer() {
    let mut v = raw();
    v[22] = 0;
    assert_eq!(PhoneStream::from_records(&v).len(), 1);
}

#[test]
fn records_round_trip() {
    let s = PhoneStream::from_records(&raw());
    assert_eq!(PhoneStream::from_records(&s.to_records()), s);
}

#[test]
fn boundary_labels_are_the_four_fonwrite_singles_out() {
    for n in [6u8, 12, 13, 14] {
        assert!(ProsLabel(n).is_boundary());
    }
    for n in [0u8, 1, 5, 7, 11, 15, 255] {
        assert!(!ProsLabel(n).is_boundary());
    }
}

#[test]
fn a_truncated_buffer_yields_what_it_has() {
    let v = raw();
    let s = PhoneStream::from_records(&v[..PHONE_RECORD_LEN + 4]);
    assert_eq!(s.len(), 1);
}
