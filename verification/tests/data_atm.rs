use loqng::data::atm::{
    be16, parse_header, parse_params, parse_transitions, read_table, split_source_prefix, Atm, Params,
    SourceMode, Symbols,
};

const HEAD: &[u8] = &[
    0x01, 0x00, 0x00, 0x00, 0x0c, 0x00, 0x24, 0x05, 0x22, 0x14, 0x02, 0x5b,
    0x01, 0x00, 0x00, 0x18, 0x41, 0x78, 0xd1, 0x1d, 0x41, 0x78, 0xd1, 0x1d,
    0x12, 0x1f, 0x00, 0x38, 0x16, 0x00, 0x3e, 0x00, 0x4f, 0x00, 0xf3, 0x27, 0x01, 0x00, 0x00,
    0x04, 0xfe, 0x1b, 0x1c, 0x1d, 0x1e, 0x00, 0x5d,
    0x01, 0x27, 0x00, 0x01, 0x61, 0x00, 0x01, 0x62, 0x00, 0x01, 0x63, 0x00,
];

#[test]
fn header_offsets_match_the_real_file() {
    let h = parse_header("x.atm", HEAD).unwrap();
    assert_eq!(h.params_off, 12);
    assert_eq!(h.symbols_off, 36);
    assert_eq!(h.transitions_off, 1314);
    assert_eq!(h.file_size, 1_311_323);
}

#[test]
fn params_give_the_symbol_counts() {
    let h = parse_header("x.atm", HEAD).unwrap();
    let p = parse_params("x.atm", HEAD, h.params_off as usize).unwrap();
    assert_eq!(p.record_len, 24);
    assert_eq!(p.grapheme_count, 31);
    assert_eq!(p.phoneme_count, 79);
    assert_eq!(p.tag.0, p.tag.1);
    assert_eq!(p.tag.0, 0x4178_d11d);
}

#[test]
fn the_symbol_section_ends_where_transitions_begin() {
    let h = parse_header("x.atm", HEAD).unwrap();
    let p = parse_params("x.atm", HEAD, h.params_off as usize).unwrap();
    let len = be16(HEAD, h.symbols_off as usize + 3);
    assert_eq!(len, 1278);
    assert_eq!(h.symbols_off + len, h.transitions_off);
    let _ = p;
}

#[test]
fn string_entries_are_length_prefixed_and_nul_terminated() {
    let mut p = 47;
    let g = read_table("x.atm", HEAD, &mut p, 4, "graphemes").unwrap();
    assert_eq!(g, vec!["'", "a", "b", "c"]);
    assert_eq!(p, 47 + 12);
}

#[test]
fn an_ff_length_is_an_empty_entry() {
    let raw = [0xffu8, 0x01, b'a', 0x00];
    let mut p = 0;
    let t = read_table("x.atm", &raw, &mut p, 2, "t").unwrap();
    assert_eq!(t, vec!["", "a"]);
    assert_eq!(p, 4);
}

#[test]
fn a_missing_entry_leaves_the_position_where_reading_stopped() {
    let raw = [0x01u8, b'a', 0x00, 0x03, b'b'];
    let mut p = 0;
    let e = read_table("x.atm", &raw, &mut p, 2, "t").unwrap_err();
    assert_eq!(e.what, "t needs 4 bytes at 0x4, file is 5 long");
    assert_eq!(p, 4);
    let mut p = 0;
    let e = read_table("x.atm", &raw[..3], &mut p, 2, "t").unwrap_err();
    assert_eq!(e.what, "t needs 1 bytes at 0x3, file is 3 long");
    assert_eq!(p, 3);
}

#[test]
fn a_truncated_file_is_an_error_not_a_panic() {
    assert!(parse_header("x.atm", &HEAD[..8]).is_err());
    assert!(parse_params("x.atm", HEAD, 1200).is_err());
}

fn tiny_transitions() -> (Vec<u8>, Params) {
    let mut v = vec![0x01, 0x00, 0x00, 0x04, 0x04];
    v.extend_from_slice(&[0x00, 0x00, 0x00, 0x02]);
    v.extend_from_slice(&[0x00, 0x00, 0x08, 0x01]);
    v.extend_from_slice(&[0x85, 0x00, 0x2a, 0x07]);
    v.extend_from_slice(&[0x03, 0x01, 0x00, 0x00]);
    v.extend_from_slice(&[0x7f, 0xff, 0xff, 0x01]);
    let params = Params {
        record_len: 24,
        grapheme_count: 0,
        phoneme_count: 0,
        tag: (0, 0),
        column_count: 62,
        state_count: 2,
        unknown_bytes: [0; 7],
    };
    (v, params)
}

#[test]
fn transition_records_decode() {
    let (raw, p) = tiny_transitions();
    let t = parse_transitions("x.atm", &raw, 0, &p).unwrap();
    assert_eq!(t.desc_stride, 4);
    assert_eq!(t.states.len(), 2);
    assert_eq!(t.records.len(), 3);

    assert_eq!(t.records[0].symbol, 5);
    assert!(t.records[0].high_bit);
    assert_eq!(t.records[0].target, 42);
    assert_eq!(t.records[0].aux, 7);

    assert_eq!(t.records[1].symbol, 3);
    assert!(!t.records[1].high_bit);
    assert_eq!(t.records[1].target, 256);
    assert_eq!(t.records[2].target, 65535);
}

#[test]
fn descriptor_offsets_are_bytes_not_record_indices() {
    let (raw, p) = tiny_transitions();
    let t = parse_transitions("x.atm", &raw, 0, &p).unwrap();
    assert_eq!(t.states[0].record_off, 0);
    assert_eq!(t.states[1].record_off, 8);
    assert_eq!(t.states[1].count, 1);
}

#[test]
fn state_transitions_slices_by_state() {
    let (raw, p) = tiny_transitions();
    let atm = Atm {
        header: parse_header("x.atm", HEAD).unwrap(),
        params: p.clone(),
        symbols: Symbols::default(),
        transitions: parse_transitions("x.atm", &raw, 0, &p).unwrap(),
    };
    assert_eq!(atm.state_transitions(0).len(), 2);
    assert_eq!(atm.state_transitions(1).len(), 1);
    assert_eq!(atm.state_transitions(1)[0].target, 65535);
    assert!(atm.state_transitions(99).is_empty());
}

#[test]
fn a_truncated_record_array_is_an_error() {
    let (mut raw, p) = tiny_transitions();
    raw.truncate(raw.len() - 2);
    assert!(parse_transitions("x.atm", &raw, 0, &p).is_err());
}

#[test]
fn source_modes_cover_zero_to_three_only() {
    assert_eq!(SourceMode::from_code(0), Some(SourceMode::Stdio));
    assert_eq!(SourceMode::from_code(3), Some(SourceMode::Slurped));
    assert_eq!(SourceMode::from_code(4), None);
    assert_eq!(SourceMode::from_code(0xffff), None);
}

#[test]
fn the_prefix_is_one_character_and_the_rest_is_the_path() {
    let (p, rest) = split_source_prefix("mEnglishUs/EnglishUs6.9.atm").unwrap();
    assert_eq!(p, 'm');
    assert_eq!(rest, "EnglishUs/EnglishUs6.9.atm");
    assert_eq!(split_source_prefix(""), None);
}
