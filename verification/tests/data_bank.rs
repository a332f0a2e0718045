use loqng::data::bank::{
    ilog2, BankHeader, BankParams, BankTables, TableSpan, LADDER_SPAN, SIG_SHIFT, TABLES_OFFSET,
};

fn header(words: &[u32]) -> Vec<u8> {
    let mut v = Vec::new();
    for w in words {
        v.extend_from_slice(&w.to_be_bytes());
    }
    v
}

const DAVE: [u32; 12] = [
    19200, 10, 320, 16000, 48, 426_582, 12654, 2, 657_106, 96, 1280, 80,
];

const DAVE_LEN: usize = 21_133_042;

#[test]
fn reads_the_dave_header() {
    let h = BankHeader::parse("Dave.bin", &header(&DAVE)).unwrap();
    assert_eq!(h.bitrate_bps, 19200);
    assert_eq!(h.output_rate, 16000);
    assert_eq!(h.frame_samples, 320);
    assert_eq!(h.header_len, 48);
    assert_eq!(h.frames, 426_582);
    assert_eq!(h.data_offset, 657_106);
}

#[test]
fn word_zero_is_a_bitrate_not_a_sample_rate() {
    let h = BankHeader::parse("Dave.bin", &header(&DAVE)).unwrap();
    assert_eq!(h.frame_rate(), 50);
    assert_eq!(h.frame_bytes(), 48);
    assert_eq!(h.frame_bytes_measured(DAVE_LEN), Some(48));
    assert!(h.consistent_with(DAVE_LEN));
}

#[test]
fn a_file_length_that_disagrees_is_caught() {
    let h = BankHeader::parse("Dave.bin", &header(&DAVE)).unwrap();
    assert!(!h.consistent_with(DAVE_LEN + 1));
    assert_eq!(h.frame_bytes_measured(1000), None);
}

#[test]
fn rate_tag_matches_the_file_name() {
    let h = BankHeader::parse("Dave.bin", &header(&DAVE)).unwrap();
    assert_eq!(h.rate_tag(), "19200.16000");
}

#[test]
fn little_endian_is_rejected_rather_than_believed() {
    let mut v = Vec::new();
    for w in DAVE {
        v.extend_from_slice(&w.to_le_bytes());
    }
    assert!(BankHeader::parse("Dave.bin", &v).is_err());
}

#[test]
fn a_truncated_file_is_an_error() {
    assert!(BankHeader::parse("Dave.bin", &[0u8; 20]).is_err());
}

#[test]
fn word_four_states_the_frame_size_the_bitrate_predicts() {
    let h = BankHeader::parse("Dave.bin", &header(&DAVE)).unwrap();
    assert_eq!(h.frame_bytes_stated(), 48);
    assert_eq!(h.frame_bytes_stated(), h.frame_bytes());
}

#[test]
fn the_context_count_and_xor_key_come_out_of_words_nine_and_six() {
    let h = BankHeader::parse("Dave.bin", &header(&DAVE)).unwrap();
    assert_eq!(h.contexts(), 96);
    assert_eq!(h.xor_key(), 0x6e);
}

#[test]
fn the_norm_shifts_are_floor_log2() {
    assert_eq!(SIG_SHIFT - ilog2(128), 7);
    assert_eq!(SIG_SHIFT - ilog2(256), 6);
    assert_eq!(ilog2(1), 0);
    assert_eq!(ilog2(0), 0);
}

#[test]
fn tables_must_end_exactly_on_the_payload() {
    const CONTEXTS: u32 = 4;
    const FRAMES: u32 = 10;
    let counts = [8usize, 4, 4, 6, 5, 3, 7];
    let total: usize = counts.iter().map(|c| c * CONTEXTS as usize).sum();
    let data_offset = TABLES_OFFSET + FRAMES as usize + total;

    let mut raw = vec![0u8; data_offset];
    let mut put = |at: usize, v: u32| raw[at..at + 4].copy_from_slice(&v.to_be_bytes());
    put(0, 19200);
    put(0x08, 320);
    put(0x0c, 16000);
    put(0x10, 48);
    put(0x14, FRAMES);
    put(0x20, data_offset as u32);
    put(0x24, CONTEXTS);
    for (i, c) in counts.iter().take(6).enumerate() {
        put(0x28 + i * 4, *c as u32);
    }
    put(0x48, counts[6] as u32);
    put(0x4c, 128);
    put(0x50, 256);

    let h = BankHeader::parse("t.bin", &raw).unwrap();
    let t = BankTables::parse("t.bin", &raw, &h).unwrap();
    assert_eq!(t.contexts, CONTEXTS);
    assert_eq!(t.idx.len, FRAMES as usize);
    assert_eq!(t.nb_cb1.offset, TABLES_OFFSET + FRAMES as usize);
    assert_eq!(t.sb_innov.offset + t.sb_innov.len, data_offset);
    assert_eq!(t.nb_innov_shift, 7);
    assert_eq!(t.sb_innov_shift, 6);

    let mut bad = raw.clone();
    bad[0x2b] = counts[1] as u8 + 1;
    let h2 = BankHeader::parse("t.bin", &bad).unwrap();
    assert!(BankTables::parse("t.bin", &bad, &h2).is_err());
}

#[test]
fn dave_parameters_derive_from_the_header_alone() {
    const CONTEXTS: u32 = 96;
    const FRAMES: u32 = 8;
    let counts = [1280usize, 80, 80, 320, 256, 64, 320];
    let total: usize = counts.iter().map(|c| c * CONTEXTS as usize).sum();
    let data_offset = TABLES_OFFSET + FRAMES as usize + total;

    let mut raw = vec![0u8; data_offset];
    let mut put = |at: usize, v: u32| raw[at..at + 4].copy_from_slice(&v.to_be_bytes());
    put(0x00, 19200);
    put(0x08, 320);
    put(0x0c, 16000);
    put(0x10, 48);
    put(0x14, FRAMES);
    put(0x18, 12654);
    put(0x20, data_offset as u32);
    put(0x24, CONTEXTS);
    for (i, c) in counts.iter().take(6).enumerate() {
        put(0x28 + i * 4, *c as u32);
    }
    put(0x48, counts[6] as u32);
    put(0x4c, 128);
    put(0x50, 256);
    put(0x54, 10);
    put(0x58, 5);
    put(0x5c, 5);
    put(0x60, 8);
    put(0x64, 8);
    put(0x70, 5);
    put(0x74, 10);

    let h = BankHeader::parse("Dave.bin", &raw).unwrap();
    let t = BankTables::parse("Dave.bin", &raw, &h).unwrap();
    let p = BankParams::derive("Dave.bin", &raw, &t).unwrap();

    assert_eq!(p.nb.order, 10);
    assert_eq!(p.nb.lsp_nbits, vec![7, 4, 4]);
    assert_eq!(p.nb.lsp_counts, vec![10, 5, 5]);
    assert_eq!(p.nb.lsp_starts, vec![0, 0, 5]);
    assert_eq!(p.nb.spacing, 2048);
    assert_eq!(p.nb.base, 0x800);
    assert_eq!(p.nb.innov_subvect, 5);
    assert_eq!(p.nb.innov_shape_bits, 6);
    assert_eq!(p.nb.innov_shift, 7);

    assert_eq!(p.sb.order, 8);
    assert_eq!(p.sb.lsp_nbits, vec![5, 3]);
    assert_eq!(p.sb.lsp_counts, vec![8, 8]);
    assert_eq!(p.sb.spacing, 2560);
    assert_eq!(p.sb.base, 0x1800);
    assert_eq!(p.sb.innov_subvect, 10);
    assert_eq!(p.sb.innov_shape_bits, 5);
    assert_eq!(p.sb.innov_shift, 6);

    assert_eq!(p.nb.order as u32 * p.nb.spacing as u32, LADDER_SPAN);
    assert_eq!(p.sb.order as u32 * p.sb.spacing as u32, LADDER_SPAN);
}

#[test]
fn a_codebook_that_is_not_a_power_of_two_is_rejected() {
    let span = TableSpan {
        offset: 0,
        per_context: 1290,
        len: 1290,
    };
    let t = BankTables {
        contexts: 1,
        xor_key: 0,
        idx: span,
        nb_cb1: span,
        nb_cb2: span,
        nb_cb3: span,
        nb_innov: span,
        sb_cb1: span,
        sb_cb2: span,
        sb_innov: span,
        nb_innov_shift: 7,
        sb_innov_shift: 6,
    };
    let mut raw = vec![0u8; TABLES_OFFSET];
    raw[0x54..0x58].copy_from_slice(&10u32.to_be_bytes());
    raw[0x60..0x64].copy_from_slice(&8u32.to_be_bytes());
    assert!(BankParams::derive("t.bin", &raw, &t).is_err());
}

#[test]
fn a_context_slice_steps_by_its_own_stride() {
    let span = TableSpan {
        offset: 10,
        per_context: 4,
        len: 12,
    };
    let raw: Vec<u8> = (0..30).collect();
    assert_eq!(span.context(&raw, 0).unwrap(), &[10, 11, 12, 13]);
    assert_eq!(span.context(&raw, 2).unwrap(), &[18, 19, 20, 21]);
    assert_eq!(span.slice(&raw).unwrap().len(), 12);
}
