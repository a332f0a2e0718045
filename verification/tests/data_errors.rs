use loqng::data::atm::{
    parse_header, parse_params, parse_symbols, parse_transitions, Atm, Header, Params, StateDesc,
    Symbols, Transition, Transitions,
};
use loqng::data::bank::{BankHeader, BankParams, BankTables, TableSpan};
use loqng::data::descriptor::Descriptor;
use loqng::data::error::Error;
use loqng::data::lexicon::Lexicon;
use loqng::data::phd::Phd;
use loqng::data::sde::Sde;
use loqng::data::text::{decode, decode_auto, encode};

#[test]
fn an_error_names_its_file_and_its_line() {
    let e = Error::new("a.sde", 0, "too short".to_string());
    assert_eq!(e.message(), "a.sde: too short");
    let e = Error::new("a.sde", 12, "bad".to_string());
    assert_eq!(e.message(), "a.sde:12: bad");
}

#[test]
fn numbers_that_are_none_are_named() {
    let e = Sde::parse("d.sde", "1,x2\n").unwrap_err();
    assert_eq!(e.message(), "d.sde:1: bad number `x2`");
    let e = Sde::parse("d.sde", "1,2\r\nVERSION=six\r\n").unwrap_err();
    assert_eq!(e.message(), "d.sde:2: bad VERSION `six`");
    let e = Sde::parse("d.sde", "1,2\n\nN=3,,4\n").unwrap_err();
    assert_eq!(e.message(), "d.sde:3: bad number ``");
    assert_eq!(Sde::parse("d.sde", "").unwrap().records.len(), 0);
}

#[test]
fn a_section_that_is_cut_short_says_what_it_needs() {
    assert_eq!(
        parse_header("x.atm", &[0; 8]).unwrap_err().message(),
        "x.atm: header needs 12 bytes at 0x0, file is 8 long"
    );
    assert_eq!(
        parse_params("x.atm", &[0; 20], 10).unwrap_err().message(),
        "x.atm: params needs 24 bytes at 0xa, file is 20 long"
    );
    let p = Params {
        record_len: 24,
        grapheme_count: 0,
        phoneme_count: 0,
        tag: (0, 0),
        column_count: 0,
        state_count: 3,
        unknown_bytes: [0; 7],
    };
    assert_eq!(
        parse_symbols("x.atm", &[0; 10], 0, &p).unwrap_err().what,
        "symbols header needs 11 bytes at 0x0, file is 10 long"
    );
    assert_eq!(
        parse_transitions("x.atm", &[0; 4], 0, &p).unwrap_err().what,
        "transitions header needs 5 bytes at 0x0, file is 4 long"
    );
    assert_eq!(
        parse_transitions("x.atm", &[0, 0, 0, 4, 0, 1], 0, &p).unwrap_err().what,
        "state table needs 12 bytes at 0x5, file is 6 long"
    );
    let mut raw = vec![0, 0, 0, 4, 0];
    raw.extend_from_slice(&[0, 0, 0, 2, 0, 0, 8, 0, 0, 0, 8, 0]);
    assert_eq!(
        parse_transitions("x.atm", &raw, 0, &p).unwrap_err().what,
        "transition records needs 8 bytes at 0x11, file is 17 long"
    );
    let e = parse_transitions("x.atm", &[0, 0, 0, 3, 0], 0, &p).unwrap_err();
    assert!(e.what.ends_with(" is too small for a u24 offset plus a count"), "{}", e.what);
}

#[test]
fn a_bank_says_what_is_wrong_with_it() {
    assert_eq!(
        BankHeader::parse("b.bin", &[0; 47]).unwrap_err().message(),
        "b.bin: 47 bytes is shorter than a 48-byte header"
    );
    let e = BankHeader::parse("b.bin", &[0; 48]).unwrap_err();
    assert_eq!(e.what, "implausible output rate 0 — wrong byte order?");
    let mut raw = vec![0u8; 0x80];
    raw[0x0c..0x10].copy_from_slice(&16000u32.to_be_bytes());
    raw[0x20..0x24].copy_from_slice(&0x90u32.to_be_bytes());
    let h = BankHeader::parse("b.bin", &raw).unwrap();
    assert_eq!(
        BankTables::parse("b.bin", &raw, &h).unwrap_err().what,
        "128 bytes is shorter than the 144-byte preamble"
    );
    raw[0x20..0x24].copy_from_slice(&0x80u32.to_be_bytes());
    let h = BankHeader::parse("b.bin", &raw).unwrap();
    assert_eq!(
        BankTables::parse("b.bin", &raw, &h).unwrap_err().what,
        "tables end at 124, but the payload starts at 128"
    );
    let mut raw = vec![0u8; 48];
    raw[0x0c..0x10].copy_from_slice(&16000u32.to_be_bytes());
    raw[0x20..0x24].copy_from_slice(&48u32.to_be_bytes());
    let h = BankHeader::parse("t.bin", &raw).unwrap();
    assert_eq!(
        BankTables::parse("t.bin", &raw, &h).unwrap_err().message(),
        "t.bin: 48 bytes is shorter than the 124-byte parameter block"
    );
    raw.resize(0x4c, 0);
    assert_eq!(
        BankTables::parse("t.bin", &raw, &h).unwrap_err().what,
        "tables end at 124, but the payload starts at 48"
    );
}

#[test]
fn band_parameters_say_what_is_wrong_with_them() {
    let span = |n: usize| TableSpan { offset: 0, per_context: n, len: n };
    let t = |n: usize| BankTables {
        contexts: 1,
        xor_key: 0,
        idx: span(1),
        nb_cb1: span(n),
        nb_cb2: span(n),
        nb_cb3: span(n),
        nb_innov: span(n),
        sb_cb1: span(n),
        sb_cb2: span(n),
        sb_innov: span(n),
        nb_innov_shift: 0,
        sb_innov_shift: 0,
    };
    let what = |raw: &[u8], n: usize| BankParams::derive("b.bin", raw, &t(n)).unwrap_err().what;
    assert_eq!(
        what(&[0; 100], 8),
        "100 bytes is shorter than the 124-byte parameter block"
    );
    let mut raw = vec![0u8; 124];
    assert_eq!(what(&raw, 8), "bank states a zero LSP order");
    for at in [0x54, 0x58, 0x5c, 0x60, 0x64, 0x70, 0x74] {
        raw[at + 3] = 2;
    }
    assert_eq!(what(&raw, 9), "nb lsp stage 1: 9 bytes does not divide by 2");
    assert_eq!(what(&raw, 12), "nb lsp stage 1: 6 entries is not a power of two");
    let p = BankParams::derive("b.bin", &raw, &t(16)).unwrap();
    assert_eq!(p.nb.lsp_nbits, vec![3, 3, 3]);
    assert_eq!(p.nb.spacing, 10240);
    raw[0x5b] = 0;
    assert_eq!(what(&raw, 16), "nb lsp stage 2: 16 bytes does not divide by 0");
}

#[test]
fn a_descriptor_names_the_line_at_fault() {
    let e = Descriptor::parse("v.vde", "; c\n\nnothing\n").unwrap_err();
    assert_eq!(e.message(), "v.vde:3: no `=` in `nothing`");
    let e = Descriptor::parse("v.vde", "\"\" = 3\n").unwrap_err();
    assert_eq!(e.message(), "v.vde:1: empty key in `\"\" = 3`");
    let e = Lexicon::parse("v.lex", "Name\n\"a\" = \"b\"\n\"c\"\n").unwrap_err();
    assert_eq!((e.file.as_str(), e.line), ("v.lex", 3));
}

#[test]
fn a_record_without_an_equals_is_quoted() {
    let e = Phd::parse_bytes("x.phd", b"a=b\nta\tb\"\n").unwrap_err();
    assert_eq!(e.message(), "x.phd:2: record has no `=`: \"ta\\tb\\\"\"");
}

#[test]
fn merging_fills_in_and_overrides_nothing() {
    let mut d = Descriptor::parse("a", "x = 1\n").unwrap();
    let other = Descriptor::parse("b", "X = 2\ny = 3\n").unwrap();
    d.merge_under(&other);
    assert_eq!(d.get("x"), Some("1"));
    assert_eq!(d.get("y"), Some("3"));
    assert_eq!(d.entries.len(), 2);
}

#[test]
fn unsorted_words_are_found_out() {
    let p = Phd::parse_bytes("x.phd", b"b=1\na=2\n").unwrap();
    assert_eq!(p.first_unsorted(), Some((0, "b", "a")));
}

#[test]
fn encoded_text_is_told_from_plain_text() {
    let plain = "11,2\nVERSION=6\nN=2,7,4\n";
    let coded = encode(plain);
    assert_ne!(coded, plain.as_bytes());
    assert_eq!(decode(&coded), plain);
    assert_eq!(decode_auto(&coded), plain);
    assert_eq!(decode_auto(plain.as_bytes()), plain);
}

fn tiny_automaton() -> Vec<u8> {
    let mut v = vec![1, 0, 0, 0, 12, 0, 36];
    v.extend_from_slice(&[0, 0, 0, 0, 0]);
    v.extend_from_slice(&[1, 0, 0, 24, 0, 0, 0, 0, 0, 0, 0, 0, 0, 1, 0, 0, 0, 0, 1, 0, 1, 0, 0, 2]);
    v
}

#[test]
fn an_automaton_accounts_for_its_last_byte() {
    let raw = tiny_automaton();
    let h = parse_header("x.atm", &raw).unwrap();
    let p = parse_params("x.atm", &raw, h.params_off as usize).unwrap();
    assert_eq!((h.params_off, h.symbols_off), (12, 36));
    assert_eq!(p.state_count, 2);
    let a = |total: usize| Atm {
        header: Header { transitions_off: 50, file_size: total as u32, ..h },
        params: p,
        symbols: Symbols { section_len: 14, ..Symbols::default() },
        transitions: Transitions {
            desc_stride: 4,
            states: vec![
                StateDesc { record_off: 0, count: 2 },
                StateDesc { record_off: 8, count: 1 },
            ],
            records: vec![Transition { symbol: 1, high_bit: false, target: 0, aux: 0 }; 3],
            ..Transitions::default()
        },
    };
    let total = 50 + 5 + 8 + 12;
    assert!(a(total).self_consistent(total));
    assert!(!a(total).self_consistent(total + 1));
    assert!(!a(total + 1).self_consistent(total + 1));
}

#[test]
fn a_frame_has_its_context() {
    let span = TableSpan { offset: 3, per_context: 1, len: 4 };
    let t = BankTables {
        contexts: 1,
        xor_key: 0,
        idx: span,
        nb_cb1: span,
        nb_cb2: span,
        nb_cb3: span,
        nb_innov: span,
        sb_cb1: span,
        sb_cb2: span,
        sb_innov: span,
        nb_innov_shift: 0,
        sb_innov_shift: 0,
    };
    assert_eq!(t.context_of(&[0, 0, 0, 7, 8], 1), Some(8));
    assert_eq!(t.context_of(&[0, 0, 0, 7, 8], 2), None);
}

#[test]
fn utterances_are_listed_in_order() {
    let s = Sde::parse("d.sde", "1,2\nU=one\nS=I\nU=two words\n").unwrap();
    assert_eq!(s.utterances(), vec!["one", "two words"]);
}
