use loqng::data::phd::{delta_decode, delta_encode, Phd, DELTA_MAGIC};

fn latin1(b: &[u8]) -> String {
    b.iter().map(|c| *c as char).collect()
}

const HEAD: &[u8] = &[
    0x01, 0x01, 0x61, 0x88, 0x9a, 0xb0, 0x9d, 0xa8, 0x8d, 0x8e, 0x69, 0x9a, 0x84, 0x6b,
];

#[test]
fn decodes_the_real_file_head() {
    let plain = delta_decode(&HEAD[2..]);
    assert_eq!(latin1(&plain), "a's=`HEI z\na");
}

#[test]
fn delta_round_trips() {
    let plain = b"a's=`HEI z\naaron's=`AI r H@ n z\n";
    assert_eq!(delta_decode(&delta_encode(plain)), plain);
}

fn sample() -> Vec<u8> {
    let plain = b"a's=`HEI z\naaron=`AI r H@ n\nzebra=`z i: b r @\n";
    let mut v = DELTA_MAGIC.to_vec();
    v.extend_from_slice(&delta_encode(plain));
    v
}

#[test]
fn parses_a_delta_encoded_file() {
    let p = Phd::parse_bytes("x.phd", &sample()).unwrap();
    assert!(p.delta_encoded);
    assert_eq!(p.len(), 3);
    assert_eq!(p.entries[0].word, "a's");
    assert_eq!(p.entries[0].transcription, "`HEI z");
}

#[test]
fn a_plain_file_needs_no_magic() {
    let p = Phd::parse_bytes("x.phd", b"aaron=`AI r H@ n\n").unwrap();
    assert!(!p.delta_encoded);
    assert_eq!(p.len(), 1);
}

#[test]
fn binary_search_finds_every_entry() {
    let p = Phd::parse_bytes("x.phd", &sample()).unwrap();
    assert_eq!(p.lookup("a's"), Some("`HEI z"));
    assert_eq!(p.lookup("aaron"), Some("`AI r H@ n"));
    assert_eq!(p.lookup("zebra"), Some("`z i: b r @"));
    assert_eq!(p.lookup("nothing"), None);
    assert_eq!(p.first_unsorted(), None);
}

#[test]
fn only_the_first_equals_splits_a_record() {
    let p = Phd::parse_bytes("x.phd", b"a=b=c\n").unwrap();
    assert_eq!(p.entries[0].word, "a");
    assert_eq!(p.entries[0].transcription, "b=c");
}

#[test]
fn a_record_without_an_equals_is_an_error() {
    assert!(Phd::parse_bytes("x.phd", b"aaron\n").is_err());
}
