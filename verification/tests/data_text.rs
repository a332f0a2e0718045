use loqng::data::text::{decode, decode_auto, encode, looks_encoded};

#[test]
fn decodes_the_sde_magic() {
    assert_eq!(decode(&[0xb1, 0xb1, 0xac, 0xb2, 0x0a]), "11,2\n");
}

#[test]
fn decodes_the_lex_magic() {
    let raw = [0xc5, 0xee, 0xe7, 0xec, 0xe9, 0xf3, 0xe8];
    assert_eq!(decode(&raw), "English");
}

#[test]
fn round_trips() {
    let s = "11,2\nVERSION=6\nN=1,2,3\n";
    assert_eq!(decode(&encode(s)), s);
}

#[test]
fn detects_plain_text() {
    assert!(!looks_encoded(b"; a comment\n\"Key\" = \"Value\"\n"));
    assert!(looks_encoded(&[0xc5, 0xee, 0xe7, 0xec]));
}
