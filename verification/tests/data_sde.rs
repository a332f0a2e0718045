use loqng::data::sde::{decode_num, encode_num, Sde, SdeRecord, Side, Unit};

const SDE: &str = "\
11,2\n\
VERSION=6\n\
N=2,7,4\n\
U=# # @ @\n\
L# !'E #-% \" \"\n\
R# #>E . \"\n\
U=# `i: T$-Dg #\n\
L$ $l) 0 \"\n\
R, ##7 $ n\n\
S=I\n";

#[test]
fn splits_every_record_kind() {
    let s = Sde::parse("Dave.sde", SDE).unwrap();
    assert_eq!(s.version(), Some(6));
    assert_eq!(s.counts(), Some(&[2i64, 7, 4][..]));
    assert_eq!(s.tally(), (2, 2, 2));
    assert!(matches!(s.records[0], SdeRecord::Header(_)));
    assert!(matches!(s.records.last(), Some(SdeRecord::Section(_))));
}

#[test]
fn keeps_unit_fields_verbatim() {
    let s = Sde::parse("Dave.sde", SDE).unwrap();
    let SdeRecord::Left { tokens } = &s.records[4] else {
        panic!("expected a left half");
    };
    assert_eq!(tokens, &["#", "!'E", "#-%", "\"", "\""]);
}

#[test]
fn the_hash_prefixed_three_char_field_is_one_field() {
    let s = Sde::parse("Dave.sde", SDE).unwrap();
    let SdeRecord::Right { tokens } = &s.records[8] else {
        panic!("expected a right half");
    };
    assert_eq!(tokens, &[",", "##7", "$", "n"]);
}

#[test]
fn counts_are_checked_against_the_body() {
    let s = Sde::parse("Dave.sde", SDE).unwrap();
    assert!(s.counts_agree());
}

#[test]
fn base93_digits_start_at_double_quote() {
    assert_eq!(decode_num("\""), 0);
    assert_eq!(decode_num("#"), 1);
    assert_eq!(decode_num("0"), 14);
    assert_eq!(decode_num("~"), 92);
    assert_eq!(decode_num("'E"), 500);
    assert_eq!(decode_num("#-%"), 9675);
    assert_eq!(decode_num("$l)"), 24187);
}

#[test]
fn anything_at_or_below_bang_terminates_a_number() {
    assert_eq!(decode_num("!"), 0);
    assert_eq!(decode_num("#-% "), decode_num("#-%"));
    assert_eq!(decode_num("#!junk"), 1);
}

#[test]
fn numbers_round_trip() {
    for v in [0u32, 1, 92, 93, 500, 9675, 24187, 853_161_782] {
        assert_eq!(decode_num(&encode_num(v)), v);
    }
}

const UNITS: &str = "\
11,2\nVERSION=6\nN=1,1,4\nU=# # @ @\n\
L# !'E #-% \" \"\n\
R# #>E . \"\n\
L$ $l) 0 \"\n\
R$ %&A @ \"\n";

#[test]
fn units_decode_to_the_values_verified_against_the_vendor_file() {
    let u = Sde::parse("Dave.sde", UNITS).unwrap().units();
    assert_eq!(u.len(), 4);
    assert_eq!((u[0].index, u[0].start, u[0].length), (1, 500, 9675));
    assert!(u[0].explicit_start);
    assert_eq!((u[1].index, u[1].start, u[1].length), (1, 10175, 11288));
    assert_eq!((u[2].index, u[2].start, u[2].length), (2, 21463, 24187));
    assert_eq!((u[3].index, u[3].start, u[3].length), (2, 45650, 26350));
}

#[test]
fn implicit_starts_chain_from_the_previous_end() {
    let u = Sde::parse("Dave.sde", UNITS).unwrap().units();
    for w in u.windows(2) {
        assert!(!w[1].explicit_start);
        assert_eq!(w[1].start, w[0].end());
    }
    assert!(Sde::parse("Dave.sde", UNITS).unwrap().continuity_holds());
}

#[test]
fn left_and_right_take_even_and_odd_slots() {
    let u = Sde::parse("Dave.sde", UNITS).unwrap().units();
    assert_eq!(u[0].side, Side::Left);
    assert_eq!(u[1].side, Side::Right);
    assert_eq!(u[0].slot(0), 2);
    assert_eq!(u[1].slot(0), 3);
}

#[test]
fn the_packed_word_unpacks_with_a_shift_of_ten() {
    let u = Sde::parse("Dave.sde", UNITS).unwrap().units();
    assert_eq!(u[0].packed() >> 10, u[0].length);
}

#[test]
fn nothing_is_silently_dropped() {
    let s = Sde::parse("x.sde", "11,2\nwhat is this\n").unwrap();
    assert_eq!(s.records.len(), 2);
    assert!(matches!(s.records[1], SdeRecord::Other(_)));
}
