use loqng::codec::bits::Bits;

#[test]
fn bits_come_out_most_significant_first() {
    let buf = [0b1011_0010u8, 0b0100_0001];
    let mut b = Bits::new(&buf);
    assert_eq!(b.unpack(1), 1);
    assert_eq!(b.unpack(3), 0b011);
    assert_eq!(b.unpack(4), 0b0010);
    assert_eq!(b.unpack(8), 0b0100_0001);
}

#[test]
fn a_read_spanning_a_byte_boundary_is_continuous() {
    let buf = [0xffu8, 0x00];
    let mut b = Bits::new(&buf);
    assert_eq!(b.unpack(4), 0xf);
    assert_eq!(b.unpack(8), 0b1111_0000);
    assert_eq!(b.position(), 12);
}

#[test]
fn overflow_is_sticky_and_returns_zero() {
    let buf = [0xffu8];
    let mut b = Bits::new(&buf);
    assert_eq!(b.unpack(8), 0xff);
    assert_eq!(b.unpack(1), 0);
    assert_eq!(b.overflow, 1);
    b.char_ptr = 0;
    b.bit_ptr = 0;
    assert_eq!(b.unpack(1), 0);
}

#[test]
fn a_read_ending_exactly_on_nb_bits_still_fits() {
    let buf = [0xa5u8];
    let mut b = Bits::new(&buf);
    assert_eq!(b.unpack(8), 0xa5);
    assert_eq!(b.overflow, 0);
}
