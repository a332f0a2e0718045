use loqng::xrt::cover::{Cover, Profile};
use loqng::xrt::cpu::{
    fpa_ldf, fpa_lfm, fpa_order, fpa_sfm, fpa_stf, memcpy, memmove, memset, strcmp, strcpy, strlen,
    strncmp, strncpy, strstr, Cpu, Order, EXT_TAG,
};
use loqng::xrt::flags::{shift_reg, Flags};
use loqng::xrt::mem::Mem;

fn flags(n: bool, z: bool, c: bool, v: bool) -> Flags {
    Flags { n, z, c, v }
}

#[test]
fn subtraction_sets_all_four_flags() {
    assert_eq!(Flags::sub(5, 3), (2, flags(false, false, true, false)));
    assert_eq!(Flags::sub(3, 5), (0xffff_fffe, flags(true, false, false, false)));
    assert_eq!(Flags::sub(4, 4), (0, flags(false, true, true, false)));
    assert_eq!(Flags::sub(0x8000_0000, 1), (0x7fff_ffff, flags(false, false, true, true)));
}

#[test]
fn addition_carries_and_overflows() {
    assert_eq!(Flags::add(0xffff_ffff, 1), (0, flags(false, true, true, false)));
    assert_eq!(Flags::add(0x7fff_ffff, 1), (0x8000_0000, flags(true, false, false, true)));
    assert_eq!(Flags::adc(0xffff_ffff, 0, true), (0, flags(false, true, true, false)));
    assert_eq!(Flags::adc(1, 2, false), (3, flags(false, false, false, false)));
    assert_eq!(Flags::sbc(5, 3, true), (2, flags(false, false, true, false)));
    assert_eq!(Flags::sbc(5, 3, false), (1, flags(false, false, true, false)));
    assert_eq!(Flags::sbc(0, 0, false), (0xffff_ffff, flags(true, false, false, false)));
}

#[test]
fn subtraction_is_addition_of_the_complement() {
    for (a, b) in [(5u32, 3u32), (3, 5), (0, 0), (0x8000_0000, 1), (1, 0x8000_0000)] {
        assert_eq!(Flags::sub(a, b), Flags::sbc(a, b, true));
    }
}

#[test]
fn a_logical_result_keeps_the_overflow() {
    let f = flags(false, false, false, true);
    assert_eq!(f.logic(0, true), flags(false, true, true, true));
    assert_eq!(f.logic(0x8000_0000, false), flags(true, false, false, true));
}

#[test]
fn shifts_at_their_edges() {
    assert_eq!(shift_reg(0, 0x8000_0001, 0, true), (0x8000_0001, true));
    assert_eq!(shift_reg(0, 0x8000_0001, 1, false), (2, true));
    assert_eq!(shift_reg(0, 1, 32, false), (0, true));
    assert_eq!(shift_reg(0, 1, 33, true), (0, false));
    assert_eq!(shift_reg(1, 0x8000_0001, 1, false), (0x4000_0000, true));
    assert_eq!(shift_reg(1, 0x8000_0000, 32, false), (0, true));
    assert_eq!(shift_reg(1, 0x8000_0000, 40, true), (0, false));
    assert_eq!(shift_reg(2, 0x8000_0000, 4, false), (0xf800_0000, false));
    assert_eq!(shift_reg(2, 0x8000_0000, 200, false), (0xffff_ffff, true));
    assert_eq!(shift_reg(3, 1, 1, false), (0x8000_0000, true));
    assert_eq!(shift_reg(3, 0x8000_0000, 32, false), (0x8000_0000, true));
    assert_eq!(shift_reg(1, 6, 0x101, false), (3, false));
}

#[test]
fn memory_is_what_was_mapped() {
    let mut m = Mem::new();
    assert!(m.vacant(0, 0x1_0000_0000));
    m.map(0x100, vec![1, 2, 3, 4]);
    m.zeroed(0x104, 8);
    assert!(m.mapped(0x100, 4));
    assert!(!m.mapped(0x100, 5));
    assert!(!m.mapped(0xff, 1));
    assert!(m.mapped(0x104, 8));
    assert!(!m.vacant(0x103, 1));
    assert!(m.vacant(0x10c, 4));
    assert_eq!(m.r8(0x103), 4);
    assert_eq!(m.r16(0x100), 0x0201);
    assert_eq!(m.r32(0x100), 0x0403_0201);
    assert_eq!(m.read(0x104, 8), vec![0; 8]);
    let m = Mem::with_image(&[(0, &[9u8][..]), (4, &[8u8, 7][..])]);
    assert_eq!((m.r8(0), m.r8(4), m.r8(5)), (9, 8, 7));
}

#[test]
fn words_are_little_endian_and_touch_nothing_else() {
    let mut m = Mem::new();
    m.map(0, vec![0xee; 12]);
    m.w32(4, 0x0102_0304);
    m.w16(8, 0x0506);
    m.w8(0, 7);
    assert_eq!(
        m.read(0, 12),
        vec![7, 0xee, 0xee, 0xee, 4, 3, 2, 1, 6, 5, 0xee, 0xee]
    );
    assert_eq!(m.r32(4), 0x0102_0304);
    m.write(1, &[1, 2]);
    assert_eq!(m.read(0, 4), vec![7, 1, 2, 0xee]);
}

fn with_args(args: &[u32]) -> Cpu {
    let mut c = Cpu::default();
    for (k, &v) in args.iter().enumerate() {
        c.r[k] = v;
    }
    c
}

#[test]
fn the_routines_on_memory() {
    let mut m = Mem::new();
    m.map(0, b"hello\0world\0hell\0lo\0.....".to_vec());
    let mut c = with_args(&[0]);
    strlen(&mut c, &m);
    assert_eq!(c.r[0], 5);
    let mut c = with_args(&[0, 12]);
    strcmp(&mut c, &m);
    assert_eq!(c.r[0], b'o' as u32);
    let mut c = with_args(&[0, 6]);
    strcmp(&mut c, &m);
    assert_eq!(c.r[0] as i32, b'h' as i32 - b'w' as i32);
    let mut c = with_args(&[0, 12, 4]);
    strncmp(&mut c, &m);
    assert_eq!(c.r[0], 0);
    let mut c = with_args(&[0, 17]);
    strstr(&mut c, &m);
    assert_eq!(c.r[0], 3);
    let mut c = with_args(&[0, 6]);
    strstr(&mut c, &m);
    assert_eq!(c.r[0], 0);
    strcpy(&with_args(&[20, 17]), &mut m);
    assert_eq!(m.read(17, 8), b"lo\0lo\0..");
    strncpy(&with_args(&[0, 17, 4]), &mut m);
    assert_eq!(m.read(0, 6), b"lo\0\0o\0");
    memcpy(&with_args(&[6, 0, 2]), &mut m);
    assert_eq!(m.read(6, 5), b"lorld");
    memmove(&with_args(&[7, 6, 3]), &mut m);
    assert_eq!(m.read(6, 5), b"llord");
    memset(&with_args(&[6, 0x22e, 3]), &mut m);
    assert_eq!(m.read(6, 5), b"...rd");
}

#[test]
fn doubles_are_stored_high_word_first() {
    let mut m = Mem::new();
    m.map(0, vec![0; 32]);
    let mut c = Cpu::default();
    c.fp[2] = 1.5f64.to_bits();
    fpa_stf(&c, &mut m, 2, 1, 0);
    assert_eq!(m.r32(0), 0x3ff8_0000);
    assert_eq!(m.r32(4), 0);
    fpa_ldf(&mut c, &m, 5, 1, 0);
    assert_eq!(f64::from_bits(c.fp[5]), 1.5);
    fpa_stf(&c, &mut m, 2, 2, 12);
    assert_eq!((m.r32(12), m.r32(16), m.r32(20)), (0, 0x3ff8_0000, EXT_TAG));
    fpa_ldf(&mut c, &m, 6, 2, 12);
    assert_eq!(f64::from_bits(c.fp[6]), 1.5);
}

#[test]
fn saved_registers_are_restored_around_the_end() {
    let mut m = Mem::new();
    m.map(0x40, vec![0; 48]);
    let mut c = Cpu::default();
    for k in 0..8 {
        c.fp[k] = (k as f64 + 0.25).to_bits();
    }
    fpa_sfm(&c, &mut m, 6, 4, 0x40);
    let mut d = Cpu::default();
    fpa_lfm(&mut d, &m, 6, 4, 0x40);
    for k in [6, 7, 0, 1] {
        assert_eq!(d.fp[k], c.fp[k]);
    }
    assert_eq!(d.fp[2], 0);
}

#[test]
fn comparisons_set_the_flags() {
    let mut c = Cpu::default();
    fpa_order(&mut c, Order::Less);
    assert_eq!(c.f, flags(true, false, false, false));
    fpa_order(&mut c, Order::Equal);
    assert_eq!(c.f, flags(false, true, true, false));
    fpa_order(&mut c, Order::Greater);
    assert_eq!(c.f, flags(false, false, true, false));
    fpa_order(&mut c, Order::Unordered);
    assert_eq!(c.f, flags(false, false, true, true));
}

#[test]
fn blocks_are_counted_traced_and_remembered() {
    let mut c = Cover::default();
    assert_eq!(
        c.where_from(),
        "\n  (rebuild with `--features xrt-cover` to see where from)"
    );
    for k in 0..70u32 {
        if k == 68 {
            c.trace_start();
        }
        let mut regs = [0u32; 16];
        regs[1] = k;
        c.hit(k % 7, &regs);
    }
    assert_eq!(c.hits(0), 10);
    assert_eq!(c.hits(7), 0);
    assert_eq!(c.trace_take(), vec![5, 6]);
    assert!(c.trace_take().is_empty());
    let r = c.recent();
    assert_eq!(r.len(), 64);
    assert_eq!(r[0].regs[1], 6);
    assert_eq!(r[63].regs[1], 69);
}

#[test]
fn where_from_lists_blocks_and_registers() {
    let mut c = Cover::default();
    let mut regs = [0u32; 16];
    regs[15] = 0xabcd;
    for k in 0..9 {
        c.hit(0x100 + k, &regs);
    }
    let s = c.where_from();
    let lines: Vec<&str> = s.split('\n').collect();
    assert_eq!(lines[0], "");
    assert_eq!(lines[1], "  last blocks entered, oldest first:");
    assert_eq!(
        lines[2],
        "    00000100 00000101 00000102 00000103 00000104 00000105 00000106 00000107"
    );
    assert_eq!(lines[3], "    00000108");
    assert_eq!(lines[4], "  registers on entry to 00000108:");
    assert_eq!(lines[5], "    r0 =00000000 r1 =00000000 r2 =00000000 r3 =00000000");
    assert_eq!(lines[8], "    r12=00000000 r13=00000000 r14=00000000 r15=0000abcd");
    assert_eq!(lines.len(), 9);
}

#[test]
fn a_profile_counts_words_of_code() {
    let mut p = Profile::new();
    p.tick(0x10_0000);
    p.tick(0x10_0004);
    p.tick(0x10_0007);
    p.tick(0x4f_ffff);
    p.tick(0);
    p.tick(0x50_0000);
    assert_eq!(p.take(), vec![(0x10_0000, 1), (0x10_0004, 2), (0x4f_fffc, 1)]);
    assert!(p.take().is_empty());
}
