use loqng::codec::bits::Bits;
use loqng::codec::lsp::{enforce_margin, unquant, LspStage, BASE_NB, LSP_MAX};

#[test]
fn the_lsp_base_is_linear_in_the_spacing_global() {
    let mut lsp = [0i16; 4];
    let buf = [0u8; 4];
    let mut b = Bits::new(&buf);
    unquant(&mut lsp, 4, 2048, BASE_NB, &[], 0, &mut b);
    for (i, v) in lsp.iter().enumerate() {
        assert_eq!(*v as i32, (i as i32 + 1) << 11);
    }
}

#[test]
fn a_split_stage_refines_only_its_window() {
    let cb0: Vec<i8> = vec![1; 64];
    let cb1: Vec<i8> = vec![1; 64];
    let mut lsp = [0i16; 6];
    let buf = [0u8; 8];
    let mut b = Bits::new(&buf);
    unquant(
        &mut lsp,
        6,
        0,
        BASE_NB,
        &[LspStage::first(&cb0, 3, 6), LspStage::split(&cb1, 3, 2, 4)],
        0,
        &mut b,
    );
    assert_eq!(lsp[0], 0x800 + 32);
    assert_eq!(lsp[3], 0x800 + 32);
    assert_eq!(lsp[4], 0x800 + 32 + 16);
    assert_eq!(lsp[5], 0x800 + 32 + 16);
}

#[test]
fn endpoints_are_clamped_into_range() {
    let mut lsp = [0i16, 5000, 10000, 30000];
    enforce_margin(&mut lsp, 16);
    assert_eq!(lsp[0], 16);
    assert_eq!(lsp[3], (LSP_MAX - 16) as i16);
}

#[test]
fn crowded_pairs_move_apart() {
    let mut lsp = [100i16, 101, 102, 20000];
    let before = lsp;
    enforce_margin(&mut lsp, 410);
    assert_ne!(lsp, before);
    assert!(lsp[1] > before[1], "{lsp:?}");
    assert!(lsp[2] > before[2], "{lsp:?}");
}

#[test]
fn averaging_halves_each_operand_separately() {
    let a = 101i32;
    let b = 203i32;
    assert_eq!((a >> 1) + (b >> 1), 151);
    assert_eq!((a + b) >> 1, 152);
    assert_ne!((a >> 1) + (b >> 1), (a + b) >> 1);
}

#[test]
fn a_short_buffer_gets_only_the_endpoint_clamps() {
    let mut two = [0i16, 30000];
    enforce_margin(&mut two, 16);
    assert_eq!(two, [16, (LSP_MAX - 16) as i16]);

    let mut one = [0i16];
    enforce_margin(&mut one, 16);
    assert_eq!(one, [16]);

    let mut none: [i16; 0] = [];
    enforce_margin(&mut none, 16);
}

#[test]
fn a_zero_margin_leaves_an_ordered_set_alone() {
    let mut lsp = [1000i16, 2000, 3000, 4000];
    let before = lsp;
    enforce_margin(&mut lsp, 0);
    assert_eq!(lsp, before);
}
