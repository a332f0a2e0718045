use loqng::codec::nb::{
    add_second_pass, fold_innovation, next_gain_slot, ol_gain_bits, NB_LSP_MARGIN, SB_LSP_MARGIN,
};

#[test]
fn the_two_bands_use_different_lsp_margins() {
    assert_eq!(NB_LSP_MARGIN, 16);
    assert_eq!(SB_LSP_MARGIN, 410);
    assert_ne!(NB_LSP_MARGIN, SB_LSP_MARGIN);
    assert_eq!(SB_LSP_MARGIN, loqng::codec::sb::LSP_MARGIN);
}

#[test]
fn gain_width_hinges_on_an_lpc_order_of_fifteen() {
    assert_eq!(ol_gain_bits(15), 4);
    assert_eq!(ol_gain_bits(10), 5);
    assert_eq!(ol_gain_bits(8), 5);
    assert_eq!(ol_gain_bits(16), 5);
}

#[test]
fn folding_rounds_before_shifting() {
    assert_eq!(fold_innovation(0, 0), 0);
    assert_eq!(fold_innovation(0x2000, 0), 1);
    assert_eq!(fold_innovation(0x1fff, 0), 0);
    assert_eq!(fold_innovation(0, 0x0fff), 0);
    assert_eq!(fold_innovation(0, 0x1000), 1);
    assert_eq!(fold_innovation(0, 0x3000), 2);
}

#[test]
fn the_second_pass_accumulates_rather_than_replacing() {
    let first = fold_innovation(0x8000, 0);
    assert_eq!(first, 2);
    assert_eq!(add_second_pass(first, 0x8000), 4);
    assert_eq!(add_second_pass(first, 0), 2);
}

#[test]
fn the_gain_ring_wraps_at_three() {
    assert_eq!(next_gain_slot(0), 1);
    assert_eq!(next_gain_slot(1), 2);
    assert_eq!(next_gain_slot(2), 0);
}
