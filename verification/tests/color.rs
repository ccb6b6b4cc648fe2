use sdr_monitor::color::Color;

#[test]
fn hex_unpacks_the_channels() {
    let c = Color::hex(0x742975);
    assert_eq!((c.r, c.g, c.b), (0x74, 0x29, 0x75));
}

#[test]
fn packing_restores_the_hex_number() {
    assert_eq!(Color::hex(0xDD562E).to_u32(), 0xDD562E);
    assert_eq!(Color::hex(0x000000).to_u32(), 0x000000);
    assert_eq!(Color::hex(0xFFFFFF).to_u32(), 0xFFFFFF);
}

#[test]
fn hex_ignores_bits_above_the_low_twenty_four() {
    assert_eq!(Color::hex(0xAB_FD9719).to_u32(), 0xFD9719);
}

#[test]
fn new_packs_in_rgb_order() {
    assert_eq!(Color::new(1, 2, 3).to_u32(), 0x010203);
}
