use rustretro::vdp::decode_vdp_register;

#[test]
fn reg01_display_on() {
    let result = decode_vdp_register(1, 0b0100_0000);
    assert!(result.contains("Display ON"), "Expected 'Display ON' in decoded output, got: {result}");
}

#[test]
fn reg01_display_off_and_dma_enable() {
    let result = decode_vdp_register(1, 0b0001_0100);
    assert!(result.contains("Display OFF"), "Expected 'Display OFF', got: {result}");
    assert!(result.contains("DMA enable"), "Expected 'DMA enable', got: {result}");
}

#[test]
fn reg00_hint_enable() {
    let result = decode_vdp_register(0, 0b0001_0000);
    assert!(result.contains("HINT enable"), "Expected 'HINT enable', got: {result}");
}

#[test]
fn reg07_background_color() {
    let result = decode_vdp_register(7, 0x25);
    assert!(result.contains("palette 2"), "Expected 'palette 2', got: {result}");
    assert!(result.contains("entry 5"), "Expected 'entry 5', got: {result}");
}

#[test]
fn reg0a_hint_counter() {
    let result = decode_vdp_register(10, 7);
    assert!(result.contains("8 scanlines"), "Expected '8 scanlines', got: {result}");
}

#[test]
fn reg0c_h40_mode() {
    let result = decode_vdp_register(12, 0b1000_0001);
    assert!(result.contains("H40"), "Expected 'H40' in decoded output, got: {result}");
}

#[test]
fn reg10_plane_size() {
    let result = decode_vdp_register(16, 0b0000_0001);
    assert!(result.contains("H=64 cells"), "Expected 'H=64 cells', got: {result}");
    assert!(result.contains("V=32 cells"), "Expected 'V=32 cells', got: {result}");
}

#[test]
fn full_texts_match_the_reference_formatting() {
    assert_eq!(
        decode_vdp_register(0, 0),
        "Mode 1: HINT disable, Megadrive mode"
    );
    assert_eq!(
        decode_vdp_register(0, 0x3F),
        "Mode 1: Freeze HV counter, HINT enable, Palette: M5=0 palettes, HV latch enable, SMS/GG mode, SMS display disable"
    );
    assert_eq!(
        decode_vdp_register(2, 0x38),
        "Plane A nametable: VRAM $E000  (raw bits[5:3]=111)"
    );
    assert_eq!(
        decode_vdp_register(3, 0x7E),
        "Window nametable: H40 VRAM $FC00 / H32 VRAM $F800"
    );
    assert_eq!(decode_vdp_register(4, 0x05), "Plane B nametable: VRAM $A000  (raw bits[2:0]=101)");
    assert_eq!(decode_vdp_register(5, 0x7F), "Sprite table: H40 VRAM $FE00 / H32 VRAM $7E00");
    assert_eq!(decode_vdp_register(6, 0x0A), "Sprite tile base: $0A  (reserved — typically $00)");
    assert_eq!(decode_vdp_register(7, 0x25), "BG color: palette 2 entry 5  (CRAM offset $25)");
    assert_eq!(decode_vdp_register(10, 7), "HINT counter: 7 (interrupt every 8 scanlines)");
    assert_eq!(
        decode_vdp_register(11, 0x0B),
        "Mode 3: EXT int enable, VScroll: full screen, HScroll: per line"
    );
    assert_eq!(
        decode_vdp_register(12, 0x81),
        "Mode 4: H40 (320px), S/H: off, Interlace: off"
    );
    assert_eq!(decode_vdp_register(13, 0x3F), "HScroll table: VRAM $FC00  (bits[5:0]=111111)");
    assert_eq!(
        decode_vdp_register(15, 2),
        "Auto-increment: 2 ($02)  — added to VRAM addr after each data port access"
    );
    assert_eq!(decode_vdp_register(16, 0x32), "Plane size: H=prohibited V=128 cells");
    assert_eq!(decode_vdp_register(17, 0x85), "Window H: display from right at cell 10 ($05*2)");
    assert_eq!(decode_vdp_register(18, 0x1F), "Window V: display above scanline-row 31 ($1F)");
    assert_eq!(
        decode_vdp_register(23, 0xC1),
        "DMA src high: $41  (bits [22:16] of source >> 1)  — DMA: VRAM copy"
    );
    assert_eq!(decode_vdp_register(300, 0xAB), "Unknown register $12C: $AB");
}

#[test]
fn reg0a_full_counter_interrupts_every_256_scanlines() {
    assert_eq!(decode_vdp_register(10, 255), "HINT counter: 255 (interrupt every 256 scanlines)");
}
