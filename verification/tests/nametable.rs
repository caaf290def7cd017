use rustretro::chr_rom::ChrStatus;
use rustretro::nametable::{render_nametable_image, wanted_tables, NametablePanel, NametableView, ATTR_OFFSET, NT_BYTES};
use rustretro::nes::{nes_rgb, ColorSource, TILE_PX};

const NT_PX_W: usize = 256;

#[test]
fn render_nametable_composes_attr_palram_and_chr() {
    // CHR: tile 0 = all pixel-value 0, tile 1 = all pixel-value 3.
    let mut chr_indices = vec![0u8; 2 * TILE_PX * TILE_PX];
    for p in &mut chr_indices[TILE_PX * TILE_PX..] {
        *p = 3;
    }
    let mut nt = vec![0u8; NT_BYTES];
    nt[0] = 1; // cell (0,0) -> tile 1
    nt[2] = 1; // cell (2,0) -> tile 1, other quadrant
    nt[ATTR_OFFSET] = 0b00_00_01_10; // TL=2, TR=1
    let mut palram = [0u8; 32];
    palram[0] = 0x0F;
    palram[1 * 4 + 3] = 0x21;
    palram[2 * 4 + 3] = 0x20;
    let colors = ColorSource::Palram(palram);

    let img = render_nametable_image(&nt, &chr_indices, 0, &colors);
    assert_eq!(img.len(), 256 * 240);
    let px = |x: usize, y: usize| img[y * NT_PX_W + x];
    let rgb = |c: [u8; 4]| [c[0], c[1], c[2]];
    assert_eq!(rgb(px(0, 0)), nes_rgb(0x20));
    assert_eq!(rgb(px(7, 7)), nes_rgb(0x20));
    assert_eq!(rgb(px(16, 0)), nes_rgb(0x21));
    assert_eq!(rgb(px(8, 0)), nes_rgb(0x0F));
    assert_eq!(rgb(px(255, 239)), nes_rgb(0x0F));
}

#[test]
fn render_nametable_out_of_chr_tile_stays_backdrop() {
    let chr_indices = vec![3u8; TILE_PX * TILE_PX];
    let mut nt = vec![0u8; NT_BYTES];
    nt[0] = 200;
    let mut palram = [0u8; 32];
    palram[0] = 0x21;
    let img = render_nametable_image(&nt, &chr_indices, 0, &ColorSource::Palram(palram));
    let c = img[0];
    assert_eq!([c[0], c[1], c[2]], nes_rgb(0x21));
}

#[test]
fn gray_fallback_uses_structure_ramp_not_colors() {
    let chr_indices = vec![3u8; TILE_PX * TILE_PX];
    let nt = vec![0u8; NT_BYTES];
    let img = render_nametable_image(&nt, &chr_indices, 0, &ColorSource::GrayStructureOnly);
    let c = img[0];
    assert_eq!([c[0], c[1], c[2]], [255, 255, 255]);
}

fn ines(prg: u8, chr: u8) -> Vec<u8> {
    let mut rom = vec![0u8; 16];
    rom[0..4].copy_from_slice(&[0x4E, 0x45, 0x53, 0x1A]);
    rom[4] = prg;
    rom[5] = chr;
    rom
}

#[test]
fn nametable_non_nes_core_shows_explicit_status() {
    let mut p = NametablePanel::new();
    p.load(Some("megadrive"), Some(vec![1, 2, 3]), true, None);
    assert!(matches!(&p.status, ChrStatus::NotNes(s) if s == "megadrive"));
    assert!(p.chr_indices.is_empty());
}

#[test]
fn nametable_no_rom_shows_explicit_status() {
    let mut p = NametablePanel::new();
    p.load(None, None, false, None);
    assert!(matches!(p.status, ChrStatus::NoRom));
}

#[test]
fn nametable_chr_ram_cart_shows_explicit_status() {
    let mut rom = ines(1, 0);
    rom.extend(std::iter::repeat(0u8).take(0x4000));
    let mut p = NametablePanel::new();
    p.load(Some("nes"), Some(rom), true, None);
    match &p.status {
        ChrStatus::NoChr(msg) => {
            assert!(msg.contains("CHR-RAM"), "msg: {msg}");
            assert!(msg.starts_with("No CHR-ROM in this file to render tiles from: "));
        }
        _ => panic!("expected NoChr"),
    }
}

#[test]
fn cnrom_shaped_rom_computes_bank_count_from_chr_len() {
    let mut rom = ines(2, 4);
    rom[6] = 0x30;
    rom.extend(std::iter::repeat(0xAA).take(0x8000));
    rom.extend(std::iter::repeat(0xCC).take(0x8000));
    let mut p = NametablePanel::new();
    p.load(Some("nes"), Some(rom), true, None);
    assert!(matches!(p.status, ChrStatus::Ready));
    assert_eq!(p.bank_count, 0x8000 / 8192);
    assert_eq!(p.bank_count, 4);
    p.selected_bank = 2;
    p.pattern_table = 1;
    assert_eq!(p.tile_base(), 1280);
}

#[test]
fn view_picks_the_tables_shown() {
    assert_eq!(wanted_tables(NametableView::Nt0), vec![0]);
    assert_eq!(wanted_tables(NametableView::Nt1), vec![1]);
    assert_eq!(wanted_tables(NametableView::Both), vec![0, 1]);
}
