use rustretro::chr_rom::ChrStatus;
use rustretro::nes::{nes_master_rgba, Sprite, TILE_PX};
use rustretro::sprites::{
    composite_sprites, flip_label, pose_contract_json, MetaspritePanel, SpriteColors, BACKDROP_RGBA,
    SCREEN_H, SCREEN_W,
};

#[test]
fn pose_contract_json_normalizes_and_maps_subpalettes() {
    // Two sprites forming a 2x1 metasprite at X=104/112, Y=76.
    let sprites = vec![
        Sprite { index: 60, y: 76, tile: 0x08, attr: 0x03, x: 104 },
        Sprite { index: 61, y: 76, tile: 0x09, attr: 0x43, x: 112 }, // H-flip (bit6)
    ];
    let mut pal = [0u8; 32];
    pal[0] = 0x0F; // backdrop
    // sprite subpalette 3 = group 7 = bytes 28..32
    pal[29] = 0x16;
    pal[30] = 0x27;
    pal[31] = 0x30;
    let js = pose_contract_json(&sprites, Some(&pal), false, 2);
    // Positions normalized to bbox min (dx 0 and 8; dy 0).
    assert!(js.contains("\"dx\": 0"));
    assert!(js.contains("\"dx\": 8"));
    assert!(js.contains("\"sprite_size\": \"8x8\""));
    assert!(js.contains("\"chr_bank_for_player\": 2"));
    // attr 0x43 → subpalette group 4 + 3 = 7, H-flip true.
    assert!(js.contains("\"subpalette\": 7"));
    assert!(js.contains("\"flip_h\": true"));
    // group-7 opaque colors mapped through the master palette.
    assert!(js.contains("\"7\": [\"#"));
    // PALRAM-absent path is honest, not fabricated.
    let js2 = pose_contract_json(&sprites, None, true, 0);
    assert!(js2.contains("PALRAM unreadable"));
    assert!(js2.contains("\"sprite_size\": \"8x16\""));
}

#[test]
fn pose_contract_json_exact_bbox_and_colors() {
    let sprites = vec![
        Sprite { index: 60, y: 76, tile: 0x08, attr: 0x03, x: 104 },
        Sprite { index: 61, y: 80, tile: 0x09, attr: 0xC3, x: 112 },
    ];
    let mut pal = [0u8; 32];
    pal[29] = 0x16;
    pal[30] = 0x27;
    pal[31] = 0x30;
    let js = pose_contract_json(&sprites, Some(&pal), false, 2);
    // Width 112 + 8 - 104, height 80 + 8 - 76.
    assert!(js.contains("\"bbox\": [16, 12]"), "{js}");
    assert!(js.contains("\"7\": [\"#982220\",\"#D48820\",\"#ECEEEC\"]"), "{js}");
    assert!(js.contains("\"dy\": 4"));
    assert!(js.contains("\"flip_v\": true"));
    assert!(js.contains("\"4\": [\"#545454\",\"#545454\",\"#545454\"]"), "{js}");
    assert!(js.starts_with("{\n  \"_note\": "));
    assert!(js.ends_with("\n  ]\n}"));
    // 8x16 sprites make the box 16 pixels taller than the lowest row.
    let js16 = pose_contract_json(&sprites, None, true, 0);
    assert!(js16.contains("\"bbox\": [16, 20]"), "{js16}");
    // No sprites: an empty list and the bare tile size.
    let empty = pose_contract_json(&[], None, false, 1);
    assert!(empty.contains("\"bbox\": [8, 8]"));
    assert!(empty.contains("\"sprites\": [\n\n  ]"));
}

#[test]
fn sprite_pixel_index_zero_is_transparent() {
    let mut palram = [0u8; 32];
    // Sprite sub-palette 0 (group 4): bytes 16..20. Give value-3 a real color.
    palram[16 + 0 * 4 + 3] = 0x21; // sky blue
    let colors = SpriteColors::Palram(palram);
    assert_eq!(colors.rgba(0, 0), None, "index 0 is transparent for sprites");
    assert_eq!(colors.rgba(3, 0), Some(nes_master_rgba(0x21)));
}

#[test]
fn gray_sprite_colors_use_the_structure_ramp() {
    let colors = SpriteColors::GrayStructureOnly;
    assert_eq!(colors.rgba(0, 2), None);
    assert_eq!(colors.rgba(1, 2), Some([85, 85, 85, 255]));
    assert_eq!(colors.rgba(3, 2), Some([255, 255, 255, 255]));
}

#[test]
fn composite_leaves_backdrop_where_sprite_pixels_are_transparent() {
    // CHR: tile 0 has a single opaque pixel (value 3) at (0,0).
    let mut chr = vec![0u8; TILE_PX * TILE_PX];
    chr[0] = 3;
    let mut palram = [0u8; 32];
    palram[16 + 3] = 0x20; // sub-pal 0, value 3 => white
    let colors = SpriteColors::Palram(palram);

    let sprite = Sprite { index: 0, y: 10, tile: 0, attr: 0x00, x: 20 };
    let img = composite_sprites(&[sprite], &chr, 0, false, 0, &colors);
    assert_eq!(img.len(), SCREEN_W * SCREEN_H);

    let px = |x: usize, y: usize| img[y * SCREEN_W + x];
    assert_eq!(px(20, 10), nes_master_rgba(0x20));
    assert_eq!(px(21, 10), BACKDROP_RGBA);
    assert_eq!(px(20, 11), BACKDROP_RGBA);
    assert_eq!(px(0, 0), BACKDROP_RGBA);
}

#[test]
fn composite_honors_horizontal_flip() {
    let mut chr = vec![0u8; TILE_PX * TILE_PX];
    for row in 0..TILE_PX {
        chr[row * TILE_PX] = 3; // column 0 of every row
    }
    let mut palram = [0u8; 32];
    palram[16 + 3] = 0x20;
    let colors = SpriteColors::Palram(palram);

    let s = Sprite { index: 0, y: 0, tile: 0, attr: 0x40, x: 0 }; // H-flip
    let img = composite_sprites(&[s], &chr, 0, false, 0, &colors);
    let px = |x: usize, y: usize| img[y * SCREEN_W + x];
    assert_eq!(px(7, 0), nes_master_rgba(0x20));
    assert_eq!(px(0, 0), BACKDROP_RGBA);
}

#[test]
fn composite_out_of_chr_tile_stays_backdrop() {
    let chr = vec![3u8; TILE_PX * TILE_PX];
    let mut palram = [0u8; 32];
    palram[16 + 3] = 0x21;
    let colors = SpriteColors::Palram(palram);
    let s = Sprite { index: 0, y: 0, tile: 200, attr: 0, x: 0 };
    let img = composite_sprites(&[s], &chr, 0, false, 0, &colors);
    assert_eq!(img[0], BACKDROP_RGBA);
}

#[test]
fn composite_lower_oam_index_wins_and_8x16_stacks() {
    // Tile 0 all value 1, tile 1 all value 2.
    let mut chr = vec![1u8; 2 * 64];
    for p in &mut chr[64..] {
        *p = 2;
    }
    let mut palram = [0u8; 32];
    palram[16 + 1] = 0x21;
    palram[16 + 2] = 0x16;
    let colors = SpriteColors::Palram(palram);
    let a = Sprite { index: 0, y: 0, tile: 1, attr: 0, x: 0 };
    let b = Sprite { index: 1, y: 0, tile: 0, attr: 0, x: 4 };
    let img = composite_sprites(&[a, b], &chr, 0, false, 0, &colors);
    assert_eq!(img[4], nes_master_rgba(0x16), "sprite 0 is drawn on top");
    assert_eq!(img[9], nes_master_rgba(0x21));
    // 8x16: tile 0 on top, tile 1 below; flipped vertically they swap.
    let tall = Sprite { index: 0, y: 0, tile: 0, attr: 0, x: 0 };
    let img = composite_sprites(&[tall], &chr, 0, true, 0, &colors);
    assert_eq!(img[0], nes_master_rgba(0x21));
    assert_eq!(img[8 * SCREEN_W], nes_master_rgba(0x16));
    let flipped = Sprite { index: 0, y: 0, tile: 0, attr: 0x80, x: 0 };
    let img = composite_sprites(&[flipped], &chr, 0, true, 0, &colors);
    assert_eq!(img[0], nes_master_rgba(0x16));
    assert_eq!(img[8 * SCREEN_W], nes_master_rgba(0x21));
}

fn ines(prg: u8, chr: u8) -> Vec<u8> {
    let mut rom = vec![0u8; 16];
    rom[0..4].copy_from_slice(&[0x4E, 0x45, 0x53, 0x1A]);
    rom[4] = prg;
    rom[5] = chr;
    rom
}

#[test]
fn metasprite_non_nes_core_shows_explicit_status() {
    let mut p = MetaspritePanel::new();
    p.load(Some("megadrive"), Some(vec![1, 2, 3]), true, None);
    assert!(matches!(&p.status, ChrStatus::NotNes(s) if s == "megadrive"));
    assert!(p.chr_indices.is_empty());
}

#[test]
fn metasprite_no_rom_shows_explicit_status() {
    let mut p = MetaspritePanel::new();
    p.load(None, None, false, None);
    assert!(matches!(p.status, ChrStatus::NoRom));
}

#[test]
fn metasprite_chr_ram_cart_shows_explicit_status() {
    let mut rom = ines(1, 0);
    rom.extend(std::iter::repeat(0u8).take(0x4000));
    let mut p = MetaspritePanel::new();
    p.load(Some("nes"), Some(rom), true, None);
    match &p.status {
        ChrStatus::NoChr(msg) => assert!(msg.contains("CHR-RAM"), "msg: {msg}"),
        _ => panic!("expected NoChr"),
    }
}

#[test]
fn cnrom_shaped_rom_computes_bank_count_and_base() {
    let mut rom = ines(2, 4);
    rom[6] = 0x30;
    rom.extend(std::iter::repeat(0xAA).take(0x8000));
    rom.extend(std::iter::repeat(0xCC).take(0x8000));
    let mut p = MetaspritePanel::new();
    p.load(Some("nes"), Some(rom), true, None);
    assert!(matches!(p.status, ChrStatus::Ready));
    assert_eq!(p.bank_count, 0x8000 / 8192);
    assert_eq!(p.bank_count, 4);
    p.selected_bank = 2;
    assert_eq!(p.bank_base(), 2 * 512);
}

#[test]
fn metasprite_load_falls_back_to_the_file_bytes() {
    let mut rom = ines(1, 1);
    rom.extend(std::iter::repeat(0u8).take(0x4000 + 0x2000));
    let mut p = MetaspritePanel::new();
    p.load(Some("nes"), Some(Vec::new()), true, Some(rom));
    assert!(matches!(p.status, ChrStatus::Ready));
    assert_eq!(p.chr_indices.len(), 512 * 64);
    let mut q = MetaspritePanel::new();
    q.load(Some("nes"), None, true, None);
    assert!(matches!(q.status, ChrStatus::NoRom));
    let mut r = MetaspritePanel::new();
    r.load(None, Some(vec![1]), false, None);
    assert!(matches!(&r.status, ChrStatus::NotNes(s) if s == "unrecognized"));
}

#[test]
fn tile_diff_tracks_emulation_frames_only() {
    let mut p = MetaspritePanel::new();
    let mut oam = [0u8; 256];
    oam[1] = 5;
    p.observe_frame(&oam, 10);
    assert!(!p.changed[0], "first observation marks nothing");
    oam[1] = 6;
    p.observe_frame(&oam, 10);
    assert!(!p.changed[0], "same emulation frame: no recompute");
    p.observe_frame(&oam, 11);
    assert!(p.changed[0]);
    assert!(!p.changed[1]);
    p.observe_frame(&oam, 12);
    assert!(!p.changed[0]);
}

#[test]
fn sprite_layout_prefers_live_ppuctrl() {
    let mut p = MetaspritePanel::new();
    p.op_size16 = true;
    p.op_pt8 = 1;
    assert_eq!(p.sprite_layout(Some(0x20)), (true, 0));
    assert_eq!(p.sprite_layout(Some(0x08)), (false, 1));
    assert_eq!(p.sprite_layout(None), (true, 1));
    assert_eq!(flip_label(true, true), "HV");
    assert_eq!(flip_label(false, true), "V");
}

#[test]
fn pose_contract_json_is_valid_json_with_and_without_palram() {
    let sprites = vec![
        Sprite { index: 60, y: 76, tile: 0x08, attr: 0x03, x: 104 },
        Sprite { index: 61, y: 76, tile: 0x09, attr: 0x43, x: 112 },
    ];
    let pal = [0x0Fu8; 32];
    let with: serde_json::Value = serde_json::from_str(&pose_contract_json(&sprites, Some(&pal), false, 2)).unwrap();
    assert_eq!(with["sprites"].as_array().map(|a| a.len()), Some(2));
    assert!(with["subpalettes"].is_object());
    let without: serde_json::Value = serde_json::from_str(&pose_contract_json(&sprites, None, true, 0)).unwrap();
    assert!(without["subpalettes"].is_null());
    assert!(without["subpalettes_note"].as_str().unwrap().contains("PALRAM unreadable"));
    let empty: serde_json::Value = serde_json::from_str(&pose_contract_json(&[], None, false, 1)).unwrap();
    assert_eq!(empty["bbox"][0].as_u64(), Some(8));
    assert_eq!(empty["bbox"][1].as_u64(), Some(8));
}
