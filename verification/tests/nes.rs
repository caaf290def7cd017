use rustretro::nes::{
    attr_palette_select, chr_span, decode_2bpp_planar_indices, decode_active_sprites,
    encode_tile_bytes, nes_rgb, ChrSpanError, NES_MASTER_PALETTE,
};

#[test]
fn encode_tile_bytes_round_trips_through_decode() {
    let indices: Vec<u8> = (0..64).map(|i| (i % 4) as u8).collect();
    let bytes = encode_tile_bytes(&indices);
    let decoded = decode_2bpp_planar_indices(&bytes);
    assert_eq!(decoded, indices);
}

#[test]
fn encode_tile_bytes_all_same_index_round_trips() {
    for idx in 0u8..4 {
        let indices = vec![idx; 64];
        let bytes = encode_tile_bytes(&indices);
        let decoded = decode_2bpp_planar_indices(&bytes);
        assert_eq!(decoded, indices, "index {idx} did not round-trip");
    }
}

fn tcsurfdesign_shaped_rom() -> Vec<u8> {
    let mut rom = vec![0u8; 16];
    rom[0..4].copy_from_slice(&[0x4E, 0x45, 0x53, 0x1A]);
    rom[4] = 2;
    rom[5] = 4;
    rom[6] = 0x30;
    rom.extend(std::iter::repeat(0xAA).take(0x8000));
    rom.extend(std::iter::repeat(0xCC).take(0x8000));
    rom
}

#[test]
fn chr_span_matches_tcsurfdesign_shaped_header() {
    let rom = tcsurfdesign_shaped_rom();
    assert_eq!(chr_span(&rom), Ok((0x8010, 0x10010)));
}

#[test]
fn chr_span_reports_chr_ram_trainer_and_truncation() {
    let mut rom = vec![0u8; 16];
    rom[0..4].copy_from_slice(&[0x4E, 0x45, 0x53, 0x1A]);
    rom[4] = 1;
    rom[5] = 0;
    rom.extend(std::iter::repeat(0u8).take(0x4000));
    assert_eq!(chr_span(&rom), Err(ChrSpanError::ChrRam));
    assert!(chr_span(&rom).unwrap_err().message().contains("CHR-RAM"));
    rom[5] = 1;
    assert_eq!(chr_span(&rom), Err(ChrSpanError::Truncated));
    rom[6] = 0x04;
    rom.extend(std::iter::repeat(0u8).take(512 + 0x2000));
    assert_eq!(chr_span(&rom), Ok((16 + 512 + 0x4000, 16 + 512 + 0x4000 + 0x2000)));
    assert_eq!(chr_span(&[1, 2, 3]), Err(ChrSpanError::NotInes));
}

#[test]
fn decode_reads_both_bit_planes_msb_first() {
    let mut tile = [0u8; 16];
    tile[0] = 0b1000_0001;
    tile[8] = 0b1100_0000;
    let px = decode_2bpp_planar_indices(&tile);
    assert_eq!(px.len(), 64);
    assert_eq!(&px[0..8], &[3, 2, 0, 0, 0, 0, 0, 1]);
    assert!(decode_2bpp_planar_indices(&tile[..15]).is_empty());
}

#[test]
fn attr_palette_select_picks_the_right_quadrant() {
    let mut attrs = [0u8; 64];
    attrs[0] = 0b11_10_01_00;
    attrs[1] = 0b00_01_10_11;
    attrs[7 * 8] = 0b11_10_01_00;

    assert_eq!(attr_palette_select(&attrs, 0, 0), 0);
    assert_eq!(attr_palette_select(&attrs, 1, 1), 0);
    assert_eq!(attr_palette_select(&attrs, 2, 0), 1);
    assert_eq!(attr_palette_select(&attrs, 3, 1), 1);
    assert_eq!(attr_palette_select(&attrs, 0, 2), 2);
    assert_eq!(attr_palette_select(&attrs, 1, 3), 2);
    assert_eq!(attr_palette_select(&attrs, 2, 2), 3);
    assert_eq!(attr_palette_select(&attrs, 3, 3), 3);

    assert_eq!(attr_palette_select(&attrs, 4, 0), 3);
    assert_eq!(attr_palette_select(&attrs, 6, 0), 2);
    assert_eq!(attr_palette_select(&attrs, 4, 2), 1);
    assert_eq!(attr_palette_select(&attrs, 6, 2), 0);

    assert_eq!(attr_palette_select(&attrs, 0, 28), 0);
    assert_eq!(attr_palette_select(&attrs, 2, 29), 1);
}

#[test]
fn attr_palette_select_zero_attrs_is_palette_zero_everywhere() {
    let attrs = [0u8; 64];
    for ty in 0..30 {
        for tx in 0..32 {
            assert_eq!(attr_palette_select(&attrs, tx, ty), 0);
        }
    }
}

#[test]
fn master_palette_has_64_entries_and_known_anchors() {
    assert_eq!(NES_MASTER_PALETTE.len(), 64);
    assert_eq!(nes_rgb(0x00), [84, 84, 84]);
    assert_eq!(nes_rgb(0x0F), [0, 0, 0]);
    assert_eq!(nes_rgb(0x20), [236, 238, 236]);
    assert_eq!(nes_rgb(0x21), [76, 154, 236]);
    assert_eq!(nes_rgb(0x40), nes_rgb(0x00));
    assert_eq!(nes_rgb(0xFF), nes_rgb(0x3F));
}

const OAM_BYTES: usize = 256;

#[test]
fn decode_active_sprites_filters_and_decodes_attrs() {
    let mut oam = [0xFFu8; OAM_BYTES];
    oam[0] = 0x40;
    oam[1] = 0x08;
    oam[2] = 0x03;
    oam[3] = 100;
    oam[4] = 0xEF;
    oam[5] = 0x11;
    oam[6] = 0x00;
    oam[7] = 0x00;
    oam[8] = 0x50;
    oam[9] = 0x19;
    oam[10] = 0xE1;
    oam[11] = 200;
    oam[12] = 0xEE;
    oam[13] = 0x22;
    oam[14] = 0x00;
    oam[15] = 5;

    let sprites = decode_active_sprites(&oam);
    assert_eq!(sprites.len(), 3, "0xEF is inactive; 0xEE is active");
    assert_eq!(sprites[0].index, 0);
    assert_eq!(sprites[1].index, 2, "index order preserved, slot 1 skipped");
    assert_eq!(sprites[2].index, 3);

    assert_eq!(sprites[0].palette(), 3);
    assert!(!sprites[0].h_flip() && !sprites[0].v_flip() && !sprites[0].behind_bg());
    assert_eq!(sprites[0].x, 100);
    assert_eq!(sprites[0].tile, 0x08);

    assert_eq!(sprites[1].palette(), 1);
    assert!(sprites[1].h_flip() && sprites[1].v_flip() && sprites[1].behind_bg());
}

#[test]
fn decode_active_sprites_all_parked_is_empty() {
    let oam = [0xF0u8; OAM_BYTES];
    assert!(decode_active_sprites(&oam).is_empty());
}

#[test]
fn decode_active_sprites_short_image_keeps_whole_entries() {
    let oam = [0x10u8; 10];
    let sprites = decode_active_sprites(&oam);
    assert_eq!(sprites.len(), 2);
    assert_eq!(sprites[1].index, 1);
}
