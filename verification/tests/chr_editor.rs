use rustretro::chr_editor::{edited_name, length_refusal, saved_note, ChrEditor, TILES_PER_BANK};
use rustretro::chr_rom::ChrStatus;

fn tcsurfdesign_shaped_rom() -> Vec<u8> {
    let mut rom = vec![0u8; 16];
    rom[0..4].copy_from_slice(&[0x4E, 0x45, 0x53, 0x1A]);
    rom[4] = 2;
    rom[5] = 4;
    rom[6] = 0x30;
    rom.extend(std::iter::repeat(0xAA).take(0x8000));
    rom.extend(std::iter::repeat(0xCC).take(0x8000));
    rom
}

fn loaded() -> ChrEditor {
    let mut editor = ChrEditor::new();
    editor.load(Some("nes"), Some(tcsurfdesign_shaped_rom()), true, None, "x_edited.nes".to_string());
    editor
}

#[test]
fn load_computes_generic_tile_and_bank_counts() {
    let editor = loaded();
    assert!(matches!(editor.status, ChrStatus::Ready));
    assert_eq!(editor.tile_count, editor.chr_len / 16);
    assert_eq!(editor.tile_count, 0x8000 / 16);
    assert_eq!(editor.bank_count, editor.tile_count.div_ceil(TILES_PER_BANK));
    assert_eq!(editor.bank_count, 4);
    assert_eq!(editor.save_path_input, "x_edited.nes");
}

#[test]
fn non_nes_core_shows_explicit_message_not_a_crash() {
    let mut editor = ChrEditor::new();
    editor.load(Some("megadrive"), Some(vec![1, 2, 3]), true, None, String::new());
    assert!(matches!(&editor.status, ChrStatus::NotNes(s) if s == "megadrive"));
    assert!(editor.file_bytes.is_empty());
}

#[test]
fn no_rom_shows_explicit_message() {
    let mut editor = ChrEditor::new();
    editor.load(None, None, false, None, String::new());
    assert!(matches!(editor.status, ChrStatus::NoRom));
}

#[test]
fn chr_ram_cart_shows_explicit_message_no_fabricated_tiles() {
    let mut rom = vec![0u8; 16];
    rom[0..4].copy_from_slice(&[0x4E, 0x45, 0x53, 0x1A]);
    rom[4] = 1;
    rom[5] = 0;
    rom.extend(std::iter::repeat(0u8).take(0x4000));
    let mut editor = ChrEditor::new();
    editor.load(Some("nes"), Some(rom), true, None, String::new());
    match &editor.status {
        ChrStatus::NoChr(msg) => assert!(msg.contains("CHR-RAM"), "msg: {msg}"),
        _ => panic!("expected NoChr"),
    }
    assert!(editor.tile_count == 0 && editor.chr_indices.is_empty());
}

#[test]
fn a_file_without_an_ines_header_has_nothing_to_edit() {
    let mut editor = ChrEditor::new();
    editor.load(Some("nes"), Some(vec![1, 2, 3]), true, None, String::new());
    assert!(matches!(&editor.status, ChrStatus::NoChr(m) if m.starts_with("This file has no iNES header")));
}

#[test]
fn save_reconstruction_leaves_prg_untouched_and_preserves_length() {
    let rom = tcsurfdesign_shaped_rom();
    let mut editor = loaded();
    let prg_before = editor.file_bytes[editor.prg_start..editor.prg_start + editor.prg_len].to_vec();
    editor.draw_index = 1;
    editor.paint_pixel(5, 0, 0);
    assert!(editor.dirty_tiles.contains(&5));
    let out = editor.rebuild_for_save().expect("lengths agree");
    assert_eq!(out.len(), rom.len());
    assert_eq!(&out[0..16], &rom[0..16]);
    assert_eq!(&out[editor.prg_start..editor.prg_start + editor.prg_len], &prg_before[..]);
    let tile_off = editor.chr_start + 5 * 16;
    assert_ne!(&out[tile_off..tile_off + 16], &rom[tile_off..tile_off + 16]);
    for i in editor.chr_start..editor.chr_start + editor.chr_len {
        if out[i] != rom[i] {
            assert!(i >= tile_off && i < tile_off + 16, "unexpected diff outside edited tile at {i}");
        }
    }
    assert_eq!(saved_note("a.nes", 1, out.len()), "Saved a.nes (1 tile(s) patched, 65552 bytes)");
}

#[test]
fn a_trainer_makes_the_rebuild_refuse() {
    let mut rom = vec![0u8; 16];
    rom[0..4].copy_from_slice(&[0x4E, 0x45, 0x53, 0x1A]);
    rom[4] = 1;
    rom[5] = 1;
    rom[6] = 0x04;
    rom.extend(std::iter::repeat(0u8).take(512 + 0x4000 + 0x2000));
    let mut editor = ChrEditor::new();
    editor.load(Some("nes"), Some(rom), true, None, String::new());
    assert!(matches!(editor.status, ChrStatus::Ready));
    let total = 16 + 512 + 0x4000 + 0x2000;
    assert_eq!(editor.rebuild_for_save(), Err((total - 512, total)));
    assert_eq!(
        length_refusal(total - 512, total),
        format!("FAILED: reconstructed length {} != source length {} \u{2014} refusing to write", total - 512, total)
    );
}

#[test]
fn undo_restores_pre_edit_bytes_but_leaves_dirty_flag() {
    let mut editor = loaded();
    let tile_off = editor.chr_start;
    let before = editor.file_bytes[tile_off..tile_off + 16].to_vec();
    let idx_before = editor.chr_indices.clone();
    editor.draw_index = 0;
    editor.paint_pixel(0, 0, 0);
    assert!(editor.dirty_tiles.contains(&0));
    assert_ne!(editor.file_bytes[tile_off..tile_off + 16], before[..]);
    assert_eq!(editor.tile_indices(0)[0], 0);
    editor.undo();
    assert_eq!(editor.file_bytes[tile_off..tile_off + 16], before[..]);
    assert_eq!(editor.chr_indices, idx_before);
    assert!(editor.dirty_tiles.contains(&0));
    // Painting the color a pixel already has records nothing.
    editor.draw_index = 3;
    editor.paint_pixel(0, 0, 0);
    assert!(editor.undo_stack.is_empty());
    assert_eq!(edited_name("game", 0), "game_edited.nes");
    assert_eq!(edited_name("game", 2), "game_edited-2.nes");
}
