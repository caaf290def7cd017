use rustretro::text::str_lt;
use rustretro::matchup::{
    cell_decisions, cell_detail, cell_label, clear_force, coverage, current_force, set_force, Coverage,
    MatchupPanel, RoundRecord,
};
use rustretro::memory::{Watch, WatchFormat};

fn round(demo: Option<bool>, b1: u64, b2: u64, p1_block: Option<u64>, frames: u64, style: Option<&str>) -> RoundRecord {
    RoundRecord {
        demo,
        block1_char: Some(b1),
        block2_char: Some(b2),
        p1_block,
        frames: Some(frames),
        style: style.map(|s| s.to_string()),
    }
}

#[test]
fn rounds_tally_into_their_matchup() {
    let mut p = MatchupPanel::new();
    p.tally_round(&round(Some(false), 3, 7, Some(1), 800, Some("rushdown")));
    p.tally_round(&round(Some(false), 7, 3, Some(2), 160, None));
    p.tally_round(&round(Some(true), 3, 7, Some(1), 5000, None));
    p.tally_round(&round(None, 3, 7, Some(1), 5000, None));
    p.tally_round(&round(Some(false), 1, 2, None, 80, Some("zoning")));
    assert_eq!(p.cells.len(), 2);
    assert_eq!(p.cells[0].0, (1, 2));
    let c = p.cell((3, 7)).unwrap();
    assert_eq!(c.rounds, 2);
    assert_eq!(c.frames, 960);
    assert_eq!(c.styles.len(), 2);
    assert_eq!(c.styles[0], ("(untagged)".to_string(), 160));
    assert_eq!(c.styles[1], ("rushdown".to_string(), 800));
    assert_eq!(cell_detail(c), "2 round(s), \u{2248}120 decisions ((untagged) \u{2248}20, rushdown \u{2248}100)");
    assert!(p.cell((7, 3)).is_none());
    assert_eq!(p.rows(), vec![1, 3]);
    assert_eq!(p.columns(&[9, 2, 4]), vec![2, 4, 7, 9]);
}

#[test]
fn cells_read_as_decisions_with_tiers() {
    assert_eq!(cell_decisions(None), 0);
    assert_eq!(coverage(0), Coverage::Never);
    assert_eq!(coverage(999), Coverage::Sparse);
    assert_eq!(coverage(1000), Coverage::Covered);
    assert_eq!(cell_label(0, true), "\u{b7}");
    assert_eq!(cell_label(12, true), "12 \u{2713}");
    assert_eq!(cell_label(12, false), "12");
}

#[test]
fn the_newest_model_per_matchup_wins() {
    let mut p = MatchupPanel::new();
    p.offer_model((Some(1), Some(2)), "a".into(), "m/a".into(), "2025-01-01".into());
    p.offer_model((Some(1), Some(2)), "b".into(), "m/b".into(), "2025-03-01".into());
    p.offer_model((Some(1), Some(2)), "c".into(), "m/c".into(), "2024-12-31".into());
    p.offer_model((None, Some(2)), "d".into(), "m/d".into(), "".into());
    assert_eq!(p.models.len(), 2);
    assert_eq!(p.models[0].1 .0, "b");
    assert!(p.has_model(1, 2));
    assert!(!p.has_model(2, 1));
    assert!(str_lt("", "a") && str_lt("ab", "b") && !str_lt("b", "ab") && !str_lt("a", "a"));
}

fn watch(addr: usize, frozen: bool, v: Option<u32>) -> Watch {
    Watch {
        addr,
        label: "w".into(),
        format: WatchFormat::Hex8,
        frozen,
        frozen_value: v,
        track_changes: false,
        current: None,
        prev_value: None,
    }
}

#[test]
fn forcing_a_fight_replaces_the_selector_watch() {
    let mut ws = vec![watch(0x10, false, None), watch(0x20, true, Some(0x105)), watch(0x20, false, None)];
    assert_eq!(current_force(&ws, 0x20), Some(0x05));
    set_force(&mut ws, 0x20, 7, "Baraka");
    assert_eq!(ws.len(), 3);
    assert_eq!(ws[2].label, "\u{2694} force Baraka fight");
    assert_eq!(current_force(&ws, 0x20), Some(7));
    clear_force(&mut ws, 0x20);
    assert_eq!(ws.len(), 2);
    assert_eq!(current_force(&ws, 0x20), None);
    assert_eq!(ws[0].addr, 0x10);
}
