use rustretro::framelab::{
    arena_path, cell_hover_text, cell_style, disagreement_line, handoff_heading, measure_command, observation_row,
    one_sided_note, safety_line, startup_faf_text, table_caption, FrameCell, FrameMeasurement, FrameObservation,
    FrameTable,
};

fn blank() -> FrameMeasurement {
    FrameMeasurement {
        on_hit: None,
        on_block: None,
        knockdown: None,
        first_active_frame: None,
        damage: None,
        hits: None,
        wakeup_window: None,
        total: None,
        recovery: None,
    }
}

fn copy(m: &FrameMeasurement) -> FrameMeasurement {
    FrameMeasurement {
        on_hit: m.on_hit,
        on_block: m.on_block,
        knockdown: m.knockdown,
        first_active_frame: m.first_active_frame,
        damage: m.damage,
        hits: m.hits,
        wakeup_window: m.wakeup_window,
        total: m.total,
        recovery: m.recovery,
    }
}

fn obs(observable: &str, shape: &str, latency: i64, n: i64, raw: FrameMeasurement) -> FrameObservation {
    FrameObservation {
        observable: observable.to_string(),
        method: "linear_sweep".to_string(),
        input_latency_frames: Some(latency),
        sample_n: Some(n),
        confidence: Some("high".to_string()),
        measured_at: Some("2026-08-30T00:00:00Z".to_string()),
        core_id: Some("core:abc".to_string()),
        rom_id: Some("rom:def".to_string()),
        rig_guard_state: Some(shape.to_string()),
        raw,
    }
}

fn measurement(on_hit: Option<i64>, on_block: Option<i64>, knockdown: Option<bool>) -> FrameMeasurement {
    FrameMeasurement {
        on_hit,
        on_block,
        knockdown,
        first_active_frame: Some(11),
        damage: Some(16),
        hits: Some(1),
        ..blank()
    }
}

/// Every case the grid renders distinctly: an agreeing measured cell, a
/// disagreeing cell, a knockdown cell, a one-sided field, and (by absence)
/// a missing cell.
fn synthetic_table() -> FrameTable {
    let agree_raw = measurement(Some(-7), Some(-14), Some(false));
    let agree = FrameCell {
        character: "reptile".to_string(),
        move_name: "HK".to_string(),
        variant: Some("close".to_string()),
        gap_walk_frames: Some(60),
        measurement: copy(&agree_raw),
        disagreements: vec![],
        one_sided_reference: vec![],
        observations: vec![
            obs("struct_velocity", "held+none", 1, 2, copy(&agree_raw)),
            obs("pointer_x", "held+none", 2, 2, agree_raw),
        ],
    };

    let a = measurement(Some(7), Some(-16), Some(false));
    let mut b = copy(&a);
    b.on_block = Some(-9);
    let mut collapsed = copy(&a);
    collapsed.on_block = None;
    let disagree = FrameCell {
        character: "reptile".to_string(),
        move_name: "HP".to_string(),
        variant: Some("far".to_string()),
        gap_walk_frames: Some(45),
        measurement: collapsed,
        disagreements: vec!["on_block".to_string()],
        one_sided_reference: vec![],
        observations: vec![obs("struct_velocity", "held+none", 1, 1, a), obs("pointer_x", "held+none", 2, 1, b)],
    };

    let kd_raw = measurement(None, Some(-5), Some(true));
    let knockdown = FrameCell {
        character: "reptile".to_string(),
        move_name: "cHP".to_string(),
        variant: Some("close".to_string()),
        gap_walk_frames: Some(60),
        measurement: copy(&kd_raw),
        disagreements: vec![],
        one_sided_reference: vec![],
        observations: vec![obs("struct_velocity", "held", 1, 1, kd_raw)],
    };

    let mut struct_raw = FrameMeasurement { wakeup_window: Some(77), ..blank() };
    let mut pointer_raw = FrameMeasurement { wakeup_window: Some(78), ..blank() };
    struct_raw.knockdown = Some(true);
    pointer_raw.knockdown = Some(true);
    let mut roll_measurement = copy(&struct_raw);
    roll_measurement.wakeup_window = Some(77);
    let roll = FrameCell {
        character: "mileena".to_string(),
        move_name: "roll".to_string(),
        variant: None,
        gap_walk_frames: Some(0),
        measurement: roll_measurement,
        disagreements: vec![],
        one_sided_reference: vec![("wakeup_window".to_string(), "struct_velocity".to_string())],
        observations: vec![obs("struct_velocity", "held", 1, 1, struct_raw), obs("pointer_x", "held", 2, 1, pointer_raw)],
    };

    FrameTable {
        family: "mk2".to_string(),
        port: "arcade".to_string(),
        generated_at: Some("2026-08-30T00:00:00Z".to_string()),
        schema_version: Some(1),
        cells: vec![agree, disagree, knockdown, roll],
    }
}

#[test]
fn cell_style_marks_missing_sparse_disagreement_and_knockdown_distinctly() {
    let table = synthetic_table();
    let missing = table.cell("reptile", "HK", Some(45));
    assert!(missing.is_none());
    let (text, color) = cell_style(missing);
    assert_eq!(text, "\u{b7}");
    assert_eq!(color, (96, 96, 96));

    let kd = table.cell("reptile", "cHP", Some(60)).unwrap();
    let (text, _) = cell_style(Some(kd));
    assert!(text.starts_with("KD"), "{text}");
    assert_ne!(text, "0/\u{2212}5", "knockdown must never render as a numeric 0");

    let disagreed = table.cell("reptile", "HP", Some(45)).unwrap();
    assert!(!disagreed.agrees());
    let (text, color) = cell_style(Some(disagreed));
    assert!(text.contains('\u{26a0}'), "{text}");
    assert_eq!(color, (220, 90, 90));

    let agreed = table.cell("reptile", "HK", Some(60)).unwrap();
    assert_eq!(cell_style(Some(agreed)), ("-7/-14".to_string(), (150, 220, 150)));
    assert_eq!(cell_style(Some(kd)), ("KD/-5".to_string(), (230, 180, 90)));
}

#[test]
fn startup_faf_text_renders_value_dash_and_disagreement() {
    let mut table = synthetic_table();
    assert_eq!(startup_faf_text(&table, "reptile", "HK"), "11");
    assert_eq!(startup_faf_text(&table, "mileena", "roll"), "\u{2014}");

    let base = table.cell("reptile", "HK", Some(60)).unwrap();
    let mut m = copy(&base.measurement);
    m.first_active_frame = Some(9);
    let clash = FrameCell {
        character: base.character.clone(),
        move_name: base.move_name.clone(),
        variant: base.variant.clone(),
        gap_walk_frames: Some(45),
        measurement: m,
        disagreements: vec![],
        one_sided_reference: vec![],
        observations: vec![],
    };
    table.cells.push(clash);
    assert_eq!(startup_faf_text(&table, "reptile", "HK"), "\u{26a0}");
}

#[test]
fn cell_hover_text_names_one_sided_reference_observable() {
    let table = synthetic_table();
    let roll = table.cell("mileena", "roll", Some(0)).unwrap();
    assert!(roll.agrees(), "77/78 at latencies 1/2 is agreement");
    let hover = cell_hover_text(Some(roll));
    assert!(hover.contains("wakeup_window: 77"), "{hover}");
    assert!(hover.contains("struct_velocity"), "{hover}");
    assert_eq!(
        hover,
        "variant: \u{2014}\nfirst_active_frame: \u{2014}\ndamage: \u{2014}\nhits: \u{2014}\nmin sample_n: 1\n\
         wakeup_window: 77 (struct_velocity's frame of reference)"
    );
    let disagreed = table.cell("reptile", "HP", Some(45)).unwrap();
    assert!(cell_hover_text(Some(disagreed)).ends_with("\n\u{26a0} disagreement: on_block"));
    assert_eq!(cell_hover_text(None), "not measured \u{2014} click for the command to measure it");
}

#[test]
fn caption_names_family_port_generation_and_schema() {
    let mut table = synthetic_table();
    assert_eq!(table_caption(&table), "mk2 \u{b7} arcade \u{b7} generated 2026-08-30T00:00:00Z \u{b7} schema v1");
    table.generated_at = None;
    table.schema_version = None;
    assert_eq!(table_caption(&table), "mk2 \u{b7} arcade \u{b7} generated unknown \u{b7} schema v?");
}

#[test]
fn missing_cell_gets_the_exact_measure_command() {
    assert_eq!(arena_path("mk2", Some(45)), "shadow/arenas/mk2/gap-45.state");
    assert_eq!(arena_path("mk2", None), "shadow/arenas/mk2/gap-K.state");
    assert_eq!(
        measure_command("mk2", "reptile", "HK", Some(45)),
        "python -m shadow_train.framelab.kit --game library/mk2 --core <path-to-core> --rom <path-to-rom> \
         --db shadow/framelab/frames.db --char reptile --cell HK:shadow/arenas/mk2/gap-45.state"
    );
    assert_eq!(handoff_heading("HK", Some(45), false), "HK @ 45f gap is not measured.");
    assert_eq!(handoff_heading("HK", None, true), "HK @ unstated gap \u{2014} already measured:");
}

#[test]
fn measured_cell_handoff_lists_observations_and_flags() {
    let table = synthetic_table();
    let hp = table.cell("reptile", "HP", Some(45)).unwrap();
    assert_eq!(disagreement_line(hp), Some("\u{26a0} observables disagreed on: on_block".to_string()));
    let hk = table.cell("reptile", "HK", Some(60)).unwrap();
    assert_eq!(disagreement_line(hk), None);
    assert_eq!(
        observation_row(&hk.observations[0]),
        vec!["struct_velocity", "linear_sweep", "1", "2", "high", "2026-08-30T00:00:00Z"]
    );
    let mut bare = obs("pointer_x", "held", 0, 0, blank());
    bare.input_latency_frames = None;
    bare.sample_n = None;
    bare.confidence = None;
    bare.measured_at = None;
    assert_eq!(
        observation_row(&bare),
        vec!["pointer_x", "linear_sweep", "\u{2014}", "\u{2014}", "\u{2014}", "\u{2014}"]
    );
    assert!(one_sided_note("wakeup_window", "struct_velocity")
        .starts_with("wakeup_window is one-sided: collapsed value is in struct_velocity's frame of reference"));
}

#[test]
fn safety_lines_show_signed_on_block() {
    let table = synthetic_table();
    let hk = table.cell("reptile", "HK", Some(60)).unwrap();
    assert_eq!(safety_line(true, hk), "Most unsafe on block: HK @ 60f gap (-14)");
    let plus = FrameCell {
        character: "reptile".to_string(),
        move_name: "LK".to_string(),
        variant: None,
        gap_walk_frames: None,
        measurement: FrameMeasurement { on_block: Some(3), ..blank() },
        disagreements: vec![],
        one_sided_reference: vec![],
        observations: vec![],
    };
    assert_eq!(safety_line(false, &plus), "Safest on block: LK @ unstated gap (+3)");
}
