use rustretro::framelab::{FrameCell, FrameMeasurement, FrameObservation, FrameTable};
use rustretro::provenance::{ids_line, latency_text, measured_line, provenance, sample_n_text};

fn blank() -> FrameMeasurement {
    FrameMeasurement {
        on_hit: None,
        on_block: None,
        knockdown: None,
        first_active_frame: None,
        damage: None,
        hits: None,
        wakeup_window: None,
        total: None,
        recovery: None,
    }
}

struct Obs {
    observable: &'static str,
    shape: Option<&'static str>,
    latency: Option<i64>,
    n: Option<i64>,
    at: Option<&'static str>,
    core: Option<&'static str>,
    rom: Option<&'static str>,
}

fn obs(o: Obs) -> FrameObservation {
    FrameObservation {
        observable: o.observable.to_string(),
        method: "linear_sweep".to_string(),
        input_latency_frames: o.latency,
        sample_n: o.n,
        confidence: None,
        measured_at: o.at.map(|s| s.to_string()),
        core_id: o.core.map(|s| s.to_string()),
        rom_id: o.rom.map(|s| s.to_string()),
        rig_guard_state: o.shape.map(|s| s.to_string()),
        raw: blank(),
    }
}

fn cell(ch: &str, mv: &str, observations: Vec<FrameObservation>) -> FrameCell {
    FrameCell {
        character: ch.to_string(),
        move_name: mv.to_string(),
        variant: None,
        gap_walk_frames: None,
        measurement: blank(),
        disagreements: Vec::new(),
        one_sided_reference: Vec::new(),
        observations,
    }
}

fn table(cells: Vec<FrameCell>) -> FrameTable {
    FrameTable { family: "cps2".to_string(), port: "sfa3".to_string(), generated_at: None, schema_version: Some(1), cells }
}

fn sample_table() -> FrameTable {
    table(vec![
        cell(
            "ryu",
            "lp",
            vec![
                obs(Obs { observable: "hitstun", shape: Some("standing"), latency: Some(2), n: Some(3), at: Some("2026-09-02"), core: Some("core:b"), rom: Some("rom:1") }),
                obs(Obs { observable: "blockstun", shape: None, latency: Some(2), n: None, at: None, core: Some("core:a"), rom: Some("rom:1") }),
            ],
        ),
        cell(
            "ken",
            "lp",
            vec![obs(Obs { observable: "aaa", shape: None, latency: Some(9), n: Some(1), at: Some("2020-01-01"), core: Some("core:z"), rom: None })],
        ),
        cell(
            "ryu",
            "mp",
            vec![
                obs(Obs { observable: "hitstun", shape: Some("standing"), latency: Some(3), n: Some(1), at: Some("2026-08-30"), core: Some("core:b"), rom: Some("rom:1") }),
                obs(Obs { observable: "hitstun", shape: Some("crouching"), latency: None, n: Some(5), at: None, core: None, rom: None }),
            ],
        ),
    ])
}

#[test]
fn groups_come_in_observable_then_shape_order_with_their_facts() {
    let p = provenance(&sample_table(), "ryu");
    let keys: Vec<(String, String)> = p.rows.iter().map(|r| (r.observable.clone(), r.shape.clone())).collect();
    assert_eq!(
        keys,
        vec![
            ("blockstun".to_string(), "(unstated)".to_string()),
            ("hitstun".to_string(), "crouching".to_string()),
            ("hitstun".to_string(), "standing".to_string()),
        ]
    );
    // blockstun: no sample size, one latency.
    assert_eq!(p.rows[0].rows, 0);
    assert_eq!(sample_n_text(p.rows[0].sample_min, p.rows[0].sample_max), "\u{2014}");
    assert_eq!(latency_text(&p.rows[0].latencies), "2");
    // hitstun/crouching: one sample, no latency.
    assert_eq!(p.rows[1].rows, 1);
    assert_eq!(sample_n_text(p.rows[1].sample_min, p.rows[1].sample_max), "5");
    assert_eq!(latency_text(&p.rows[1].latencies), "\u{2014}");
    // hitstun/standing: two runs disagreeing on latency.
    assert_eq!(p.rows[2].rows, 2);
    assert_eq!(sample_n_text(p.rows[2].sample_min, p.rows[2].sample_max), "1..3");
    assert_eq!(latency_text(&p.rows[2].latencies), "VARIES [2, 3]");
}

#[test]
fn mixed_builds_are_flagged_and_listed_in_order() {
    let p = provenance(&sample_table(), "ryu");
    assert_eq!(ids_line("core_id", "core", &p.core_ids), "core_id: \u{26a0} MIXED core builds: core:a, core:b");
    assert_eq!(ids_line("rom_id", "ROM", &p.rom_ids), "rom_id: rom:1");
    assert_eq!(ids_line("rom_id", "ROM", &Vec::new()), "rom_id: unknown");
}

#[test]
fn measured_span_runs_from_earliest_to_latest() {
    let p = provenance(&sample_table(), "ryu");
    assert_eq!(measured_line(&p.measured_span), Some("measured_at: 2026-08-30 .. 2026-09-02".to_string()));
    let ken = provenance(&sample_table(), "ken");
    assert_eq!(measured_line(&ken.measured_span), Some("measured_at: 2020-01-01 .. 2020-01-01".to_string()));
}

#[test]
fn a_character_without_observations_has_an_empty_summary() {
    let p = provenance(&sample_table(), "chun");
    assert!(p.rows.is_empty());
    assert!(p.core_ids.is_empty() && p.rom_ids.is_empty());
    assert_eq!(measured_line(&p.measured_span), None);
}

#[test]
fn negative_values_print_with_their_sign() {
    assert_eq!(latency_text(&vec![-1, 4]), "VARIES [-1, 4]");
    assert_eq!(sample_n_text(Some(-2), Some(-2)), "-2");
}
