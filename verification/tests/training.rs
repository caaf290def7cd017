use rustretro::training::{
    age_str, dummy_label, reversal_timing_label, same_option, stamp_from_secs, DummyMode, GuardMode, GuardPct,
    PersistedPunishOption, PersistedTrainingConfig, PlaybackPort, PlaybackTrigger, PunishOption, ReversalTiming,
    TrainingConfig,
};

#[test]
fn stamp_matches_python_strftime_goldens() {
    assert_eq!(stamp_from_secs(0), "19700101-0000");
    assert_eq!(stamp_from_secs(1756123440), "20250825-1204");
    assert_eq!(stamp_from_secs(4102444799), "20991231-2359");
}

#[test]
fn stamp_handles_leap_days() {
    // 2024-02-29 00:00 UTC and 2000-03-01 23:59 UTC.
    assert_eq!(stamp_from_secs(1709164800), "20240229-0000");
    assert_eq!(stamp_from_secs(951955140), "20000301-2359");
}

#[test]
fn ages_pick_the_largest_whole_unit() {
    assert_eq!(age_str(59), "59s ago");
    assert_eq!(age_str(60), "1m ago");
    assert_eq!(age_str(3599), "59m ago");
    assert_eq!(age_str(7200), "2h ago");
    assert_eq!(age_str(86400 * 3 + 5), "3d ago");
}

#[test]
fn labels_follow_the_guard_style() {
    assert_eq!(GuardMode::Never.label(), "None");
    assert_eq!(GuardMode::AfterFirstHit.label(), "After First Hit");
    assert_eq!(dummy_label(DummyMode::Block, true), "Block (reactive guard)");
    assert_eq!(dummy_label(DummyMode::BlockPunish, false), "Block + punish (on contact)");
    assert_eq!(reversal_timing_label(&ReversalTiming::Delay { min: 3, max: 9 }), "Delay (randomized)");
    assert!(PlaybackPort::Both.drives(0) && PlaybackPort::Both.drives(1));
    assert!(PlaybackPort::P1.drives(0) && !PlaybackPort::P1.drives(1));
    assert!(!PlaybackPort::P2.drives(0) && !PlaybackPort::P2.drives(2));
    assert_eq!(PlaybackPort::default(), PlaybackPort::Both);
    assert_eq!(PlaybackTrigger::default(), PlaybackTrigger::Manual);
    assert_eq!(GuardPct::default(), GuardPct(50));
}

#[test]
fn continue_block_rows_are_one_row_whatever_their_frames() {
    assert!(same_option(&PunishOption::ContinueBlock(10), &PunishOption::ContinueBlock(30)));
    assert!(same_option(&PunishOption::Move("slide".into()), &PunishOption::Move("slide".into())));
    assert!(!same_option(&PunishOption::Move("slide".into()), &PunishOption::Attack("slide".into())));
}

#[test]
fn training_config_settings_round_trip() {
    let mut cfg = TrainingConfig::new(10);
    cfg.dummy = DummyMode::BlockPunish;
    cfg.guard_mode = GuardMode::Random;
    cfg.guard_random_pct = GuardPct(73);
    cfg.reversal_timing = ReversalTiming::Delay { min: 10, max: 40 };
    cfg.punish_pool = vec![(PunishOption::Move("slide".into()), 3), (PunishOption::ContinueBlock(30), 1)];
    cfg.enabled = true;
    cfg.punish_armed = true;
    let saved = cfg.to_persisted();

    let mut fresh = TrainingConfig::new(10);
    fresh.merge_persisted(Some(saved));
    assert_eq!(fresh.dummy, DummyMode::BlockPunish);
    assert_eq!(fresh.guard_mode, GuardMode::Random);
    assert_eq!(fresh.guard_random_pct, GuardPct(73));
    assert_eq!(fresh.reversal_timing, ReversalTiming::Delay { min: 10, max: 40 });
    assert_eq!(fresh.punish_pool, cfg.punish_pool);
    assert!(!fresh.enabled, "enabled is not part of the persisted settings subset");
    assert!(!fresh.punish_armed, "runtime bookkeeping must not be persisted");
}

#[test]
fn training_config_missing_sidecar_keeps_current_settings() {
    let mut cfg = TrainingConfig::new(10);
    cfg.merge_persisted(None);
    assert_eq!(cfg.dummy, DummyMode::Free);
    assert_eq!(cfg.reversal_timing, ReversalTiming::Explicit(10));
}

#[test]
fn training_config_corrupt_sidecar_falls_back_without_panicking() {
    // A sidecar that does not parse reaches the config as no settings at all.
    let mut cfg = TrainingConfig::new(10);
    cfg.dummy = DummyMode::Crouch;
    cfg.merge_persisted(None);
    assert_eq!(cfg.dummy, DummyMode::Crouch, "corrupt sidecar must not clobber current settings");
}

#[test]
fn persisted_options_mirror_the_pool() {
    let p = PersistedTrainingConfig {
        dummy: DummyMode::Stand,
        guard_mode: GuardMode::All,
        guard_random_pct: GuardPct(50),
        reversal_timing: ReversalTiming::Late,
        punish_pool: vec![(PersistedPunishOption::Attack { class: "HP".into() }, 2)],
    };
    let mut cfg = TrainingConfig::new(7);
    cfg.merge_persisted(Some(p));
    assert!(matches!(&cfg.punish_pool[0], (PunishOption::Attack(c), 2) if c == "HP"));
    assert_eq!(cfg.reversal_timing, ReversalTiming::Late);
}

#[test]
fn pool_weights_update_their_row_or_add_one() {
    let mut cfg = TrainingConfig::new(10);
    let options = vec![
        PunishOption::Attack("HP".into()),
        PunishOption::Move("slide".into()),
        PunishOption::Move("fireball".into()),
    ];
    cfg.seed_default_pool(&options);
    assert_eq!(cfg.punish_pool.len(), 2);
    assert!(matches!(&cfg.punish_pool[0], (PunishOption::Move(n), 3) if n == "slide"));
    assert!(matches!(cfg.punish_pool[1], (PunishOption::ContinueBlock(30), 1)));
    // Seeding again leaves a non-empty pool alone.
    cfg.seed_default_pool(&[]);
    assert_eq!(cfg.punish_pool.len(), 2);
    cfg.set_pool_weight(&PunishOption::ContinueBlock(12), 5);
    assert_eq!(cfg.pool_weight(&PunishOption::ContinueBlock(30)), 5);
    assert_eq!(cfg.punish_pool.len(), 2);
    cfg.set_pool_weight(&PunishOption::Attack("HP".into()), 4);
    assert_eq!(cfg.punish_pool.len(), 3);
    assert_eq!(cfg.pool_weight(&PunishOption::Attack("HP".into())), 4);
    assert_eq!(cfg.pool_weight(&PunishOption::Move("fireball".into())), 0);
}
