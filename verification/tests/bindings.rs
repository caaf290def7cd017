use rustretro::bindings::{
    action_is_bound, action_name_for_chord, add_device_map, bindings_in_map, chord_label, finish_capture, rebind_key,
    key_is_capturable, rebind_pad, step_capture, BindingMap, CaptureEvent, PortMap,
};
use rustretro::panels::{CaptureTarget, ControlsPanel, DeviceKind};

// libretro joypad button indices.
const B: u8 = 0;
const Y: u8 = 1;
const SELECT: u8 = 2;
const START: u8 = 3;
const A: u8 = 8;
const X: u8 = 9;
const L: u8 = 10;
const R: u8 = 11;

// Keyboard control codes, in key order.
const KEY_C: u32 = 1;
const KEY_X: u32 = 2;
const KEY_Z: u32 = 3;
const SHIFT_LEFT: u32 = 4;
const SHIFT_RIGHT: u32 = 5;

// Pad control codes, in button order.
const SOUTH: u32 = 10;
const EAST: u32 = 11;
const NORTH: u32 = 12;
const RIGHT_TRIGGER: u32 = 13;
const LEFT_TRIGGER2: u32 = 14;
const RIGHT_TRIGGER2: u32 = 15;
const PAD_SELECT: u32 = 16;
const MODE: u32 = 17;

fn map(pairs: &[(u32, &[u8])]) -> BindingMap {
    let mut m = BindingMap::new();
    for (k, c) in pairs {
        m.insert(*k, c.to_vec());
    }
    m
}

/// A port with the stock bindings: Light = B, Medium = A, Toss = B+A+Y,
/// Launcher = B+A, Coin = Select, Start on both rear triggers.
fn stock_port() -> PortMap {
    let mut p = PortMap::new();
    p.keyboard = map(&[(KEY_Z, &[B]), (KEY_X, &[A]), (SHIFT_LEFT, &[SELECT]), (SHIFT_RIGHT, &[SELECT])]);
    p.gamepad = map(&[
        (SOUTH, &[B]),
        (EAST, &[X]),
        (RIGHT_TRIGGER, &[B, A, Y]),
        (LEFT_TRIGGER2, &[START]),
        (RIGHT_TRIGGER2, &[START]),
        (PAD_SELECT, &[SELECT]),
        (MODE, &[B, A]),
    ]);
    p
}

fn action_rows() -> Vec<(String, Vec<u8>)> {
    vec![
        ("Light".to_string(), vec![B]),
        ("Medium".to_string(), vec![A]),
        ("Toss".to_string(), vec![B, A, Y]),
        ("Launcher".to_string(), vec![B, A]),
    ]
}

#[test]
fn reverse_lookup_finds_chords_and_multiples() {
    let p1 = stock_port();
    // Toss chord B+A+Y, regardless of the order the bits are asked in.
    assert_eq!(bindings_in_map(&p1.gamepad, &[Y, A, B]), vec![RIGHT_TRIGGER]);
    // Coin: two keyboard keys share the binding.
    assert_eq!(bindings_in_map(&p1.keyboard, &[SELECT]), vec![SHIFT_LEFT, SHIFT_RIGHT]);
    // Start on the pad: two physical triggers.
    assert_eq!(bindings_in_map(&p1.gamepad, &[START]), vec![LEFT_TRIGGER2, RIGHT_TRIGGER2]);
    // Launcher (B+A) must NOT match Toss (B+A+Y) or Light (B).
    assert_eq!(bindings_in_map(&p1.gamepad, &[B, A]), vec![MODE]);
}

#[test]
fn rebind_key_replaces_same_action_binding() {
    let mut p = stock_port();
    // Light = [B], currently KeyZ. Rebind to KeyC.
    let out = rebind_key(&mut p, &[B], KEY_C);
    assert_eq!(out.replaced, vec![KEY_Z]);
    assert!(out.stolen.is_none(), "KeyC was unbound, nothing stolen");
    assert_eq!(p.keyboard.get(KEY_Z), None);
    assert_eq!(p.keyboard.get(KEY_C), Some(vec![B]));
}

#[test]
fn rebind_key_reports_stolen_binding() {
    let mut p = stock_port();
    // KeyZ is Light ([B]); steal it for Medium ([A]).
    let out = rebind_key(&mut p, &[A], KEY_Z);
    assert_eq!(out.stolen, Some(vec![B]));
    // Old Medium key removed, KeyZ now emits A, Light left keyboard-unbound.
    assert_eq!(out.replaced, vec![KEY_X]);
    assert_eq!(p.keyboard.get(KEY_Z), Some(vec![A]));
    assert!(bindings_in_map(&p.keyboard, &[B]).is_empty());
    // Rebinding to the SAME action is not "stolen".
    let again = rebind_key(&mut p, &[A], KEY_Z);
    assert!(again.stolen.is_none());
    assert!(again.replaced.is_empty());
}

#[test]
fn rebind_pad_targets_device_map_when_present_else_generic() {
    let mut p = stock_port();
    assert!(add_device_map(&mut p, "TestStick"));
    assert!(!add_device_map(&mut p, "TestStick"), "no clobber");
    // Device map starts as a clone of generic.
    assert_eq!(p.gamepad_by_device[0].0, "TestStick");
    assert_eq!(p.gamepad_by_device[0].1.entries, p.gamepad.entries);
    // Rebind Light -> East inside the device map only.
    let out = rebind_pad(&mut p, &[B], EAST, Some("TestStick"));
    assert_eq!(out.replaced, vec![SOUTH]);
    // East was X in the clone: stolen warning fires.
    assert_eq!(out.stolen, Some(vec![X]));
    assert_eq!(bindings_in_map(&p.gamepad_by_device[0].1, &[B]), vec![EAST]);
    // Generic map untouched: South still Light.
    assert_eq!(bindings_in_map(&p.gamepad, &[B]), vec![SOUTH]);
    // Unknown device name falls back to the generic map (never creates).
    let out2 = rebind_pad(&mut p, &[B], EAST, Some("Nope"));
    assert_eq!(out2.replaced, vec![SOUTH]);
    assert_eq!(bindings_in_map(&p.gamepad, &[B]), vec![EAST]);
    assert_eq!(p.gamepad_by_device.len(), 1);
}

#[test]
fn action_is_bound_scans_all_maps() {
    let mut p = stock_port();
    assert!(action_is_bound(&p, &[B, A, Y])); // toss: pad only
    // Unbind toss everywhere: unbound.
    p.gamepad.remove(RIGHT_TRIGGER);
    assert!(!action_is_bound(&p, &[B, A, Y]));
    // A device-specific map alone counts as bound.
    p.gamepad_by_device.push(("Stick".to_string(), map(&[(NORTH, &[B, A, Y])])));
    assert!(action_is_bound(&p, &[B, A, Y]));
}

#[test]
fn stolen_chord_resolves_to_action_name() {
    let rows = action_rows();
    assert_eq!(action_name_for_chord(&rows, &[B]), "Light");
    assert_eq!(action_name_for_chord(&rows, &[Y, A, B]), "Toss");
    // A chord no action owns falls back to the raw bit names.
    assert_eq!(action_name_for_chord(&rows, &[L, R]), "L+R");
    assert_eq!(chord_label(&[START, SELECT]), "Start+Select");
    assert_eq!(chord_label(&[]), "");
}

fn capture(kind: DeviceKind, device: Option<&str>) -> CaptureTarget {
    CaptureTarget { port: 0, action: "Light".to_string(), bits: vec![B], kind, device: device.map(|d| d.to_string()) }
}

#[test]
fn capture_rebinds_on_a_matching_press_and_reports() {
    let mut ports = vec![stock_port(), stock_port()];
    let mut panel = ControlsPanel::new();
    panel.capture = Some(capture(DeviceKind::Keyboard, None));
    // Nothing heard, or a pad press during a keyboard capture: still waiting.
    assert!(step_capture(&mut panel, &mut ports, CaptureEvent::Nothing).is_none());
    assert!(step_capture(&mut panel, &mut ports, CaptureEvent::Pad { button: EAST, pad: None }).is_none());
    assert!(panel.capturing());
    let (out, dev) = step_capture(&mut panel, &mut ports, CaptureEvent::Key(KEY_X)).unwrap();
    assert_eq!(out.replaced, vec![KEY_Z]);
    assert_eq!(out.stolen, Some(vec![A]));
    assert_eq!(dev, None);
    assert_eq!(ports[0].keyboard.get(KEY_X), Some(vec![B]));
    assert_eq!(ports[1].keyboard.get(KEY_X), Some(vec![A]), "the other port is untouched");
    let target = capture(DeviceKind::Keyboard, None);
    finish_capture(&mut panel, &target, "X".to_string(), vec!["Z".to_string()], out.stolen, dev, &action_rows());
    assert_eq!(panel.status, "Light = X  (was Z)");
    assert_eq!(panel.warning.as_deref(), Some("X was bound to Medium \u{2014} overwritten"));
    assert!(!panel.capturing());
}

#[test]
fn pad_capture_uses_the_pressing_pads_own_map_and_escape_cancels() {
    let mut ports = vec![stock_port()];
    add_device_map(&mut ports[0], "Stick");
    let mut panel = ControlsPanel::new();
    panel.capture = Some(capture(DeviceKind::Gamepad, None));
    let (out, dev) = step_capture(
        &mut panel,
        &mut ports,
        CaptureEvent::Pad { button: NORTH, pad: Some("Stick".to_string()) },
    )
    .unwrap();
    assert_eq!(dev.as_deref(), Some("Stick"));
    assert_eq!(out.replaced, vec![SOUTH]);
    assert_eq!(bindings_in_map(&ports[0].gamepad_by_device[0].1, &[B]), vec![NORTH]);
    assert_eq!(bindings_in_map(&ports[0].gamepad, &[B]), vec![SOUTH]);
    finish_capture(&mut panel, &capture(DeviceKind::Gamepad, None), "North".to_string(), vec![], None, dev, &action_rows());
    assert_eq!(panel.status, "Light = North [Stick]");
    assert_eq!(panel.warning, None);

    panel.capture = Some(capture(DeviceKind::Gamepad, None));
    assert!(step_capture(&mut panel, &mut ports, CaptureEvent::Escape).is_none());
    assert!(!panel.capturing());
    assert_eq!(panel.status, "capture cancelled");

    // A target port the config lacks just ends the capture.
    let mut far = capture(DeviceKind::Keyboard, None);
    far.port = 5;
    panel.capture = Some(far);
    assert!(step_capture(&mut panel, &mut ports, CaptureEvent::Key(KEY_C)).is_none());
    assert!(!panel.capturing());
}

#[test]
fn capture_exclusions() {
    for k in [
        "Escape", "Space", "KeyB", "F1", "F5", "F11", "F12", "F35", "ShiftLeft", "ShiftRight", "ControlLeft", "AltRight",
        "SuperLeft",
    ] {
        assert!(!key_is_capturable(k), "{k:?} must be excluded");
    }
    for k in ["KeyZ", "Enter", "ArrowUp", "Digit1", "Comma", "Tab"] {
        assert!(key_is_capturable(k), "{k:?} must be capturable");
    }
}

#[test]
fn function_key_names_end_at_f35() {
    for k in ["F9", "F10", "F29", "F30", "F35"] {
        assert!(!key_is_capturable(k), "{k:?} must be excluded");
    }
    for k in ["F", "F0", "F36", "F40", "F100", "KeyF", "Fn"] {
        assert!(key_is_capturable(k), "{k:?} must be capturable");
    }
}
