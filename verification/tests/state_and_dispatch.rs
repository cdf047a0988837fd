use px_kb_tool::apkt_config::{
    BpfConfig, CompatibilityConfig, ConfigWrapper, FnLockConfig, KbBrightnessConfig,
    TabletKbBacklightDisableConfig, resolve_config, watched_keycodes,
};
use px_kb_tool::config::{load_config, FnLockDefault};
use px_kb_tool::dispatch::{dispatch_event, ActivePathSet, InputEvent};
use px_kb_tool::kb_illumination::{next_brightness, parse_brightness, BacklightState};
use px_kb_tool::state::{
    decode_state, encode_state, initial_state, plan_restore, FnLockState,
};
use px_kb_tool::{parse_cli, CliMode, Error};

fn test_config() -> ConfigWrapper {
    ConfigWrapper {
        compatibility: CompatibilityConfig {
            hid_path_override: None,
            hid_id_override: None,
            event_path_override: None,
        },
        fnlock: FnLockConfig {
            enabled: true,
            keycode: "KEY_PROG3".to_string(),
            boot_default: "last".to_string(),
            keycode_enum: None,
        },
        bpf: BpfConfig { enabled: false, remaps: vec![] },
        tablet_kb_backlight_disable: TabletKbBacklightDisableConfig { enabled: true },
        kb_brightness_cycle: KbBrightnessConfig {
            enabled: true,
            keycode: "KEY_PROG4".to_string(),
            keycode_enum: None,
        },
    }
}

#[test]
fn key_names_resolve_to_their_codes() {
    // KEY_PROG3 is input key 202 and KEY_PROG4 key 203; a config echoing
    // the names back unresolved would fail here
    let cfg = resolve_config(test_config()).unwrap();
    assert_eq!(cfg.fnlock.keycode_enum, Some(202));
    assert_eq!(cfg.kb_brightness_cycle.keycode_enum, Some(203));
}

#[test]
fn unknown_key_name_is_rejected() {
    let mut raw = test_config();
    raw.fnlock.keycode = "KEY_DOES_NOT_EXIST".to_string();
    assert_eq!(resolve_config(raw).err(), Some(Error::ParseError));
}

#[test]
fn disabled_features_need_no_key_name() {
    let mut raw = test_config();
    raw.fnlock.enabled = false;
    raw.fnlock.keycode = "not a key".to_string();
    let cfg = resolve_config(raw).unwrap();
    assert_eq!(cfg.fnlock.keycode_enum, None);
    assert_eq!(cfg.kb_brightness_cycle.keycode_enum, Some(203));
}

#[test]
fn watched_keycodes_lists_enabled_features() {
    let cfg = resolve_config(test_config()).unwrap();
    assert_eq!(watched_keycodes(&cfg), vec![202, 203]);
    let mut raw = test_config();
    raw.kb_brightness_cycle.enabled = false;
    let cfg = resolve_config(raw).unwrap();
    assert_eq!(watched_keycodes(&cfg), vec![202]);
}

#[test]
fn builtin_config_defaults() {
    let cfg = load_config();
    assert!(cfg.bpf_enabled);
    assert_eq!(cfg.bpf_remaps.len(), 3);
    assert_eq!(cfg.bpf_remaps[0].from, 0x4e);
    assert_eq!(cfg.bpf_remaps[0].to, 0x5c);
    assert!(cfg.fn_lock_enabled);
    assert_eq!(cfg.fn_lock_keycode, 0x4e);
    assert!(matches!(cfg.fn_lock_default, FnLockDefault::Preserve));
    assert!(cfg.kb_enabled);
    assert_eq!(cfg.kb_keycode, 0x3a);
}

#[test]
fn fn_lock_press_dispatches_toggle() {
    let cfg = resolve_config(test_config()).unwrap();
    let a = dispatch_event(&cfg, InputEvent { event_type: 1, code: 202, value: 1 });
    assert!(a.toggle_fn_lock);
    assert!(!a.cycle_brightness);
    assert_eq!(a.tablet_mode, None);
}

#[test]
fn key_release_and_repeat_do_nothing() {
    let cfg = resolve_config(test_config()).unwrap();
    for value in [0, 2] {
        let a = dispatch_event(&cfg, InputEvent { event_type: 1, code: 202, value });
        assert!(!a.toggle_fn_lock && !a.cycle_brightness && a.tablet_mode.is_none());
    }
}

#[test]
fn brightness_press_dispatches_cycle() {
    let cfg = resolve_config(test_config()).unwrap();
    let a = dispatch_event(&cfg, InputEvent { event_type: 1, code: 203, value: 1 });
    assert!(a.cycle_brightness);
    assert!(!a.toggle_fn_lock);
}

#[test]
fn tablet_switch_dispatches_backlight_transitions() {
    let cfg = resolve_config(test_config()).unwrap();
    let enter = dispatch_event(&cfg, InputEvent { event_type: 5, code: 1, value: 1 });
    assert_eq!(enter.tablet_mode, Some(true));
    let leave = dispatch_event(&cfg, InputEvent { event_type: 5, code: 1, value: 0 });
    assert_eq!(leave.tablet_mode, Some(false));
}

#[test]
fn disabled_features_ignore_their_events() {
    let mut raw = test_config();
    raw.fnlock.enabled = false;
    raw.tablet_kb_backlight_disable.enabled = false;
    let cfg = resolve_config(raw).unwrap();
    let a = dispatch_event(&cfg, InputEvent { event_type: 1, code: 202, value: 1 });
    assert!(!a.toggle_fn_lock);
    let b = dispatch_event(&cfg, InputEvent { event_type: 5, code: 1, value: 1 });
    assert_eq!(b.tablet_mode, None);
}

#[test]
fn serialized_presses_toggle_by_parity() {
    // two devices report five presses between them; each press lands as
    // one serialized toggle, so the final state is initial XOR (5 mod 2)
    let cfg = resolve_config(test_config()).unwrap();
    let initial = false;
    let mut state = FnLockState::new(initial);
    let press = InputEvent { event_type: 1, code: 202, value: 1 };
    let mut observed: u32 = 0;
    for _ in 0..3 {
        if dispatch_event(&cfg, press).toggle_fn_lock {
            state.toggle();
            observed += 1;
        }
    }
    for _ in 0..2 {
        if dispatch_event(&cfg, press).toggle_fn_lock {
            state.toggle();
            observed += 1;
        }
    }
    assert_eq!(observed, 5);
    assert_eq!(state.on, initial ^ (observed % 2 == 1));
}

#[test]
fn two_presses_cancel_out() {
    let mut state = FnLockState::new(true);
    state.toggle();
    state.toggle();
    assert!(state.on);
}

#[test]
fn state_encoding_round_trips() {
    assert_eq!(encode_state(true), "1");
    assert_eq!(encode_state(false), "0");
    assert!(decode_state(Some(encode_state(true))));
    assert!(!decode_state(Some(encode_state(false))));
}

#[test]
fn stored_state_tolerates_whitespace() {
    assert!(decode_state(Some(" 1\n")));
    assert!(!decode_state(Some("0\n")));
}

#[test]
fn missing_or_corrupt_state_defaults_to_off() {
    assert!(!decode_state(None));
    assert!(!decode_state(Some("")));
    assert!(!decode_state(Some("yes")));
    assert!(!decode_state(Some("11")));
}

#[test]
fn boot_policy_selects_the_initial_state() {
    assert_eq!(initial_state("on", false), Ok(true));
    assert_eq!(initial_state("off", true), Ok(false));
    assert_eq!(initial_state("last", true), Ok(true));
    assert_eq!(initial_state("last", false), Ok(false));
    assert_eq!(initial_state("sometimes", false), Err(Error::ParseError));
}

#[test]
fn restore_with_fn_lock_disabled_is_a_no_op() {
    // nothing to send, so the one-shot path performs no raw HID work
    let mut raw = test_config();
    raw.fnlock.enabled = false;
    let cfg = resolve_config(raw).unwrap();
    assert_eq!(plan_restore(&cfg, true), None);
}

#[test]
fn restore_reapplies_the_persisted_state() {
    let cfg = resolve_config(test_config()).unwrap();
    assert_eq!(plan_restore(&cfg, true), Some(true));
    assert_eq!(plan_restore(&cfg, false), Some(false));
}

#[test]
fn active_paths_track_insert_and_remove() {
    let mut set = ActivePathSet::new();
    assert!(!set.contains("/dev/input/event5"));
    set.insert("/dev/input/event5".to_string());
    assert!(set.contains("/dev/input/event5"));
    set.remove("/dev/input/event5");
    assert!(!set.contains("/dev/input/event5"));
}

#[test]
fn supervisor_spawns_only_new_paths() {
    let mut set = ActivePathSet::new();
    let spawn = set.supervisor_step(&vec![
        "/dev/input/event3".to_string(),
        "/dev/input/event5".to_string(),
    ]);
    assert_eq!(spawn.len(), 2);
    let spawn = set.supervisor_step(&vec![
        "/dev/input/event3".to_string(),
        "/dev/input/event7".to_string(),
    ]);
    assert_eq!(spawn, vec!["/dev/input/event7".to_string()]);
}

#[test]
fn vanished_path_stays_until_its_dispatcher_removes_it() {
    let mut set = ActivePathSet::new();
    set.supervisor_step(&vec!["/dev/input/event5".to_string()]);
    // the path no longer shows up in discovery: the supervisor must not evict it
    let spawn = set.supervisor_step(&vec![]);
    assert!(spawn.is_empty());
    assert!(set.contains("/dev/input/event5"));
    // only its own dispatcher removes it, upon stream death
    set.remove("/dev/input/event5");
    assert!(!set.contains("/dev/input/event5"));
    // afterwards rediscovery spawns it anew
    let spawn = set.supervisor_step(&vec!["/dev/input/event5".to_string()]);
    assert_eq!(spawn, vec!["/dev/input/event5".to_string()]);
}

#[test]
fn brightness_cycle_steps_and_wraps() {
    assert_eq!(next_brightness(0, 3), 1);
    assert_eq!(next_brightness(2, 3), 3);
    assert_eq!(next_brightness(3, 3), 0);
}

#[test]
fn tablet_mode_saves_and_restores_the_level() {
    let mut b = BacklightState::new();
    assert_eq!(b.enter_tablet_mode(2), Some(0));
    // a repeated enter keeps the first saved level
    assert_eq!(b.enter_tablet_mode(0), Some(0));
    assert_eq!(b.leave_tablet_mode(), Some(2));
    // leaving again writes nothing
    assert_eq!(b.leave_tablet_mode(), None);
}

#[test]
fn brightness_text_parses_as_decimal() {
    assert_eq!(parse_brightness("3"), Ok(3));
    assert_eq!(parse_brightness(" 42\n"), Ok(42));
    assert_eq!(parse_brightness("4294967295"), Ok(u32::MAX));
}

#[test]
fn brightness_text_failures() {
    assert_eq!(parse_brightness(""), Err(Error::ParseError));
    assert_eq!(parse_brightness("\n"), Err(Error::ParseError));
    assert_eq!(parse_brightness("abc"), Err(Error::ParseError));
    assert_eq!(parse_brightness("4294967296"), Err(Error::ParseError));
    assert_eq!(parse_brightness("12 34"), Err(Error::ParseError));
}

#[test]
fn cli_defaults_to_running_the_daemon() {
    let r = parse_cli(&vec!["px-kb-tool".to_string()]);
    assert_eq!(r.mode, CliMode::Run);
    assert_eq!(r.config_path, "asus-px-keyboard-tool.conf".to_string());
}

#[test]
fn cli_takes_a_config_path() {
    let r = parse_cli(&vec!["px-kb-tool".to_string(), "/etc/px.conf".to_string()]);
    assert_eq!(r.mode, CliMode::Run);
    assert_eq!(r.config_path, "/etc/px.conf".to_string());
}

#[test]
fn cli_recognises_restore() {
    let r = parse_cli(&vec![
        "px-kb-tool".to_string(),
        "/etc/px.conf".to_string(),
        "restore".to_string(),
    ]);
    assert_eq!(r.mode, CliMode::Restore);
    assert_eq!(r.config_path, "/etc/px.conf".to_string());
}

#[test]
fn cli_rejects_other_words_and_excess_arguments() {
    let r = parse_cli(&vec![
        "px-kb-tool".to_string(),
        "/etc/px.conf".to_string(),
        "restart".to_string(),
    ]);
    assert_eq!(r.mode, CliMode::Invalid);
    let r = parse_cli(&vec![
        "px-kb-tool".to_string(),
        "a".to_string(),
        "b".to_string(),
        "c".to_string(),
    ]);
    assert_eq!(r.mode, CliMode::TooMany);
}
