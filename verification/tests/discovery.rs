use px_kb_tool::hid::{
    apply_overrides, build_fn_lock_report, descriptor_marker, get_hardware_info,
    locate_controller, parse_hid_id, resolve_event_paths, resolve_hidraw_path, BusEntry,
    EventCandidate, HardwareSnapshot, HidDeviceInfo, HidInterface,
};
use px_kb_tool::apkt_config::CompatibilityConfig;
use px_kb_tool::Error;

fn marker_descriptor() -> Vec<u8> {
    // some unrelated bytes around the marker run
    let mut d: Vec<u8> = vec![0x05, 0x01, 0x09, 0x06];
    d.extend_from_slice(&descriptor_marker());
    d.push(0x95);
    d
}

#[test]
fn hid_id_reads_the_final_digit() {
    assert_eq!(parse_hid_id("0018:0B05:19B6.0002:2"), Ok(2));
}

#[test]
fn hid_id_reads_only_the_final_character() {
    // a two-digit trailing segment still yields only its last digit
    assert_eq!(parse_hid_id("0018:0B05:19B6.0002:12"), Ok(2));
}

#[test]
fn hid_id_without_separator_still_reads_the_last_character() {
    assert_eq!(parse_hid_id("7"), Ok(7));
}

#[test]
fn hid_id_parse_failures() {
    assert_eq!(parse_hid_id(""), Err(Error::ParseError));
    assert_eq!(parse_hid_id("0018:0B05:"), Err(Error::ParseError));
    assert_eq!(parse_hid_id("0018:0B05:19B6.0002:x"), Err(Error::ParseError));
}

#[test]
fn controller_needs_signature_and_marker() {
    let entries = vec![
        // right name, wrong descriptor
        BusEntry { name: "0018:0B05:19B6.0001".to_string(), descriptor: vec![0x05, 0x01] },
        // wrong name, right descriptor
        BusEntry { name: "0018:1234:5678.0002".to_string(), descriptor: marker_descriptor() },
        // both right
        BusEntry { name: "0018:0B05:19B6.0003".to_string(), descriptor: marker_descriptor() },
    ];
    assert_eq!(locate_controller(&entries, "0B05:19B6", &descriptor_marker()), Ok(2));
}

#[test]
fn missing_controller_is_not_found() {
    let entries = vec![BusEntry {
        name: "0018:1234:5678.0001".to_string(),
        descriptor: marker_descriptor(),
    }];
    assert_eq!(
        locate_controller(&entries, "0B05:19B6", &descriptor_marker()),
        Err(Error::NotFound)
    );
}

#[test]
fn hidraw_interface_is_matched_by_usage_pair() {
    let interfaces = vec![
        HidInterface { path: "/dev/hidraw0".to_string(), usage: 0x01, usage_page: 0x000c },
        HidInterface { path: "/dev/hidraw1".to_string(), usage: 0x76, usage_page: 0xff31 },
    ];
    assert_eq!(resolve_hidraw_path(&interfaces, 0x76, 0xff31), Ok(1));
    assert_eq!(resolve_hidraw_path(&interfaces, 0x76, 0x0001), Err(Error::NotFound));
}

#[test]
fn event_paths_filter_by_key_capability() {
    let candidates = vec![
        EventCandidate { path: "/dev/input/event3".to_string(), supported_keys: vec![30, 48] },
        EventCandidate { path: "/dev/input/event5".to_string(), supported_keys: vec![202, 30] },
        EventCandidate { path: "/dev/input/event7".to_string(), supported_keys: vec![] },
    ];
    let paths = resolve_event_paths(&candidates, &vec![202, 203]);
    assert_eq!(paths, vec!["/dev/input/event5".to_string()]);
}

#[test]
fn empty_keycode_set_applies_no_filter() {
    // every structural candidate comes back, the keyless one included
    let candidates = vec![
        EventCandidate { path: "/dev/input/event3".to_string(), supported_keys: vec![30, 48] },
        EventCandidate { path: "/dev/input/event7".to_string(), supported_keys: vec![] },
    ];
    let paths = resolve_event_paths(&candidates, &vec![]);
    assert_eq!(
        paths,
        vec!["/dev/input/event3".to_string(), "/dev/input/event7".to_string()]
    );
}

#[test]
fn nothing_matching_is_an_empty_list_not_an_error() {
    let candidates = vec![EventCandidate {
        path: "/dev/input/event3".to_string(),
        supported_keys: vec![30],
    }];
    let paths = resolve_event_paths(&candidates, &vec![202]);
    assert_eq!(paths, Vec::<String>::new());
}

fn snapshot() -> HardwareSnapshot {
    HardwareSnapshot {
        bus_entries: vec![BusEntry {
            name: "0018:0B05:19B6.0002:1".to_string(),
            descriptor: marker_descriptor(),
        }],
        hid_interfaces: vec![HidInterface {
            path: "/dev/hidraw1".to_string(),
            usage: 0x76,
            usage_page: 0xff31,
        }],
        event_candidates: vec![EventCandidate {
            path: "/dev/input/event5".to_string(),
            supported_keys: vec![202],
        }],
    }
}

#[test]
fn hardware_info_composes_the_pieces() {
    let info = get_hardware_info(&snapshot(), &vec![202]).unwrap();
    assert_eq!(info.hid_id, 1);
    assert_eq!(info.hidraw_device_path, "/dev/hidraw1".to_string());
    assert_eq!(info.possible_event_paths, vec!["/dev/input/event5".to_string()]);
}

#[test]
fn hardware_info_without_controller_fails() {
    let mut s = snapshot();
    s.bus_entries.clear();
    assert!(matches!(get_hardware_info(&s, &vec![]), Err(Error::NotFound)));
}

#[test]
fn hardware_info_with_malformed_id_fails() {
    let mut s = snapshot();
    s.bus_entries[0].name = "0018:0B05:19B6.0002:z".to_string();
    assert!(matches!(get_hardware_info(&s, &vec![]), Err(Error::ParseError)));
}

#[test]
fn hardware_info_without_raw_interface_fails() {
    let mut s = snapshot();
    s.hid_interfaces[0].usage_page = 0x000c;
    assert!(matches!(get_hardware_info(&s, &vec![]), Err(Error::NotFound)));
}

#[test]
fn overrides_replace_exactly_what_they_name() {
    let info = HidDeviceInfo {
        hid_id: 1,
        possible_event_paths: vec!["/dev/input/event5".to_string()],
        hidraw_device_path: "/dev/hidraw1".to_string(),
    };
    let compat = CompatibilityConfig {
        hid_path_override: Some("/dev/hidraw9".to_string()),
        hid_id_override: Some(4),
        event_path_override: Some("/dev/input/event9".to_string()),
    };
    let r = apply_overrides(info, &compat);
    assert_eq!(r.hid_id, 4);
    assert_eq!(r.hidraw_device_path, "/dev/hidraw9".to_string());
    assert_eq!(r.possible_event_paths, vec!["/dev/input/event9".to_string()]);
}

#[test]
fn absent_overrides_change_nothing() {
    let info = HidDeviceInfo {
        hid_id: 1,
        possible_event_paths: vec!["/dev/input/event5".to_string()],
        hidraw_device_path: "/dev/hidraw1".to_string(),
    };
    let compat = CompatibilityConfig {
        hid_path_override: None,
        hid_id_override: None,
        event_path_override: None,
    };
    let r = apply_overrides(info, &compat);
    assert_eq!(r.hid_id, 1);
    assert_eq!(r.hidraw_device_path, "/dev/hidraw1".to_string());
    assert_eq!(r.possible_event_paths, vec!["/dev/input/event5".to_string()]);
}

#[test]
fn toggle_report_state_byte_is_inverted() {
    let on = build_fn_lock_report(true);
    let off = build_fn_lock_report(false);
    assert_eq!(on[3], 0);
    assert_eq!(off[3], 1);
}

#[test]
fn toggle_report_layout() {
    let r = build_fn_lock_report(true);
    assert_eq!(r.len(), 63);
    assert_eq!(&r[0..3], &[0x5a, 0xd0, 0x4e]);
    assert!(r[4..].iter().all(|b| *b == 0));
}
