use px_kb_tool::apkt_config::Remap;
use px_kb_tool::bpf_loader::{parse_log_entry, process_log_entry, EventLogEntry, LogDecision, RemapTable};

#[test]
fn empty_table_maps_nothing() {
    let table = RemapTable::new();
    assert_eq!(table.lookup(0x4e), None);
    assert_eq!(table.entries().len(), 0);
}

#[test]
fn applied_rule_is_looked_up() {
    let mut table = RemapTable::new();
    table.apply(Remap { from: 0x4e, to: 0x5c });
    assert_eq!(table.lookup(0x4e), Some(0x5c));
    assert_eq!(table.lookup(0x5c), None);
}

#[test]
fn last_rule_for_a_key_wins() {
    let mut table = RemapTable::new();
    let rules = vec![
        Remap { from: 0x4e, to: 0x5c },
        Remap { from: 0x7e, to: 0xba },
        Remap { from: 0x4e, to: 0x99 },
    ];
    table.apply_remaps(&rules);
    assert_eq!(table.lookup(0x4e), Some(0x99));
    assert_eq!(table.lookup(0x7e), Some(0xba));
}

#[test]
fn reapplication_overwrites_instead_of_duplicating() {
    let mut table = RemapTable::new();
    table.apply(Remap { from: 0x4e, to: 0x5c });
    table.apply(Remap { from: 0x4e, to: 0x5d });
    assert_eq!(table.lookup(0x4e), Some(0x5d));
    // one entry, not two
    assert_eq!(table.entries().len(), 1);
    assert_eq!(table.entries()[0], Remap { from: 0x4e, to: 0x5d });
}

#[test]
fn order_of_distinct_keys_does_not_matter() {
    let mut a = RemapTable::new();
    a.apply_remaps(&vec![Remap { from: 1, to: 10 }, Remap { from: 2, to: 20 }]);
    let mut b = RemapTable::new();
    b.apply_remaps(&vec![Remap { from: 2, to: 20 }, Remap { from: 1, to: 10 }]);
    assert_eq!(a.lookup(1), b.lookup(1));
    assert_eq!(a.lookup(2), b.lookup(2));
}

#[test]
fn log_entry_decodes_little_endian_fields() {
    let bytes: Vec<u8> = vec![
        0x4e, 0x00, 0x00, 0x00, // original
        0x01, // remapped flag
        0x00, 0x00, 0x00, // padding
        0x5c, 0x00, 0x00, 0x00, // new
    ];
    let entry = parse_log_entry(&bytes).unwrap();
    assert_eq!(entry, EventLogEntry { original: 0x4e, remapped: 1, new: 0x5c });
}

#[test]
fn log_entry_multibyte_values() {
    let bytes: Vec<u8> = vec![
        0x78, 0x56, 0x34, 0x12, // original
        0x00, // remapped flag
        0xaa, 0xbb, 0xcc, // padding is ignored
        0x01, 0x02, 0x03, 0x04, // new
    ];
    let entry = parse_log_entry(&bytes).unwrap();
    assert_eq!(entry.original, 0x12345678);
    assert_eq!(entry.remapped, 0);
    assert_eq!(entry.new, 0x04030201);
}

#[test]
fn short_log_record_is_rejected() {
    let bytes: Vec<u8> = vec![0x4e, 0x00, 0x00, 0x00, 0x01];
    assert_eq!(parse_log_entry(&bytes), None);
}

#[test]
fn status_sentinel_record_is_ignored() {
    let entry = EventLogEntry { original: 0xec, remapped: 1, new: 0x5c };
    assert_eq!(process_log_entry(&entry), LogDecision::IgnoreStatus);
}

#[test]
fn remapped_record_is_reported_as_remapped() {
    let entry = EventLogEntry { original: 0x4e, remapped: 1, new: 0x5c };
    assert_eq!(process_log_entry(&entry), LogDecision::Remapped(0x4e, 0x5c));
}

#[test]
fn unmapped_record_is_reported_as_unmapped() {
    let entry = EventLogEntry { original: 0x7e, remapped: 0, new: 0 };
    assert_eq!(process_log_entry(&entry), LogDecision::Unmapped(0x7e));
}
