use sonde::modes::ModeTable;
use std::collections::BTreeSet;

#[test]
fn canonical_wire_ids_are_unique_and_in_range() {
    let table = ModeTable::default();
    let ids: Vec<u8> = table.descriptors().iter().map(|d| d.wire_id()).collect();
    let uniq: BTreeSet<u8> = ids.iter().copied().collect();
    assert_eq!(uniq.len(), ids.len(), "wire_ids must be unique: {ids:?}");
    assert!(
        ids.iter().all(|&id| id <= 7),
        "wire_ids must be 0..=7 (rx_rung is 3 bits): {ids:?}"
    );
}

#[test]
fn wire_ids_are_the_pinned_canonical_assignment() {
    let table = ModeTable::default();
    for (name, want) in [
        ("ofdm-wide", 0u8),
        ("ofdm-mid", 1),
        ("ofdm-narrow", 2),
        ("floor-wblo", 3),
        ("floor-nfsk", 4),
    ] {
        assert_eq!(table.descriptor(name).unwrap().wire_id(), want, "{name}");
    }
}
