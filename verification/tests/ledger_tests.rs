use clicker_engine::ledger::{CostEntry, ResourceLedger, safe_subtract};

fn fresh_ledger() -> ResourceLedger {
    ResourceLedger::new(
        "primary".to_string(),
        vec!["Soul".to_string(), "Souls".to_string()],
    )
}

fn cost(entries: &[(&str, u32)]) -> Vec<CostEntry> {
    entries
        .iter()
        .map(|(id, amount)| CostEntry { id: id.to_string(), amount: *amount })
        .collect()
}

#[test]
fn unknown_resource_counts_as_zero() {
    let ledger = fresh_ledger();
    assert_eq!(ledger.get("never_seen"), 0);
}

#[test]
fn add_and_get_round_trip() {
    let mut ledger = fresh_ledger();
    ledger.add("aer", 3);
    ledger.add("aer", 4);
    assert_eq!(ledger.get("aer"), 7);
}

#[test]
fn increment_or_insert_starts_from_zero() {
    let mut ledger = fresh_ledger();
    ledger.increment_or_insert("ignis", 5);
    assert_eq!(ledger.get("ignis"), 5);
    ledger.increment_or_insert("ignis", 2);
    assert_eq!(ledger.get("ignis"), 7);
}

#[test]
fn add_saturates_at_the_top() {
    let mut ledger = fresh_ledger();
    ledger.add("aqua", u32::MAX - 1);
    ledger.add("aqua", 10);
    assert_eq!(ledger.get("aqua"), u32::MAX);
}

#[test]
fn add_clamped_stops_at_capacity() {
    let mut ledger = fresh_ledger();
    ledger.add_clamped(30, 50);
    assert_eq!(ledger.get("primary"), 30);
    ledger.add_clamped(30, 50);
    assert_eq!(ledger.get("primary"), 50);
}

#[test]
fn can_afford_checks_every_line() {
    let mut ledger = fresh_ledger();
    ledger.add("aer", 2);
    ledger.add("aqua", 1);
    assert!(ledger.can_afford(&cost(&[("aer", 2), ("aqua", 1)])));
    assert!(!ledger.can_afford(&cost(&[("aer", 3), ("aqua", 1)])));
}

#[test]
fn retired_resources_are_always_satisfied() {
    let mut ledger = fresh_ledger();
    ledger.add("aer", 1);
    // A legacy cost naming a removed resource must not block anything.
    assert!(ledger.can_afford(&cost(&[("aer", 1), ("Souls", 99)])));
    ledger.spend(&cost(&[("aer", 1), ("Souls", 99)]));
    assert_eq!(ledger.get("aer"), 0);
    assert_eq!(ledger.get("Souls"), 0);
}

#[test]
fn spend_debits_exactly_what_was_checked() {
    let mut ledger = fresh_ledger();
    ledger.add("aer", 5);
    ledger.add("terra", 4);
    let c = cost(&[("aer", 2), ("terra", 4)]);
    assert!(ledger.can_afford(&c));
    ledger.spend(&c);
    assert_eq!(ledger.get("aer"), 3);
    assert_eq!(ledger.get("terra"), 0);
}

#[test]
fn spend_add_sequences_never_go_negative() {
    let mut ledger = fresh_ledger();
    for _ in 0..3 {
        ledger.add("ordo", 2);
        let c = cost(&[("ordo", 2)]);
        if ledger.can_afford(&c) {
            ledger.spend(&c);
        }
        assert!(ledger.get("ordo") < u32::MAX);
    }
    assert_eq!(ledger.get("ordo"), 0);
}

#[test]
fn entries_report_what_was_stored() {
    let mut ledger = fresh_ledger();
    ledger.add("aer", 1);
    ledger.add("aqua", 2);
    let entries = ledger.entries();
    assert_eq!(
        entries,
        vec![("aer".to_string(), 1), ("aqua".to_string(), 2)]
    );
}

#[test]
fn set_count_overwrites() {
    let mut ledger = fresh_ledger();
    ledger.add("aer", 9);
    ledger.set_count("aer", 4);
    assert_eq!(ledger.get("aer"), 4);
}

#[test]
fn safe_subtract_only_when_covered() {
    let mut value: u32 = 10;
    assert!(safe_subtract(&mut value, 4));
    assert_eq!(value, 6);
    assert!(!safe_subtract(&mut value, 7));
    assert_eq!(value, 6);
    assert!(safe_subtract(&mut value, 6));
    assert_eq!(value, 0);
}

#[test]
fn primary_name_reports_configuration() {
    let ledger = fresh_ledger();
    assert_eq!(ledger.primary_name(), "primary".to_string());
    assert!(ledger.is_retired("Soul"));
    assert!(ledger.is_retired("Souls"));
    assert!(!ledger.is_retired("aer"));
}
