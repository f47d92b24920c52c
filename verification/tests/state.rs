use cln_tracker::error::TrackerError;
use cln_tracker::model::{DescriptorConfig, DescriptorRecord, DescriptorStatus, IssuedAddress};
use cln_tracker::ordered::TextMap;
use cln_tracker::state::{scan_operation_id, AppState};
use std::collections::BTreeMap;

fn record(name: &str) -> DescriptorRecord {
    DescriptorRecord {
        config: DescriptorConfig {
            name: name.to_owned(),
            descriptor: "unused".to_owned(),
            birthheight: 1,
            lookahead: 1,
            confirmations: 1,
        },
        utxos: TextMap::new(),
        pending_movements: TextMap::new(),
        external_outpoints: TextMap::new(),
        next_indexes: BTreeMap::new(),
        range_ends: BTreeMap::new(),
        last_used_indexes: BTreeMap::new(),
        range_end: 1,
        last_used_index: None,
        status: DescriptorStatus::Active,
        initial_scan_complete: true,
        pending_rescan: None,
        scan_operation_id: None,
        incident: None,
        last_success_at: None,
        generation: None,
    }
}

fn address(name: &str, branch: u32, index: u32, text: &str) -> IssuedAddress {
    IssuedAddress {
        name: name.to_owned(),
        branch,
        index,
        address: text.to_owned(),
        scriptpubkey: String::new(),
        annotation: None,
        issued_at: 0,
        generation: None,
    }
}

#[test]
fn active_scans_are_single_flight_and_release_on_drop() {
    let mut state = AppState::new("/tmp/lightning-rpc".to_owned(), "regtest".to_owned());
    let first = state
        .begin_scan("treasury", scan_operation_id(7, 1_000, 0))
        .unwrap();
    let first_id = first.operation_id().to_owned();

    assert!(state.ensure_no_active_scan("treasury").is_err());
    assert!(state
        .begin_scan("treasury", scan_operation_id(7, 1_000, 1))
        .is_err());
    assert!(state
        .begin_scan("savings", scan_operation_id(7, 1_000, 2))
        .is_ok());

    state.end_scan(&first);
    drop(first);
    state.ensure_no_active_scan("treasury").unwrap();
    let replacement = state
        .begin_scan("treasury", scan_operation_id(7, 1_000, 3))
        .unwrap();
    assert_ne!(*replacement.operation_id(), first_id);
}

#[test]
fn an_ended_scan_does_not_end_its_successor() {
    let mut state = AppState::new("rpc".to_owned(), "regtest".to_owned());
    let first = state
        .begin_scan("treasury", scan_operation_id(1, 2, 0))
        .unwrap();
    state.end_scan(&first);
    let second = state
        .begin_scan("treasury", scan_operation_id(1, 2, 1))
        .unwrap();
    state.end_scan(&first);
    assert_eq!(
        state.ensure_no_active_scan("treasury").err().unwrap().error,
        TrackerError::ScanActive
    );
    state.end_scan(&second);
    assert!(state.ensure_no_active_scan("treasury").is_ok());
}

#[test]
fn scans_are_named_by_process_time_and_place() {
    assert_eq!(scan_operation_id(12, 34, 56), "12-34-56");
}

#[test]
fn records_are_kept_by_name() {
    let mut state = AppState::new("rpc".to_owned(), "regtest".to_owned());
    state.put_record(record("b"));
    state.put_record(record("a"));
    state.put_issued_address(address("a", 0, 0, "x"));
    assert_eq!(state.record_names(), vec!["a".to_owned(), "b".to_owned()]);
    assert!(state.record("a").is_some());
    assert!(state.record("c").is_none());
    state.remove_record("a");
    assert_eq!(state.record_names(), vec!["b".to_owned()]);
    assert!(state.issued_addresses("a").is_empty());
}

#[test]
fn addresses_stand_by_place() {
    let mut state = AppState::new("rpc".to_owned(), "regtest".to_owned());
    state.put_issued_address(address("a", 1, 0, "second branch"));
    state.put_issued_address(address("a", 0, 5, "later"));
    state.put_issued_address(address("a", 0, 2, "earlier"));
    state.put_issued_address(address("a", 0, 5, "replaced"));
    let texts: Vec<String> = state
        .issued_addresses("a")
        .into_iter()
        .map(|address| address.address)
        .collect();
    assert_eq!(texts, vec!["earlier", "replaced", "second branch"]);
    assert_eq!(state.issued_address("a", 0, 2).unwrap().address, "earlier");
    assert!(state.issued_address("a", 0, 3).is_none());
    assert!(state.issued_address("b", 0, 2).is_none());
}

#[test]
fn failures_are_counted_by_kind() {
    let mut state = AppState::new("rpc".to_owned(), "regtest".to_owned());
    state.put_record(record("a"));
    assert_eq!(
        state.report_descriptor_failure("a", "update", "lost", false, 5),
        Some(true)
    );
    assert_eq!(
        state.report_descriptor_failure("a", "bookkeeper_delivery", "lost", false, 6),
        Some(true)
    );
    assert_eq!(
        state.report_descriptor_failure("a", "bookkeeper_reorg", "deep", true, 7),
        Some(true)
    );
    assert_eq!(
        state.report_descriptor_failure("a", "update", "lost", false, 8),
        Some(false)
    );
    assert_eq!(
        state.report_descriptor_failure("nobody", "update", "lost", false, 9),
        None
    );
    state.record_reorg();
    assert_eq!(state.inner.reconciliation_failures, 3);
    assert_eq!(state.inner.bookkeeper_failures, 1);
    assert_eq!(state.inner.reorgs, 2);
    let incident = state.record("a").unwrap().incident.clone().unwrap();
    assert_eq!(incident.operation, "bookkeeper_reorg");
    assert!(incident.operator_action_required);
}

#[test]
fn every_record_stands_under_its_own_name() {
    let mut state = AppState::new("rpc".to_owned(), "regtest".to_owned());
    state.put_record(record("b"));
    state.put_record(record("a"));
    state.put_issued_address(address("c", 0, 0, "one"));
    let scan = state.begin_scan("a", "id".to_owned()).unwrap();
    state.end_scan(&scan);
    state.report_descriptor_failure("b", "update", "lost", false, 5);
    state.remove_record("a");
    state.put_record(record("c"));
    state.record_reorg();
    assert_eq!(state.record_names(), vec!["b", "c"]);
    for name in state.record_names() {
        assert_eq!(state.record(&name).unwrap().config.name, name);
    }
}
