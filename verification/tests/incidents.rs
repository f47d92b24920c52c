use cln_tracker::error::{Refusal, TrackerError};
use cln_tracker::incidents::{
    ack_incident, failure_operation, incident_code, mark_success, persist_failure,
    report_descriptor_success,
};
use cln_tracker::model::{DescriptorConfig, DescriptorRecord, DescriptorStatus};
use cln_tracker::ordered::TextMap;
use std::collections::BTreeMap;

fn record() -> DescriptorRecord {
    DescriptorRecord {
        config: DescriptorConfig {
            name: "treasury".to_owned(),
            descriptor: "unused".to_owned(),
            birthheight: 1,
            lookahead: 1,
            confirmations: 1,
        },
        utxos: TextMap::new(),
        pending_movements: TextMap::new(),
        external_outpoints: TextMap::new(),
        next_indexes: BTreeMap::new(),
        range_ends: BTreeMap::new(),
        last_used_indexes: BTreeMap::new(),
        range_end: 1,
        last_used_index: None,
        status: DescriptorStatus::Active,
        initial_scan_complete: true,
        pending_rescan: None,
        scan_operation_id: None,
        incident: None,
        last_success_at: None,
        generation: None,
    }
}

#[test]
fn booked_reorg_has_a_distinct_incident_code() {
    assert_eq!(
        incident_code(
            "bookkeeper_reorg",
            "Bookkeeper movements require manual reconciliation"
        ),
        "bookkeeper_reorg"
    );
    assert_eq!(
        incident_code("bookkeeper_delivery", "Bookkeeper RPC failed"),
        "bookkeeper_injection_failed"
    );
}

#[test]
fn each_failure_has_a_code() {
    assert_eq!(
        incident_code("rescan", "Historical rescan failed at block 7"),
        "historical_block_unavailable"
    );
    assert_eq!(
        incident_code("bwatch_event", "Bookkeeper is away"),
        "bookkeeper_injection_failed"
    );
    assert_eq!(
        incident_code("update", "wrong generation"),
        "datastore_generation_conflict"
    );
    assert_eq!(
        incident_code("update", "lookahead is too large"),
        "lookahead_extension_failed"
    );
    assert_eq!(
        incident_code("update", "bad derivation range"),
        "lookahead_extension_failed"
    );
    assert_eq!(
        incident_code("update", "bwatch is away"),
        "watch_reconciliation_failed"
    );
    assert_eq!(incident_code("update", "lost"), "tracker_operation_failed");
    assert_eq!(
        failure_operation("Bookkeeper failed", "bookkeeper_event", "bwatch_event"),
        "bookkeeper_event"
    );
    assert_eq!(
        failure_operation("bookkeeper failed", "bookkeeper_event", "bwatch_event"),
        "bwatch_event"
    );
}

#[test]
fn repeated_failures_are_counted() {
    let mut kept = record();
    assert!(persist_failure(&mut kept, "update", "lost", false, 10));
    assert!(persist_failure(&mut kept, "update", "lost again", false, 20));
    let incident = kept.incident.clone().unwrap();
    assert_eq!(incident.code, "tracker_operation_failed");
    assert_eq!(incident.message, "lost again");
    assert_eq!(incident.first_seen, 10);
    assert_eq!(incident.last_seen, 20);
    assert_eq!(incident.retry_count, 2);
    assert!(persist_failure(&mut kept, "rescan", "lost", false, 30));
    let incident = kept.incident.clone().unwrap();
    assert_eq!(incident.operation, "rescan");
    assert_eq!(incident.first_seen, 30);
    assert_eq!(incident.retry_count, 1);
}

#[test]
fn operator_incidents_outlive_other_failures_and_successes() {
    let mut kept = record();
    assert!(persist_failure(&mut kept, "bookkeeper_reorg", "deep", true, 10));
    let incident = kept.incident.clone();
    assert!(!persist_failure(&mut kept, "update", "lost", false, 20));
    assert_eq!(kept.incident, incident);
    mark_success(&mut kept, "bookkeeper_delivery", 30);
    assert_eq!(kept.incident, incident);
    assert_eq!(kept.last_success_at, Some(30));
    assert_eq!(ack_incident(&mut kept, 40), Ok(true));
    assert_eq!(kept.incident, None);
    assert_eq!(kept.last_success_at, Some(40));
    assert_eq!(ack_incident(&mut kept, 50), Ok(false));
}

#[test]
fn events_do_not_hide_the_incident_of_a_descriptor_that_is_syncing() {
    let mut kept = record();
    kept.status = DescriptorStatus::Syncing;
    assert!(persist_failure(&mut kept, "update", "lost", false, 10));
    assert!(!persist_failure(&mut kept, "bwatch_event", "lost", false, 20));
    assert_eq!(kept.incident.clone().unwrap().operation, "update");
    kept.status = DescriptorStatus::Active;
    assert!(persist_failure(&mut kept, "bwatch_event", "lost", false, 30));
    assert_eq!(kept.incident.unwrap().operation, "bwatch_event");
}

#[test]
fn successes_resolve_the_incidents_of_their_kind() {
    let mut kept = record();
    persist_failure(&mut kept, "register", "lost", false, 10);
    mark_success(&mut kept, "new_address", 20);
    assert!(kept.incident.is_some());
    mark_success(&mut kept, "update", 30);
    assert!(kept.incident.is_none());
    persist_failure(&mut kept, "bookkeeper_delivery", "lost", false, 40);
    let operations = vec!["bookkeeper_event".to_owned(), "bwatch_event".to_owned()];
    assert!(!report_descriptor_success(&mut kept, &operations, 50));
    mark_success(&mut kept, "bookkeeper_event", 60);
    assert!(kept.incident.is_none());
    persist_failure(&mut kept, "bwatch_event", "lost", false, 70);
    assert!(report_descriptor_success(&mut kept, &operations, 80));
    assert!(kept.incident.is_none());
    assert_eq!(kept.last_success_at, Some(80));
}

#[test]
fn operational_incidents_cannot_be_acknowledged() {
    let mut kept = record();
    persist_failure(&mut kept, "update", "lost", false, 10);
    let refused = ack_incident(&mut kept, 20);
    assert_eq!(
        refused,
        Err(Refusal {
            error: TrackerError::IncidentOperational,
            subject: "tracker_operation_failed".to_owned(),
            cause: String::new(),
        })
    );
    assert_eq!(
        refused.err().unwrap().message(),
        "incident 'tracker_operation_failed' is operational and clears only after a successful retry"
    );
    assert!(kept.incident.is_some());
}
