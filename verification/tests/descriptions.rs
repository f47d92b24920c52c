use cln_tracker::descriptions::{
    describable_record, json_msat_is_nonzero, sync_descriptions, sync_view,
};
use cln_tracker::error::TrackerError;
use cln_tracker::json::Json;
use cln_tracker::model::{DescriptorConfig, DescriptorRecord, DescriptorStatus, TrackedUtxo};
use cln_tracker::ordered::TextMap;
use cln_tracker::state::AppState;
use std::collections::BTreeMap;

fn record(name: &str, descriptor: &str, branches: u32, lookahead: u32) -> DescriptorRecord {
    DescriptorRecord {
        config: DescriptorConfig {
            name: name.to_owned(),
            descriptor: descriptor.to_owned(),
            birthheight: 100,
            lookahead,
            confirmations: 1,
        },
        utxos: TextMap::new(),
        pending_movements: TextMap::new(),
        external_outpoints: TextMap::new(),
        next_indexes: BTreeMap::new(),
        range_ends: (0..branches).map(|branch| (branch, lookahead)).collect(),
        last_used_indexes: BTreeMap::new(),
        range_end: lookahead,
        last_used_index: None,
        status: DescriptorStatus::Active,
        initial_scan_complete: true,
        pending_rescan: None,
        scan_operation_id: None,
        incident: None,
        last_success_at: None,
        generation: None,
    }
}

fn text(value: &str) -> Json {
    Json::Text(value.to_owned())
}

fn output(outpoint: &str, annotation: Option<&str>) -> TrackedUtxo {
    TrackedUtxo {
        outpoint: outpoint.to_owned(),
        amount_msat: 1,
        derivation_index: 0,
        branch: 0,
        deposit_height: 1,
        spent_by: None,
        spent_height: None,
        annotation: annotation.map(str::to_owned),
    }
}

fn event(outpoint: &str, credit: Json, description: Option<&str>) -> Json {
    let mut fields = vec![
        ("outpoint".to_owned(), text(outpoint)),
        ("credit_msat".to_owned(), credit),
    ];
    if let Some(description) = description {
        fields.push(("description".to_owned(), text(description)));
    }
    Json::Object(fields)
}

#[test]
fn amounts_come_in_three_forms() {
    assert!(json_msat_is_nonzero(Some(&Json::Number(1))));
    assert!(!json_msat_is_nonzero(Some(&Json::Number(0))));
    assert!(json_msat_is_nonzero(Some(&text("5msat"))));
    assert!(!json_msat_is_nonzero(Some(&text("0msat"))));
    assert!(!json_msat_is_nonzero(Some(&text("5"))));
    assert!(!json_msat_is_nonzero(Some(&text("msat"))));
    assert!(!json_msat_is_nonzero(Some(&text("99999999999999999999msat"))));
    let object = Json::Object(vec![("msat".to_owned(), Json::Number(3))]);
    assert!(json_msat_is_nonzero(Some(&object)));
    assert!(!json_msat_is_nonzero(Some(&Json::Null)));
    assert!(!json_msat_is_nonzero(None));
}

#[test]
fn annotations_become_descriptions() {
    let mut kept = record("treasury", "unused", 1, 1);
    for (outpoint, annotation) in [
        ("aa:0", Some("new")),
        ("bb:0", Some("same")),
        ("cc:0", Some("other")),
        ("dd:0", Some("lost")),
        ("ee:0", None),
    ] {
        kept.utxos
            .insert(outpoint.to_owned(), output(outpoint, annotation));
    }
    let events = vec![
        event("aa:0", Json::Number(1), None),
        event("bb:0", Json::Number(1), Some("stale")),
        event("bb:0", text("1msat"), Some("same")),
        event("cc:0", Json::Number(1), Some("kept")),
        event("dd:0", Json::Number(0), Some("lost")),
        event("ee:0", Json::Number(1), Some("free")),
    ];
    let plan = sync_descriptions(&kept, &events, false);
    assert_eq!(plan.synced, vec!["aa:0"]);
    assert_eq!(plan.unchanged, vec!["bb:0"]);
    assert_eq!(plan.missing_events, vec!["dd:0"]);
    assert_eq!(plan.conflicts.len(), 1);
    assert_eq!(
        plan.conflicts[0].get_str("bookkeeper_description"),
        Some(&"kept".to_owned())
    );
    assert_eq!(plan.annotated, 4);
    assert_eq!(plan.calls.len(), 1);
    assert_eq!(plan.calls[0].method, "bkpr-editdescriptionbyoutpoint");
    assert_eq!(plan.calls[0].params.get_str("description"), Some(&"new".to_owned()));
    let shown = sync_view("treasury", false, plan);
    assert_eq!(shown.get_u64("annotated_utxos"), Some(4));
    assert_eq!(shown.get_list("synced"), Some(&vec![text("aa:0")]));

    let forced = sync_descriptions(&kept, &events, true);
    assert_eq!(forced.synced, vec!["aa:0", "cc:0"]);
    assert!(forced.conflicts.is_empty());
}

#[test]
fn descriptions_are_synchronised_for_live_descriptors() {
    let mut state = AppState::new("rpc".to_owned(), "regtest".to_owned());
    assert_eq!(
        describable_record(&state, "treasury").err().unwrap().error,
        TrackerError::NotRegistered
    );
    let mut kept = record("treasury", "unused", 1, 1);
    state.put_record(kept.clone());
    assert!(describable_record(&state, "treasury").is_ok());
    kept.status = DescriptorStatus::Deleting;
    state.put_record(kept);
    assert_eq!(
        describable_record(&state, "treasury").err().unwrap().error,
        TrackerError::BeingDeleted
    );
    let _scan = state.begin_scan("treasury", "1-2-3".to_owned()).unwrap();
    assert_eq!(
        describable_record(&state, "treasury").err().unwrap().error,
        TrackerError::ScanActive
    );
}
