use cln_tracker::error::TrackerError;
use cln_tracker::json::Json;
use cln_tracker::model::{
    DescriptorConfig, DescriptorRecord, DescriptorStatus, MovementKind, PendingMovement,
};
use cln_tracker::ordered::TextMap;
use cln_tracker::requests::{
    acknowledgement_view, failure_line, names_to_drain, names_to_reconcile,
    on_bwatch_block_processed, on_bwatch_block_reverted, parse_request, reconcile_view,
    reconciled_view, unreconciled_view,
};
use cln_tracker::state::AppState;
use std::collections::BTreeMap;

fn record(name: &str, descriptor: &str, branches: u32, lookahead: u32) -> DescriptorRecord {
    DescriptorRecord {
        config: DescriptorConfig {
            name: name.to_owned(),
            descriptor: descriptor.to_owned(),
            birthheight: 100,
            lookahead,
            confirmations: 1,
        },
        utxos: TextMap::new(),
        pending_movements: TextMap::new(),
        external_outpoints: TextMap::new(),
        next_indexes: BTreeMap::new(),
        range_ends: (0..branches).map(|branch| (branch, lookahead)).collect(),
        last_used_indexes: BTreeMap::new(),
        range_end: lookahead,
        last_used_index: None,
        status: DescriptorStatus::Active,
        initial_scan_complete: true,
        pending_rescan: None,
        scan_operation_id: None,
        incident: None,
        last_success_at: None,
        generation: None,
    }
}

fn text(value: &str) -> Json {
    Json::Text(value.to_owned())
}

#[test]
fn positional_rpc_parameters_are_supported() {
    let request = parse_request(
        &Json::List(vec![text("treasury"), Json::Number(50)]),
        &vec!["name", "lookahead", "confirmations"],
    )
    .unwrap();
    assert_eq!(request.get_str("name"), Some(&"treasury".to_owned()));
    assert_eq!(request.get_u64("lookahead"), Some(50));
    assert_eq!(request.get("confirmations"), None);
}

#[test]
fn excess_positional_parameters_are_rejected() {
    let result = parse_request(&Json::List(vec![text("treasury"), text("extra")]), &vec!["name"]);
    assert!(result.is_err());
    assert_eq!(result.err(), Some(TrackerError::TooManyParameters));
}

#[test]
fn rescan_parameters_are_optional() {
    let request = parse_request(
        &Json::Object(vec![("name".to_owned(), text("treasury"))]),
        &vec!["name", "start_block", "lookahead"],
    )
    .unwrap();
    assert_eq!(request.get_str("name"), Some(&"treasury".to_owned()));
    assert_eq!(request.get("start_block"), None);
    assert_eq!(request.get("lookahead"), None);

    let request = parse_request(
        &Json::List(vec![text("treasury"), Json::Number(850_000), Json::Number(500)]),
        &vec!["name", "start_block", "lookahead"],
    )
    .unwrap();
    assert_eq!(request.get_u64("start_block"), Some(850_000));
    assert_eq!(request.get_u64("lookahead"), Some(500));
}

#[test]
fn a_block_concerns_descriptors_that_wait() {
    let mut state = AppState::new("rpc".to_owned(), "regtest".to_owned());
    let movement = PendingMovement {
        id: "deposit:aa:0".to_owned(),
        kind: MovementKind::Deposit,
        outpoint: "aa:0".to_owned(),
        amount_msat: 1,
        blockheight: 2,
        timestamp: 3,
        spending_txid: None,
        description: None,
    };
    let mut waiting = record("b", "unused", 1, 1);
    waiting
        .pending_movements
        .insert(movement.id.clone(), movement);
    let mut deleting = waiting.clone();
    deleting.config.name = "c".to_owned();
    deleting.status = DescriptorStatus::Deleting;
    state.put_record(record("a", "unused", 1, 1));
    state.put_record(waiting);
    state.put_record(deleting);
    assert_eq!(names_to_drain(&state), vec!["b".to_owned()]);
    assert_eq!(names_to_reconcile(&state, &None).len(), 3);
    assert_eq!(
        names_to_reconcile(&state, &Some("x".to_owned())),
        vec!["x".to_owned()]
    );
}

#[test]
fn failures_of_a_block_are_joined() {
    assert!(on_bwatch_block_processed(7, &vec![]).is_ok());
    assert!(on_bwatch_block_reverted(7, &vec![]).is_ok());
    let failures = vec![failure_line("a", "lost"), failure_line("b", "late")];
    assert_eq!(
        on_bwatch_block_processed(7, &failures).err().unwrap().message(),
        "failed to process bwatch block 7: a: lost; b: late"
    );
    assert_eq!(
        on_bwatch_block_reverted(8, &vec![failure_line("a", "lost")])
            .err()
            .unwrap()
            .message(),
        "failed to revert bwatch block 8: a: lost"
    );
}

#[test]
fn each_descriptor_is_answered() {
    let shown = reconcile_view(vec![
        reconciled_view("a", Json::Null),
        unreconciled_view("b", "lost"),
    ]);
    let entries = shown.get_list("reconciled").unwrap();
    assert_eq!(entries[0].get("ok"), Some(&Json::Bool(true)));
    assert_eq!(entries[0].get("result"), Some(&Json::Null));
    assert_eq!(entries[1].get("ok"), Some(&Json::Bool(false)));
    assert_eq!(entries[1].get_str("error"), Some(&"lost".to_owned()));
    assert_eq!(
        acknowledgement_view("a", true).get("acknowledged"),
        Some(&Json::Bool(true))
    );
}
