use cln_tracker::descriptor::DescriptorSet;
use cln_tracker::error::TrackerError;
use cln_tracker::json::Json;
use cln_tracker::lifecycle::{
    activate, check_rescan, complete_initial_scan, finish_reconciliation, finish_registration,
    finish_rescan, inspect, list, mark_scan, reconcile_descriptor, register, removal_view, rescan,
    rescan_resume_parameters_match, rescan_watches, unregister, update, UpdateStep,
};
use cln_tracker::model::{
    script_owner, DescriptorConfig, DescriptorRecord, DescriptorStatus, PendingRescan,
    RegisterRequest, RescanRequest, TrackedUtxo, UpdateRequest,
};
use cln_tracker::ordered::TextMap;
use cln_tracker::scripts::ensure_no_script_overlap;
use cln_tracker::state::AppState;
use miniscript::bitcoin::bip32::{Xpriv, Xpub};
use miniscript::bitcoin::secp256k1::Secp256k1;
use miniscript::bitcoin::NetworkKind;
use miniscript::descriptor::{Descriptor, DescriptorPublicKey};
use std::collections::BTreeMap;
use std::str::FromStr;

fn with_checksum(body: &str) -> String {
    Descriptor::<DescriptorPublicKey>::from_str(body)
        .unwrap()
        .to_string()
}

fn ranged_descriptor(seed: u8) -> String {
    let secp = Secp256k1::new();
    let private = Xpriv::new_master(NetworkKind::Test, &[seed; 32]).unwrap();
    with_checksum(&format!(
        "wpkh({}/<0;1>/*)",
        Xpub::from_priv(&secp, &private)
    ))
}

fn record(name: &str, descriptor: &str, branches: u32, lookahead: u32) -> DescriptorRecord {
    DescriptorRecord {
        config: DescriptorConfig {
            name: name.to_owned(),
            descriptor: descriptor.to_owned(),
            birthheight: 100,
            lookahead,
            confirmations: 1,
        },
        utxos: TextMap::new(),
        pending_movements: TextMap::new(),
        external_outpoints: TextMap::new(),
        next_indexes: BTreeMap::new(),
        range_ends: (0..branches).map(|branch| (branch, lookahead)).collect(),
        last_used_indexes: BTreeMap::new(),
        range_end: lookahead,
        last_used_index: None,
        status: DescriptorStatus::Active,
        initial_scan_complete: true,
        pending_rescan: None,
        scan_operation_id: None,
        incident: None,
        last_success_at: None,
        generation: None,
    }
}

const STATIC_BODY: &str =
    "wpkh(0279be667ef9dcbbac55a06295ce870b07029bfcdb2dce28d959f2815b16f81798)";

fn empty_state() -> AppState {
    AppState::new("rpc".to_owned(), "regtest".to_owned())
}

fn registration(name: &str, descriptor: &str) -> RegisterRequest {
    RegisterRequest {
        name: name.to_owned(),
        descriptor: descriptor.to_owned(),
        birthheight: 100,
        lookahead: 1,
        confirmations: 3,
    }
}

fn output(outpoint: &str, branch: u32, index: u32) -> TrackedUtxo {
    TrackedUtxo {
        outpoint: outpoint.to_owned(),
        amount_msat: 1_000,
        derivation_index: index,
        branch,
        deposit_height: 120,
        spent_by: None,
        spent_height: None,
        annotation: None,
    }
}

#[test]
fn overlapping_registered_scripts_are_rejected() {
    let descriptor = with_checksum(STATIC_BODY);
    let config = DescriptorConfig {
        name: "first".to_owned(),
        descriptor: descriptor.clone(),
        birthheight: 1,
        lookahead: 1,
        confirmations: 1,
    };
    let mut records = TextMap::new();
    records.insert(
        config.name.clone(),
        DescriptorRecord {
            config,
            utxos: TextMap::new(),
            pending_movements: TextMap::new(),
            external_outpoints: TextMap::new(),
            next_indexes: BTreeMap::new(),
            range_ends: BTreeMap::from([(0, 1)]),
            last_used_indexes: BTreeMap::new(),
            range_end: 1,
            last_used_index: None,
            status: DescriptorStatus::Active,
            initial_scan_complete: true,
            pending_rescan: None,
            scan_operation_id: None,
            incident: None,
            last_success_at: None,
            generation: None,
        },
    );
    let candidate = DescriptorSet::parse_checked(&descriptor, "regtest")
        .unwrap()
        .derive_range(0, 1)
        .unwrap();

    assert!(ensure_no_script_overlap("second", &candidate, &records, "regtest").is_err());
    assert!(ensure_no_script_overlap("first", &candidate, &records, "regtest").is_ok());
}

#[test]
fn persisted_rescan_intent_is_resumable_with_exact_parameters() {
    let pending = PendingRescan {
        start_block: 825_000,
    };
    assert!(rescan_resume_parameters_match(&pending, 200, 825_000, 200));
    assert!(!rescan_resume_parameters_match(&pending, 200, 825_001, 200));
    assert!(!rescan_resume_parameters_match(&pending, 200, 825_000, 201));
}

#[test]
fn a_registration_goes_through_its_scan() {
    let mut state = empty_state();
    let descriptor = with_checksum(STATIC_BODY);
    let planned = register(&state, &registration("cold", &descriptor)).unwrap();
    assert_eq!(planned.branches, 1);
    assert_eq!(
        planned.watches,
        vec![(
            script_owner("cold", 0, 0),
            "0014751e76e8199196d454941c45d1b3a323f1433bd6".to_owned()
        )]
    );
    let mut kept = planned.record;
    assert_eq!(kept.status, DescriptorStatus::Syncing);
    assert_eq!(kept.range_ends, BTreeMap::from([(0, 1)]));
    assert_eq!(kept.range_end, 1);
    assert_eq!(kept.config.confirmations, 3);
    assert!(!kept.initial_scan_complete);
    mark_scan(&mut kept, "7-8-9");
    state.put_record(kept.clone());

    let resumed = register(&state, &registration("cold", &descriptor)).unwrap();
    assert_eq!(resumed.record, kept);
    let mut other = registration("cold", &descriptor);
    other.birthheight = 101;
    assert_eq!(
        register(&state, &other).err().unwrap().message(),
        "descriptor 'cold' is already registered"
    );
    assert_eq!(
        register(&state, &registration("twin", &descriptor)).err().unwrap().error,
        TrackerError::Overlap
    );

    assert_eq!(
        complete_initial_scan(&mut kept, "7-8-8"),
        Err(TrackerError::RegistrationChanged)
    );
    assert_eq!(complete_initial_scan(&mut kept, "7-8-9"), Ok(true));
    assert_eq!(complete_initial_scan(&mut kept, "7-8-9"), Ok(false));
    finish_registration(&mut kept, 50);
    assert_eq!(kept.status, DescriptorStatus::Active);
    assert_eq!(kept.scan_operation_id, None);
    assert_eq!(kept.last_success_at, Some(50));
    state.put_record(kept);
    assert_eq!(
        register(&state, &registration("cold", &descriptor)).err().unwrap().error,
        TrackerError::AlreadyRegistered
    );
}

#[test]
fn a_registration_is_validated() {
    let state = empty_state();
    let descriptor = with_checksum(STATIC_BODY);
    let refused = |change: fn(&mut RegisterRequest)| {
        let mut request = registration("cold", &descriptor);
        change(&mut request);
        register(&state, &request).err().unwrap().error
    };
    assert_eq!(refused(|r| r.name = "a/b".to_owned()), TrackerError::NameCharacters);
    assert_eq!(refused(|r| r.name = String::new()), TrackerError::NameEmpty);
    assert_eq!(refused(|r| r.name = "a".repeat(65)), TrackerError::NameTooLong);
    assert_eq!(refused(|r| r.lookahead = 0), TrackerError::LookaheadZero);
    assert_eq!(
        refused(|r| r.lookahead = 100_001),
        TrackerError::LookaheadTooLarge
    );
    assert_eq!(refused(|r| r.confirmations = 0), TrackerError::ConfirmationsZero);
    assert_eq!(
        refused(|r| r.confirmations = 2_017),
        TrackerError::ConfirmationsTooLarge
    );
    assert_eq!(refused(|r| r.lookahead = 2), TrackerError::StaticLookahead);
}

#[test]
fn a_rescan_is_resumed_with_what_it_asked_for() {
    let mut state = empty_state();
    state.put_record(record("treasury", &ranged_descriptor(5), 2, 4));
    let request = RescanRequest {
        name: "treasury".to_owned(),
        start_block: Some(150),
        lookahead: Some(6),
    };
    let planned = rescan(&state, &request).unwrap();
    assert_eq!(planned.start_block, 150);
    let mut kept = planned.record;
    assert_eq!(kept.config.lookahead, 6);
    assert_eq!(kept.range_ends, BTreeMap::from([(0, 6), (1, 6)]));
    assert_eq!(kept.range_end, 6);
    assert_eq!(kept.status, DescriptorStatus::Syncing);
    assert_eq!(kept.pending_rescan, Some(PendingRescan { start_block: 150 }));
    let watches = rescan_watches(&kept, "regtest").unwrap();
    assert_eq!(watches.len(), 12);
    assert_eq!(watches[6].0, script_owner("treasury", 1, 0));
    state.put_record(kept.clone());
    assert_eq!(rescan(&state, &request).unwrap().record, kept);
    let bare = RescanRequest {
        name: "treasury".to_owned(),
        start_block: None,
        lookahead: None,
    };
    assert_eq!(rescan(&state, &bare).unwrap().start_block, 150);
    let other = RescanRequest { start_block: Some(151), ..request.clone() };
    assert_eq!(
        rescan(&state, &other).err().unwrap().message(),
        "descriptor 'treasury' has an interrupted rescan; retry start_block=150 lookahead=6 first"
    );
    mark_scan(&mut kept, "1-2-3");
    assert_eq!(check_rescan(&kept, 150, "1-2-3"), Ok(()));
    assert_eq!(check_rescan(&kept, 151, "1-2-3"), Err(TrackerError::RescanChanged));
    assert_eq!(
        check_rescan(&kept, 150, "1-2-4"),
        Err(TrackerError::RescanIdentityChanged)
    );
    finish_rescan(&mut kept, 60);
    assert_eq!(kept.pending_rescan, None);
    assert_eq!(kept.status, DescriptorStatus::Active);
    assert_eq!(kept.scan_operation_id, None);
    state.put_record(kept);
    assert_eq!(rescan(&state, &bare).unwrap().start_block, 100);
}

#[test]
fn a_rescan_is_refused_where_it_cannot_begin() {
    let mut state = empty_state();
    let request = RescanRequest {
        name: "treasury".to_owned(),
        start_block: Some(99),
        lookahead: None,
    };
    assert_eq!(
        rescan(&state, &request).err().unwrap().error,
        TrackerError::NotRegistered
    );
    let mut kept = record("treasury", &with_checksum(STATIC_BODY), 1, 1);
    state.put_record(kept.clone());
    assert_eq!(
        rescan(&state, &request).err().unwrap().message(),
        "start_block cannot be earlier than descriptor birthheight 100"
    );
    let wide = RescanRequest { lookahead: Some(2), ..request.clone() };
    assert_eq!(
        rescan(&state, &wide).err().unwrap().error,
        TrackerError::StaticLookahead
    );
    let none = RescanRequest { lookahead: Some(0), ..request.clone() };
    assert_eq!(rescan(&state, &none).err().unwrap().error, TrackerError::LookaheadZero);
    let plain = RescanRequest { start_block: None, ..request };
    kept.status = DescriptorStatus::Syncing;
    state.put_record(kept.clone());
    assert_eq!(
        rescan(&state, &plain).err().unwrap().error,
        TrackerError::OtherInterrupted
    );
    kept.initial_scan_complete = false;
    state.put_record(kept.clone());
    assert_eq!(
        rescan(&state, &plain).err().unwrap().error,
        TrackerError::InitialScanInterrupted
    );
    kept.status = DescriptorStatus::Deleting;
    state.put_record(kept);
    assert_eq!(rescan(&state, &plain).err().unwrap().error, TrackerError::BeingDeleted);
}

#[test]
fn an_update_moves_the_frontier_and_keeps_outputs() {
    let mut state = empty_state();
    let mut kept = record("treasury", &ranged_descriptor(5), 2, 4);
    kept.last_used_indexes = BTreeMap::from([(0, 7)]);
    kept.last_used_index = Some(7);
    kept.next_indexes = BTreeMap::from([(1, 3)]);
    kept.utxos.insert("aa:0".to_owned(), output("aa:0", 0, 7));
    state.put_record(kept.clone());
    let request = UpdateRequest {
        name: "treasury".to_owned(),
        lookahead: Some(2),
        confirmations: Some(6),
    };
    let planned = update(&state, &request).unwrap();
    assert_eq!(planned.step, UpdateStep::Changed);
    let mut after = planned.record;
    assert_eq!(after.range_ends, BTreeMap::from([(0, 10), (1, 5)]));
    assert_eq!(after.range_end, 10);
    assert_eq!(after.config.confirmations, 6);
    assert_eq!(after.utxos, kept.utxos);
    assert_eq!(after.status, DescriptorStatus::Syncing);
    state.put_record(after.clone());
    let resumed = update(&state, &request).unwrap();
    assert_eq!(resumed.step, UpdateStep::Resumed);
    assert_eq!(resumed.record, after);
    let other = UpdateRequest { lookahead: Some(3), ..request.clone() };
    assert_eq!(
        update(&state, &other).err().unwrap().message(),
        "descriptor 'treasury' has an interrupted update; retry lookahead=2 confirmations=6 first"
    );
    activate(&mut after, "update", 70);
    assert_eq!(after.status, DescriptorStatus::Active);
    assert_eq!(after.last_success_at, Some(70));
    state.put_record(after.clone());
    let same = update(&state, &request).unwrap();
    assert_eq!(same.step, UpdateStep::Unchanged);
    assert_eq!(same.record, after);
}

#[test]
fn an_update_is_refused_where_it_cannot_begin() {
    let mut state = empty_state();
    let bare = UpdateRequest {
        name: "cold".to_owned(),
        lookahead: None,
        confirmations: None,
    };
    assert_eq!(update(&state, &bare).err().unwrap().error, TrackerError::UpdateEmpty);
    let request = UpdateRequest { lookahead: Some(1), ..bare.clone() };
    assert_eq!(update(&state, &request).err().unwrap().error, TrackerError::NotRegistered);
    let deep = UpdateRequest { confirmations: Some(0), ..bare.clone() };
    assert_eq!(
        update(&state, &deep).err().unwrap().error,
        TrackerError::ConfirmationsZero
    );
    let mut kept = record("cold", &with_checksum(STATIC_BODY), 1, 1);
    state.put_record(kept.clone());
    let wide = UpdateRequest { lookahead: Some(2), ..bare };
    assert_eq!(update(&state, &wide).err().unwrap().error, TrackerError::StaticLookahead);
    kept.status = DescriptorStatus::Syncing;
    kept.pending_rescan = Some(PendingRescan { start_block: 100 });
    state.put_record(kept.clone());
    assert_eq!(update(&state, &request).err().unwrap().error, TrackerError::RescanFirst);
    kept.pending_rescan = None;
    kept.initial_scan_complete = false;
    state.put_record(kept.clone());
    assert_eq!(
        update(&state, &request).err().unwrap().error,
        TrackerError::InitialScanInterrupted
    );
    kept.status = DescriptorStatus::Deleting;
    state.put_record(kept);
    assert_eq!(update(&state, &request).err().unwrap().error, TrackerError::BeingDeleted);
    let scan = state.begin_scan("cold", "1-2-3".to_owned()).unwrap();
    assert_eq!(
        update(&state, &request).err().unwrap().message(),
        "descriptor 'cold' has an active scan"
    );
    state.end_scan(&scan);
}

#[test]
fn a_removal_is_stored_before_it_is_done() {
    let mut state = empty_state();
    assert_eq!(
        unregister(&state, "cold").err().unwrap().message(),
        "descriptor 'cold' is not registered"
    );
    state.put_record(record("cold", &with_checksum(STATIC_BODY), 1, 1));
    let removal = unregister(&state, "cold").unwrap();
    assert!(removal.store);
    assert_eq!(removal.record.status, DescriptorStatus::Deleting);
    state.put_record(removal.record);
    assert!(!unregister(&state, "cold").unwrap().store);
    let resumed = reconcile_descriptor(&state, "cold").unwrap();
    assert!(resumed.removes);
    assert_eq!(
        removal_view("cold"),
        Json::Object(vec![
            ("name".to_owned(), Json::Text("cold".to_owned())),
            ("removed".to_owned(), Json::Bool(true)),
        ])
    );
}

#[test]
fn a_reconciliation_waits_for_scans() {
    let mut state = empty_state();
    let mut kept = record("cold", &with_checksum(STATIC_BODY), 1, 1);
    kept.initial_scan_complete = false;
    state.put_record(kept.clone());
    assert_eq!(
        reconcile_descriptor(&state, "cold").err().unwrap().error,
        TrackerError::InitialScanInterrupted
    );
    kept.initial_scan_complete = true;
    kept.pending_rescan = Some(PendingRescan { start_block: 100 });
    state.put_record(kept.clone());
    assert_eq!(
        reconcile_descriptor(&state, "cold").err().unwrap().error,
        TrackerError::RescanInterrupted
    );
    kept.pending_rescan = None;
    kept.status = DescriptorStatus::Syncing;
    kept.scan_operation_id = Some("1-2-3".to_owned());
    state.put_record(kept);
    let planned = reconcile_descriptor(&state, "cold").unwrap();
    assert!(!planned.removes);
    let mut after = planned.record;
    finish_reconciliation(&mut after, 80);
    assert_eq!(after.status, DescriptorStatus::Active);
    assert_eq!(after.scan_operation_id, None);
    assert_eq!(after.last_success_at, Some(80));
}

#[test]
fn descriptors_are_shown() {
    let mut state = empty_state();
    let mut kept = record("treasury", &ranged_descriptor(5), 2, 4);
    kept.utxos.insert("aa:0".to_owned(), output("aa:0", 1, 3));
    kept.external_outpoints.insert("bb:1".to_owned(), ());
    state.put_record(kept);
    state.put_record(record("cold", &with_checksum(STATIC_BODY), 1, 1));
    let shown = inspect(&state, "treasury").unwrap();
    assert_eq!(shown.get_str("name"), Some(&"treasury".to_owned()));
    assert_eq!(shown.get_u64("branches"), Some(2));
    assert_eq!(shown.get_u64("lookahead"), Some(4));
    assert_eq!(shown.get_str("status"), Some(&"active".to_owned()));
    assert_eq!(shown.get("pending_rescan"), Some(&Json::Null));
    assert_eq!(
        shown.get("range_ends"),
        Some(&Json::Object(vec![
            ("0".to_owned(), Json::Number(4)),
            ("1".to_owned(), Json::Number(4)),
        ]))
    );
    assert_eq!(
        shown.get_list("external_outpoints"),
        Some(&vec![Json::Text("bb:1".to_owned())])
    );
    let outputs = shown.get_list("tracked_utxos").unwrap();
    assert_eq!(outputs[0].get_u64("derivation_index"), Some(3));
    assert_eq!(outputs[0].get("spent_by"), None);
    assert_eq!(
        inspect(&state, "nobody").err().unwrap().error,
        TrackerError::NotRegistered
    );
    let all = list(&state).unwrap();
    let names: Vec<String> = all
        .get_list("descriptors")
        .unwrap()
        .iter()
        .map(|view| view.get_str("name").unwrap().clone())
        .collect();
    assert_eq!(names, vec!["cold", "treasury"]);
}
