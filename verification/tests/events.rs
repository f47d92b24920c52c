use cln_tracker::descriptor::DescriptorSet;
use cln_tracker::error::TrackerError;
use cln_tracker::events::{
    deposit_movement_id, ensure_derivation_index_is_watched, handle_deposit, handle_spend,
    is_at_or_after_birthheight, issued_annotation, parse_notification, read_deposit, read_spend,
    record_deposit, record_spend, route_match, settle_deposit, spend_movement_id, watch_deposit,
    MatchRoute, MatchStep,
};
use cln_tracker::frontier::desired_range_end;
use cln_tracker::json::Json;
use cln_tracker::model::{
    outpoint_owner, script_owner, BwatchMatch, DescriptorConfig, DescriptorRecord,
    DescriptorStatus, IssuedAddress, MovementKind,
};
use cln_tracker::ordered::TextMap;
use cln_tracker::reorg::revert_at_height;
use cln_tracker::state::AppState;
use miniscript::bitcoin::absolute::LockTime;
use miniscript::bitcoin::consensus::encode::serialize_hex;
use miniscript::bitcoin::transaction::Version;
use miniscript::bitcoin::{
    Amount, OutPoint, ScriptBuf, Sequence, Transaction, TxIn, TxOut, Witness,
};
use miniscript::bitcoin::bip32::{Xpriv, Xpub};
use miniscript::bitcoin::secp256k1::Secp256k1;
use miniscript::bitcoin::NetworkKind;
use miniscript::descriptor::{Descriptor, DescriptorPublicKey};
use std::collections::BTreeMap;
use std::str::FromStr;

fn with_checksum(body: &str) -> String {
    Descriptor::<DescriptorPublicKey>::from_str(body)
        .unwrap()
        .to_string()
}

fn ranged_descriptor(seed: u8) -> String {
    let secp = Secp256k1::new();
    let private = Xpriv::new_master(NetworkKind::Test, &[seed; 32]).unwrap();
    with_checksum(&format!(
        "wpkh({}/<0;1>/*)",
        Xpub::from_priv(&secp, &private)
    ))
}

fn record(name: &str, descriptor: &str, branches: u32, lookahead: u32) -> DescriptorRecord {
    DescriptorRecord {
        config: DescriptorConfig {
            name: name.to_owned(),
            descriptor: descriptor.to_owned(),
            birthheight: 100,
            lookahead,
            confirmations: 1,
        },
        utxos: TextMap::new(),
        pending_movements: TextMap::new(),
        external_outpoints: TextMap::new(),
        next_indexes: BTreeMap::new(),
        range_ends: (0..branches).map(|branch| (branch, lookahead)).collect(),
        last_used_indexes: BTreeMap::new(),
        range_end: lookahead,
        last_used_index: None,
        status: DescriptorStatus::Active,
        initial_scan_complete: true,
        pending_rescan: None,
        scan_operation_id: None,
        incident: None,
        last_success_at: None,
        generation: None,
    }
}

fn transaction(previous: OutPoint, script: &str, sat: u64) -> Transaction {
    Transaction {
        version: Version::TWO,
        lock_time: LockTime::ZERO,
        input: vec![TxIn {
            previous_output: previous,
            script_sig: ScriptBuf::new(),
            sequence: Sequence::MAX,
            witness: Witness::new(),
        }],
        output: vec![TxOut {
            value: Amount::from_sat(sat),
            script_pubkey: ScriptBuf::from_hex(script).unwrap(),
        }],
    }
}

fn deposit_event(name: &str, branch: u32, index: u32, tx: &Transaction, height: u32) -> BwatchMatch {
    BwatchMatch {
        owner: script_owner(name, branch, index),
        watch_type: "scriptpubkey".to_owned(),
        blockheight: height,
        tx: Some(serialize_hex(tx)),
        index: Some(0),
        timestamp: Some(1_700_000_000),
        historical_scan: false,
    }
}

fn spend_event(name: &str, outpoint: &str, tx: &Transaction, height: u32) -> BwatchMatch {
    BwatchMatch {
        owner: outpoint_owner(name, outpoint),
        watch_type: "outpoint".to_owned(),
        blockheight: height,
        tx: Some(serialize_hex(tx)),
        index: Some(0),
        timestamp: None,
        historical_scan: false,
    }
}

fn watched_wallet() -> (AppState, DescriptorSet) {
    let descriptor = ranged_descriptor(3);
    let mut state = AppState::new("rpc".to_owned(), "regtest".to_owned());
    state.put_record(record("treasury", &descriptor, 2, 5));
    let set = DescriptorSet::parse_checked(&descriptor, "regtest").unwrap();
    (state, set)
}

#[test]
fn expanded_frontier_accepts_indexes_beyond_the_gap_size() {
    let lookahead = 20;
    let range_end = desired_range_end(Some(19), lookahead).unwrap();
    assert_eq!(range_end, 40);
    assert!(ensure_derivation_index_is_watched(30, range_end).is_ok());
    assert!(ensure_derivation_index_is_watched(range_end, range_end).is_err());
}

#[test]
fn matches_before_birthheight_are_ignored() {
    assert!(!is_at_or_after_birthheight(999, 1_000));
    assert!(is_at_or_after_birthheight(1_000, 1_000));
}

#[test]
fn movement_ids_are_owner_path_safe() {
    assert_eq!(deposit_movement_id("00aa:1"), "deposit:00aa:1");
    assert_eq!(spend_movement_id("00aa:1", "bbcc"), "spend:00aa:1:bbcc");
}

#[test]
fn a_notification_may_stand_under_its_topic() {
    let inner = Json::Object(vec![("owner".to_owned(), Json::Number(1))]);
    let outer = Json::Object(vec![(
        "bwatch_match".to_owned(),
        Json::Object(vec![("owner".to_owned(), Json::Number(2))]),
    )]);
    assert_eq!(
        parse_notification("bwatch_match", &inner).get_u64("owner"),
        Some(1)
    );
    assert_eq!(
        parse_notification("bwatch_match", &outer).get_u64("owner"),
        Some(2)
    );
}

#[test]
fn deposits_are_recorded_and_extend_every_branch() {
    let (state, set) = watched_wallet();
    let script = set.derive_one(1, 3).unwrap().scriptpubkey;
    let tx = transaction(OutPoint::null(), &script, 21);
    let event = deposit_event("treasury", 1, 3, &tx, 120);
    assert_eq!(
        route_match(&event).unwrap(),
        MatchRoute::Deposit { name: "treasury".to_owned(), branch: 1, index: 3 }
    );
    let output = read_deposit(&event).unwrap();
    assert_eq!(output.outpoint, format!("{}:0", tx.compute_txid()));
    assert_eq!(output.amount_msat, 21_000);
    assert_eq!(output.scriptpubkey, script);
    assert_eq!(
        handle_deposit(&state, "treasury", 1, 3, &event, &output).unwrap(),
        MatchStep::New
    );
    let recorded = record_deposit(
        &state,
        "treasury",
        1,
        3,
        &output,
        120,
        1_700_000_000,
        &Some("rent".to_owned()),
    )
    .unwrap();
    let after = &recorded.record;
    assert_eq!(after.status, DescriptorStatus::Syncing);
    assert_eq!(after.range_ends, BTreeMap::from([(0, 9), (1, 9)]));
    assert_eq!(after.range_end, 9);
    assert_eq!(after.last_used_index, Some(3));
    assert_eq!(after.last_used_indexes, BTreeMap::from([(1, 3)]));
    let places: Vec<(u32, u32)> = recorded.added.iter().map(|s| (s.branch, s.index)).collect();
    assert_eq!(
        places,
        vec![(0, 5), (0, 6), (0, 7), (0, 8), (1, 5), (1, 6), (1, 7), (1, 8)]
    );
    let kept = after.utxos.get(&output.outpoint).unwrap();
    assert_eq!(kept.amount_msat, 21_000);
    assert_eq!(kept.annotation, Some("rent".to_owned()));
    let movement = after
        .pending_movements
        .get(&deposit_movement_id(&output.outpoint))
        .unwrap();
    assert_eq!(movement.kind, MovementKind::Deposit);
    assert_eq!(movement.description, Some("rent".to_owned()));
    assert_eq!(movement.blockheight, 120);

    let calls = watch_deposit(after, &recorded.added, &output.outpoint, &event);
    let methods: Vec<&str> = calls.iter().map(|call| call.method.as_str()).collect();
    assert_eq!(
        methods,
        vec!["addscriptpubkeywatches", "rescanwatchset", "addoutpointwatch"]
    );
    let mut historical = event.clone();
    historical.historical_scan = true;
    assert!(watch_deposit(after, &recorded.added, &output.outpoint, &historical).is_empty());

    let mut settled = recorded.record.clone();
    assert!(!settle_deposit(&mut settled, true));
    assert!(settle_deposit(&mut settled, false));
    assert_eq!(settled.status, DescriptorStatus::Active);
    assert!(!settle_deposit(&mut settled, false));

    let mut later = AppState::new("rpc".to_owned(), "regtest".to_owned());
    later.put_record(recorded.record);
    assert_eq!(
        handle_deposit(&later, "treasury", 1, 3, &event, &output).unwrap(),
        MatchStep::Known { pending: true }
    );
    let again = record_deposit(&later, "treasury", 0, 2, &output, 121, 0, &None).unwrap();
    assert!(again.added.is_empty());
    assert_eq!(again.record.last_used_index, Some(3));
    assert_eq!(again.record.last_used_indexes, BTreeMap::from([(0, 2), (1, 3)]));
}

#[test]
fn static_descriptors_take_deposits() {
    let descriptor =
        with_checksum("wpkh(0279be667ef9dcbbac55a06295ce870b07029bfcdb2dce28d959f2815b16f81798)");
    let mut state = AppState::new("rpc".to_owned(), "regtest".to_owned());
    state.put_record(record("cold", &descriptor, 1, 1));
    let script = "0014751e76e8199196d454941c45d1b3a323f1433bd6";
    let tx = transaction(OutPoint::null(), script, 1);
    let event = deposit_event("cold", 0, 0, &tx, 100);
    let output = read_deposit(&event).unwrap();
    assert_eq!(
        handle_deposit(&state, "cold", 0, 0, &event, &output).unwrap(),
        MatchStep::New
    );
    let recorded = record_deposit(&state, "cold", 0, 0, &output, 100, 7, &None).unwrap();
    assert!(recorded.added.is_empty());
    assert_eq!(recorded.record.last_used_index, Some(0));
}

#[test]
fn deposits_that_do_not_fit_are_refused() {
    let (mut state, set) = watched_wallet();
    let script = set.derive_one(0, 1).unwrap().scriptpubkey;
    let tx = transaction(OutPoint::null(), &script, 5);
    let event = deposit_event("treasury", 0, 1, &tx, 120);
    let output = read_deposit(&event).unwrap();
    let refused = |state: &AppState, branch, index, event: &BwatchMatch| {
        handle_deposit(state, "treasury", branch, index, event, &output)
            .err()
            .unwrap()
            .error
    };
    assert_eq!(refused(&state, 0, 2, &event), TrackerError::ScriptMismatch);
    assert_eq!(refused(&state, 0, 5, &event), TrackerError::IndexUnwatched);
    assert_eq!(
        refused(&state, 2, 1, &event),
        TrackerError::NoSuchBranch { branch: 2 }
    );
    let mut historical = event.clone();
    historical.historical_scan = true;
    assert_eq!(refused(&state, 0, 5, &historical), TrackerError::ScriptMismatch);
    assert_eq!(
        refused(&state, 0, 100_000, &historical),
        TrackerError::IndexUnwatched
    );
    let nobody = handle_deposit(&state, "nobody", 0, 1, &event, &output).err().unwrap();
    assert_eq!(nobody.message(), "unknown descriptor 'nobody' in bwatch owner");
    let mut early = event.clone();
    early.blockheight = 99;
    assert_eq!(
        handle_deposit(&state, "treasury", 0, 1, &early, &output).unwrap(),
        MatchStep::Ignored
    );
    let recorded = record_deposit(&state, "treasury", 0, 1, &output, 120, 0, &None).unwrap();
    state.put_record(recorded.record);
    let mut other = output.clone();
    other.amount_msat = 1;
    assert_eq!(
        handle_deposit(&state, "treasury", 0, 1, &event, &other).err().unwrap().error,
        TrackerError::AmountChanged
    );
    let mut deleting = state.record("treasury").unwrap().clone();
    deleting.status = DescriptorStatus::Deleting;
    state.put_record(deleting);
    assert_eq!(
        handle_deposit(&state, "treasury", 0, 1, &event, &output).unwrap(),
        MatchStep::Ignored
    );
}

#[test]
fn matches_that_do_not_fit_are_refused() {
    let tx = transaction(OutPoint::null(), "51", 5);
    let event = deposit_event("treasury", 0, 1, &tx, 120);
    let mut bad = event.clone();
    bad.watch_type = "outpoint".to_owned();
    assert_eq!(
        read_deposit(&bad).map_err(|reason| reason.error),
        Err(TrackerError::NotScriptMatch)
    );
    bad = event.clone();
    bad.tx = None;
    assert_eq!(
        read_deposit(&bad).map_err(|reason| reason.error),
        Err(TrackerError::ScriptTransactionMissing)
    );
    bad = event.clone();
    bad.index = None;
    assert_eq!(
        read_deposit(&bad).map_err(|reason| reason.error),
        Err(TrackerError::ScriptIndexMissing)
    );
    bad = event.clone();
    bad.index = Some(1);
    assert_eq!(
        read_deposit(&bad).map_err(|reason| reason.error),
        Err(TrackerError::OutputOutside)
    );
    bad = event.clone();
    bad.tx = Some("00".to_owned());
    assert_eq!(
        read_deposit(&bad).map_err(|reason| reason.error),
        Err(TrackerError::TransactionInvalid)
    );
    let large = transaction(OutPoint::null(), "51", u64::MAX / 1000 + 1);
    assert_eq!(
        read_deposit(&deposit_event("treasury", 0, 1, &large, 120)).map_err(|reason| reason.error),
        Err(TrackerError::AmountTooLarge)
    );
    let foreign = BwatchMatch { owner: "wallet/p2tr/1".to_owned(), ..event };
    assert_eq!(route_match(&foreign).unwrap(), MatchRoute::Foreign);
}

#[test]
fn spends_are_recorded_once() {
    let (mut state, set) = watched_wallet();
    let script = set.derive_one(0, 0).unwrap().scriptpubkey;
    let funding = transaction(OutPoint::null(), &script, 8);
    let deposit = deposit_event("treasury", 0, 0, &funding, 120);
    let output = read_deposit(&deposit).unwrap();
    let recorded = record_deposit(&state, "treasury", 0, 0, &output, 120, 0, &None).unwrap();
    state.put_record(recorded.record);

    let spending = transaction(OutPoint::new(funding.compute_txid(), 0), "51", 7);
    let txid = spending.compute_txid().to_string();
    let event = spend_event("treasury", &output.outpoint, &spending, 130);
    assert_eq!(
        route_match(&event).unwrap(),
        MatchRoute::Spend { name: "treasury".to_owned(), outpoint: output.outpoint.clone() }
    );
    assert_eq!(read_spend(&event, &output.outpoint).unwrap(), txid);
    assert_eq!(
        handle_spend(&state, "treasury", &output.outpoint, &txid).unwrap(),
        MatchStep::New
    );
    let spent = record_spend(&state, "treasury", &output.outpoint, &txid, 130, 9).unwrap();
    let kept = spent.utxos.get(&output.outpoint).unwrap();
    assert_eq!(kept.spent_by, Some(txid.clone()));
    assert_eq!(kept.spent_height, Some(130));
    let movement = spent
        .pending_movements
        .get(&spend_movement_id(&output.outpoint, &txid))
        .unwrap();
    assert_eq!(movement.amount_msat, 8_000);
    assert_eq!(movement.spending_txid, Some(txid.clone()));
    let before = state.record("treasury").unwrap().clone();
    let reverted = revert_at_height(spent.clone(), 130);
    assert_eq!(reverted.record, before);
    assert!(reverted.changed && !reverted.booked && reverted.calls.is_empty());
    state.put_record(spent);
    assert_eq!(
        handle_spend(&state, "treasury", &output.outpoint, &txid).unwrap(),
        MatchStep::Known { pending: true }
    );
    assert_eq!(
        handle_spend(&state, "treasury", &output.outpoint, "another").err().unwrap().error,
        TrackerError::DifferentSpend
    );
    let unknown = handle_spend(&state, "treasury", "aa:0", &txid).err().unwrap();
    assert_eq!(unknown.message(), "unknown tracked outpoint aa:0");
    assert_eq!(
        record_spend(&state, "treasury", "aa:0", &txid, 130, 9).err().unwrap().error,
        TrackerError::UnknownOutpoint
    );
}

#[test]
fn spends_that_do_not_fit_are_refused() {
    let spending = transaction(OutPoint::null(), "51", 7);
    let outpoint = OutPoint::null().to_string();
    let event = spend_event("treasury", &outpoint, &spending, 130);
    assert!(read_spend(&event, &outpoint).is_ok());
    assert_eq!(
        read_spend(&event, "aa:0").map_err(|reason| reason.error),
        Err(TrackerError::InputMismatch)
    );
    let mut bad = event.clone();
    bad.watch_type = "scriptpubkey".to_owned();
    assert_eq!(
        read_spend(&bad, &outpoint).map_err(|reason| reason.error),
        Err(TrackerError::NotOutpointMatch)
    );
    bad = event.clone();
    bad.tx = None;
    assert_eq!(
        read_spend(&bad, &outpoint).map_err(|reason| reason.error),
        Err(TrackerError::OutpointTransactionMissing)
    );
    bad = event.clone();
    bad.index = None;
    assert_eq!(
        read_spend(&bad, &outpoint).map_err(|reason| reason.error),
        Err(TrackerError::InputIndexMissing)
    );
    bad = event.clone();
    bad.index = Some(1);
    assert_eq!(
        read_spend(&bad, &outpoint).map_err(|reason| reason.error),
        Err(TrackerError::InputOutside)
    );
}

#[test]
fn historical_spends_are_found_by_their_input() {
    let funding = OutPoint::null();
    let spending = transaction(funding, "51", 7);
    let mut event = spend_event("treasury", "unused", &spending, 130);
    event.owner = script_owner("treasury", 0, 4);
    event.historical_scan = true;
    assert_eq!(
        route_match(&event).unwrap(),
        MatchRoute::Spend { name: "treasury".to_owned(), outpoint: funding.to_string() }
    );
    let mut bad = event.clone();
    bad.tx = None;
    assert_eq!(
        route_match(&bad).map_err(|reason| reason.error),
        Err(TrackerError::HistoricalTransactionMissing)
    );
    bad = event.clone();
    bad.index = None;
    assert_eq!(
        route_match(&bad).map_err(|reason| reason.error),
        Err(TrackerError::HistoricalIndexMissing)
    );
    bad = event.clone();
    bad.index = Some(3);
    assert_eq!(
        route_match(&bad).map_err(|reason| reason.error),
        Err(TrackerError::HistoricalInputOutside)
    );
    event.historical_scan = false;
    assert_eq!(
        route_match(&event).unwrap(),
        MatchRoute::Deposit { name: "treasury".to_owned(), branch: 0, index: 4 }
    );
}

#[test]
fn annotations_come_from_the_address_that_was_given_out() {
    let mut state = AppState::new("rpc".to_owned(), "regtest".to_owned());
    state.put_issued_address(IssuedAddress {
        name: "treasury".to_owned(),
        branch: 0,
        index: 4,
        address: "x".to_owned(),
        scriptpubkey: "y".to_owned(),
        annotation: Some("rent".to_owned()),
        issued_at: 1,
        generation: None,
    });
    assert_eq!(issued_annotation(&state, "treasury", 0, 4), Some("rent".to_owned()));
    assert_eq!(issued_annotation(&state, "treasury", 0, 3), None);
    assert_eq!(issued_annotation(&state, "savings", 0, 4), None);
}

#[test]
fn overlapping_growth_is_refused() {
    let (mut state, set) = watched_wallet();
    let descriptor = state.record("treasury").unwrap().config.descriptor.clone();
    let mut other = record("savings", &descriptor, 2, 1);
    other.range_ends = BTreeMap::from([(0, 8), (1, 8)]);
    state.put_record(other);
    let script = set.derive_one(0, 4).unwrap().scriptpubkey;
    let tx = transaction(OutPoint::null(), &script, 5);
    let event = deposit_event("treasury", 0, 4, &tx, 120);
    let output = read_deposit(&event).unwrap();
    let refused = record_deposit(&state, "treasury", 0, 4, &output, 120, 0, &None)
        .err()
        .unwrap();
    assert_eq!(
        refused.message(),
        "descriptor script overlaps registered descriptor 'savings'"
    );
}
