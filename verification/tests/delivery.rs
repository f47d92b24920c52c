use cln_tracker::delivery::{
    complete_delivery, current_bwatch_height, deliver_movement, first_delivery, mature_movements,
    movement_is_mature, next_delivery, DeliveryAction, DeliveryPhase,
};
use cln_tracker::error::TrackerError;
use cln_tracker::model::{
    DescriptorConfig, DescriptorRecord, DescriptorStatus, MovementKind, PendingMovement,
};
use cln_tracker::ordered::TextMap;
use cln_tracker::steps::Event;
use std::collections::BTreeMap;

fn record(name: &str, descriptor: &str, branches: u32, lookahead: u32) -> DescriptorRecord {
    DescriptorRecord {
        config: DescriptorConfig {
            name: name.to_owned(),
            descriptor: descriptor.to_owned(),
            birthheight: 100,
            lookahead,
            confirmations: 1,
        },
        utxos: TextMap::new(),
        pending_movements: TextMap::new(),
        external_outpoints: TextMap::new(),
        next_indexes: BTreeMap::new(),
        range_ends: (0..branches).map(|branch| (branch, lookahead)).collect(),
        last_used_indexes: BTreeMap::new(),
        range_end: lookahead,
        last_used_index: None,
        status: DescriptorStatus::Active,
        initial_scan_complete: true,
        pending_rescan: None,
        scan_operation_id: None,
        incident: None,
        last_success_at: None,
        generation: None,
    }
}

fn movement(id: &str, kind: MovementKind, outpoint: &str, blockheight: u32) -> PendingMovement {
    PendingMovement {
        id: id.to_owned(),
        kind,
        outpoint: outpoint.to_owned(),
        amount_msat: 7_000,
        blockheight,
        timestamp: 99,
        spending_txid: None,
        description: None,
    }
}

fn wait(kept: &mut DescriptorRecord, movement: PendingMovement) {
    kept.pending_movements.insert(movement.id.clone(), movement);
}

#[test]
fn movement_maturity_uses_inclusive_confirmation_depth() {
    assert!(movement_is_mature(100, 1, 100));
    assert!(!movement_is_mature(100, 2, 100));
    assert!(movement_is_mature(100, 2, 101));
    assert!(!movement_is_mature(u32::MAX, 2, u32::MAX));
}

#[test]
fn due_movements_are_delivered_and_taken_off() {
    let mut kept = record("treasury", "unused", 1, 1);
    kept.config.confirmations = 3;
    wait(&mut kept, movement("b", MovementKind::Deposit, "bb:0", 100));
    wait(&mut kept, movement("a", MovementKind::Deposit, "aa:0", 99));
    wait(&mut kept, movement("c", MovementKind::Deposit, "cc:0", 101));
    assert_eq!(mature_movements(&kept, 102), vec!["a", "b"]);
    for id in mature_movements(&kept, 102) {
        complete_delivery(&mut kept, &id, 5);
    }
    assert!(mature_movements(&kept, 102).is_empty());
    assert_eq!(mature_movements(&kept, 103), vec!["c"]);
    assert_eq!(kept.last_success_at, Some(5));
    kept.config.confirmations = 1;
    assert_eq!(mature_movements(&kept, 102), vec!["c"]);
}

#[test]
fn each_kind_of_movement_has_its_calls() {
    let mut kept = record("treasury", "unused", 1, 1);
    let mut described = movement("deposit", MovementKind::Deposit, "aa:0", 100);
    described.description = Some("rent".to_owned());
    wait(&mut kept, described);
    let mut spend = movement("spend", MovementKind::Spend, "aa:0", 100);
    spend.spending_txid = Some("ff".to_owned());
    spend.description = Some("not sent".to_owned());
    wait(&mut kept, spend);
    wait(
        &mut kept,
        movement("external", MovementKind::ExternalDeposit, "bb:0", 100),
    );
    let mut repair = movement("repair", MovementKind::ExternalDescription, "bb:0", 100);
    repair.description = Some("rent".to_owned());
    wait(&mut kept, repair);
    wait(&mut kept, movement("broken", MovementKind::Spend, "aa:0", 100));
    wait(
        &mut kept,
        movement("empty", MovementKind::ExternalDescription, "aa:0", 100),
    );
    let methods = |id: &str| -> Vec<String> {
        deliver_movement(&kept, id)
            .unwrap()
            .into_iter()
            .map(|call| call.method)
            .collect()
    };
    assert_eq!(
        methods("deposit"),
        vec!["injectutxodeposit", "bkpr-editdescriptionbyoutpoint"]
    );
    assert_eq!(methods("spend"), vec!["injectutxospend"]);
    assert_eq!(methods("external"), vec!["injectutxodeposit"]);
    assert_eq!(methods("repair"), vec!["bkpr-editdescriptionbyoutpoint"]);
    let deposit = &deliver_movement(&kept, "deposit").unwrap()[0];
    assert_eq!(deposit.params.get_str("account"), Some(&"treasury".to_owned()));
    assert_eq!(deposit.params.get_str("amount_msat"), Some(&"7000msat".to_owned()));
    assert_eq!(deposit.params.get_u64("timestamp"), Some(99));
    let external = &deliver_movement(&kept, "external").unwrap()[0];
    assert_eq!(external.params.get_str("account"), Some(&"external".to_owned()));
    assert_eq!(
        external.params.get_str("transfer_from"),
        Some(&"treasury".to_owned())
    );
    let refused = |id: &str| deliver_movement(&kept, id).err().unwrap();
    assert_eq!(refused("broken").error, TrackerError::SpendWithoutTransaction);
    assert_eq!(refused("empty").error, TrackerError::RepairWithoutDescription);
    assert_eq!(refused("gone").message(), "pending movement 'gone' disappeared");
}

#[test]
fn the_tip_is_no_lower_than_what_is_known() {
    assert_eq!(current_bwatch_height(None, 5), 5);
    assert_eq!(current_bwatch_height(Some(4), 5), 5);
    assert_eq!(current_bwatch_height(Some(6), 5), 6);
}

/// A record with a described deposit and a spend that are due.
fn two_due() -> DescriptorRecord {
    let mut kept = record("treasury", "unused", 1, 1);
    let mut deposit = movement("a", MovementKind::Deposit, "aa:0", 100);
    deposit.description = Some("rent".to_owned());
    wait(&mut kept, deposit);
    let mut spend = movement("b", MovementKind::Spend, "aa:0", 100);
    spend.spending_txid = Some("ff".to_owned());
    wait(&mut kept, spend);
    kept
}

#[test]
fn a_delivery_tells_then_stores_then_goes_on() {
    let mut kept = two_due();
    let queue = mature_movements(&kept, 100);
    let mut log: Vec<String> = Vec::new();
    let (mut phase, mut action) = first_delivery(&kept, &queue);
    while action != DeliveryAction::Finish {
        match action {
            DeliveryAction::Tell(call) => log.push(call.method),
            DeliveryAction::Store(id) => {
                complete_delivery(&mut kept, &id, 5);
                log.push(format!("store {id}"));
            }
            other => panic!("{other:?}"),
        }
        (phase, action) = next_delivery(&kept, &queue, phase, Event::Done);
    }
    assert_eq!(
        log,
        vec![
            "injectutxodeposit",
            "bkpr-editdescriptionbyoutpoint",
            "store a",
            "injectutxospend",
            "store b",
        ]
    );
    assert_eq!(phase, DeliveryPhase::Finished);
    assert!(kept.pending_movements.is_empty());
}

#[test]
fn a_delivery_stops_at_the_first_failure() {
    let kept = two_due();
    let queue = mature_movements(&kept, 100);
    let (phase, action) = first_delivery(&kept, &queue);
    assert_eq!(phase, DeliveryPhase::Telling { position: 0, call: 0 });
    assert!(matches!(action, DeliveryAction::Tell(_)));
    let (phase, _) = next_delivery(&kept, &queue, phase, Event::Done);
    assert_eq!(phase, DeliveryPhase::Telling { position: 0, call: 1 });
    let (phase, action) = next_delivery(&kept, &queue, phase, Event::Failed);
    assert_eq!(phase, DeliveryPhase::Stopped);
    assert_eq!(action, DeliveryAction::Stop);
    let (phase, action) = next_delivery(&kept, &queue, phase, Event::Done);
    assert_eq!(phase, DeliveryPhase::Stopped);
    assert_eq!(action, DeliveryAction::Stop);
    let storing = DeliveryPhase::Storing { position: 0 };
    let (phase, action) = next_delivery(&kept, &queue, storing, Event::Failed);
    assert_eq!(phase, DeliveryPhase::Stopped);
    assert_eq!(action, DeliveryAction::Stop);
}

#[test]
fn a_delivery_refuses_what_cannot_be_told() {
    let mut kept = record("treasury", "unused", 1, 1);
    wait(&mut kept, movement("a", MovementKind::Spend, "aa:0", 100));
    let queue = mature_movements(&kept, 100);
    let (phase, action) = first_delivery(&kept, &queue);
    assert_eq!(phase, DeliveryPhase::Refused { position: 0 });
    match action {
        DeliveryAction::Refuse(refusal) => {
            assert_eq!(refusal.error, TrackerError::SpendWithoutTransaction);
        }
        other => panic!("{other:?}"),
    }
    let (phase, _) = next_delivery(&kept, &queue, phase, Event::Done);
    assert_eq!(phase, DeliveryPhase::Refused { position: 0 });
    let beyond = DeliveryPhase::Storing { position: usize::MAX };
    assert_eq!(
        next_delivery(&kept, &queue, beyond, Event::Done).0,
        DeliveryPhase::Stopped
    );
    let nothing: Vec<String> = Vec::new();
    assert_eq!(
        first_delivery(&kept, &nothing),
        (DeliveryPhase::Finished, DeliveryAction::Finish)
    );
}
