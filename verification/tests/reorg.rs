use cln_tracker::model::{
    outpoint_owner, DescriptorConfig, DescriptorRecord, DescriptorStatus, MovementKind,
    PendingMovement, TrackedUtxo,
};
use cln_tracker::ordered::TextMap;
use cln_tracker::reorg::{report_reorg, revert_at_height};
use cln_tracker::state::AppState;
use std::collections::BTreeMap;

fn record(name: &str, descriptor: &str, branches: u32, lookahead: u32) -> DescriptorRecord {
    DescriptorRecord {
        config: DescriptorConfig {
            name: name.to_owned(),
            descriptor: descriptor.to_owned(),
            birthheight: 100,
            lookahead,
            confirmations: 1,
        },
        utxos: TextMap::new(),
        pending_movements: TextMap::new(),
        external_outpoints: TextMap::new(),
        next_indexes: BTreeMap::new(),
        range_ends: (0..branches).map(|branch| (branch, lookahead)).collect(),
        last_used_indexes: BTreeMap::new(),
        range_end: lookahead,
        last_used_index: None,
        status: DescriptorStatus::Active,
        initial_scan_complete: true,
        pending_rescan: None,
        scan_operation_id: None,
        incident: None,
        last_success_at: None,
        generation: None,
    }
}

fn movement(id: &str, kind: MovementKind, outpoint: &str, blockheight: u32) -> PendingMovement {
    PendingMovement {
        id: id.to_owned(),
        kind,
        outpoint: outpoint.to_owned(),
        amount_msat: 7_000,
        blockheight,
        timestamp: 99,
        spending_txid: None,
        description: None,
    }
}

fn output(outpoint: &str, index: u32, height: u32, spent: Option<u32>) -> TrackedUtxo {
    TrackedUtxo {
        outpoint: outpoint.to_owned(),
        amount_msat: 7_000,
        derivation_index: index,
        branch: 0,
        deposit_height: height,
        spent_by: spent.map(|_| "ff".to_owned()),
        spent_height: spent,
        annotation: None,
    }
}

fn put(kept: &mut DescriptorRecord, output: TrackedUtxo) {
    kept.utxos.insert(output.outpoint.clone(), output);
}

fn wait(kept: &mut DescriptorRecord, movement: PendingMovement) {
    kept.pending_movements.insert(movement.id.clone(), movement);
}

#[test]
fn shallow_reorgs_take_pending_movements_back() {
    let mut kept = record("treasury", "unused", 1, 1);
    put(&mut kept, output("aa:0", 2, 110, None));
    put(&mut kept, output("bb:0", 5, 120, None));
    put(&mut kept, output("cc:0", 3, 110, Some(120)));
    wait(&mut kept, movement("deposit:bb:0", MovementKind::Deposit, "bb:0", 120));
    wait(&mut kept, movement("spend:cc:0:ff", MovementKind::Spend, "cc:0", 120));
    wait(&mut kept, movement("deposit:aa:0", MovementKind::Deposit, "aa:0", 110));
    wait(
        &mut kept,
        movement("external", MovementKind::ExternalDeposit, "dd:0", 120),
    );
    kept.last_used_index = Some(5);
    kept.last_used_indexes = BTreeMap::from([(0, 5)]);
    let reverted = revert_at_height(kept, 120);
    assert!(reverted.changed);
    assert!(!reverted.booked);
    let after = &reverted.record;
    assert!(after.utxos.get("bb:0").is_none());
    assert_eq!(after.utxos.get("cc:0").unwrap().spent_by, None);
    assert_eq!(after.utxos.get("cc:0").unwrap().spent_height, None);
    assert_eq!(after.pending_movements.len(), 1);
    assert!(after.pending_movements.contains("deposit:aa:0"));
    assert_eq!(after.last_used_index, Some(3));
    assert_eq!(after.last_used_indexes, BTreeMap::from([(0, 3)]));
    assert_eq!(reverted.calls.len(), 1);
    assert_eq!(reverted.calls[0].method, "deloutpointwatch");
    assert_eq!(
        reverted.calls[0].params.get_str("owner"),
        Some(&outpoint_owner("treasury", "bb:0"))
    );
}

#[test]
fn deep_reorgs_take_booked_movements_back_and_say_so() {
    let mut kept = record("treasury", "unused", 1, 1);
    put(&mut kept, output("aa:0", 2, 110, Some(120)));
    put(&mut kept, output("bb:0", 5, 120, None));
    kept.last_used_index = Some(5);
    let reverted = revert_at_height(kept, 120);
    assert!(reverted.changed && reverted.booked);
    assert!(reverted.record.utxos.get("bb:0").is_none());
    assert_eq!(reverted.record.utxos.get("aa:0").unwrap().spent_height, None);
    assert_eq!(reverted.record.last_used_index, Some(2));

    let mut state = AppState::new("rpc".to_owned(), "regtest".to_owned());
    state.put_record(reverted.record);
    assert!(report_reorg(&mut state, "treasury", 120, true, 9));
    let incident = state.record("treasury").unwrap().incident.clone().unwrap();
    assert_eq!(incident.code, "bookkeeper_reorg");
    assert!(incident.operator_action_required);
    assert_eq!(
        incident.message,
        "Bookkeeper movements require manual reconciliation after reorg at height 120"
    );
    assert_eq!(state.inner.reorgs, 1);
    assert!(!report_reorg(&mut state, "treasury", 121, false, 10));
    assert_eq!(state.inner.reorgs, 2);
}

#[test]
fn other_blocks_change_nothing() {
    let mut kept = record("treasury", "unused", 1, 1);
    put(&mut kept, output("aa:0", 2, 110, Some(115)));
    wait(&mut kept, movement("deposit:aa:0", MovementKind::Deposit, "aa:0", 110));
    let reverted = revert_at_height(kept.clone(), 120);
    assert!(!reverted.changed);
    assert_eq!(reverted.record, kept);
    assert!(reverted.calls.is_empty());
}
