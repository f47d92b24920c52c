use cln_tracker::cln::{OwnedWatch, RpcCall};
use cln_tracker::descriptor::DescriptorSet;
use cln_tracker::json::Json;
use cln_tracker::model::{
    outpoint_owner, owner_prefix, script_owner, DescriptorConfig, DescriptorRecord,
    DescriptorStatus, TrackedUtxo,
};
use cln_tracker::ordered::TextMap;
use cln_tracker::watches::{
    delete_owned_watches, expected_watches, reconcile_watches, remove_orphaned_watches,
};
use miniscript::bitcoin::bip32::{Xpriv, Xpub};
use miniscript::bitcoin::secp256k1::Secp256k1;
use miniscript::bitcoin::NetworkKind;
use miniscript::descriptor::{Descriptor, DescriptorPublicKey};
use std::collections::BTreeMap;
use std::str::FromStr;

fn with_checksum(body: &str) -> String {
    Descriptor::<DescriptorPublicKey>::from_str(body)
        .unwrap()
        .to_string()
}

fn ranged_descriptor(seed: u8) -> String {
    let secp = Secp256k1::new();
    let private = Xpriv::new_master(NetworkKind::Test, &[seed; 32]).unwrap();
    with_checksum(&format!(
        "wpkh({}/<0;1>/*)",
        Xpub::from_priv(&secp, &private)
    ))
}

fn record(name: &str, descriptor: &str, branches: u32, lookahead: u32) -> DescriptorRecord {
    DescriptorRecord {
        config: DescriptorConfig {
            name: name.to_owned(),
            descriptor: descriptor.to_owned(),
            birthheight: 100,
            lookahead,
            confirmations: 1,
        },
        utxos: TextMap::new(),
        pending_movements: TextMap::new(),
        external_outpoints: TextMap::new(),
        next_indexes: BTreeMap::new(),
        range_ends: (0..branches).map(|branch| (branch, lookahead)).collect(),
        last_used_indexes: BTreeMap::new(),
        range_end: lookahead,
        last_used_index: None,
        status: DescriptorStatus::Active,
        initial_scan_complete: true,
        pending_rescan: None,
        scan_operation_id: None,
        incident: None,
        last_success_at: None,
        generation: None,
    }
}

fn output(outpoint: &str) -> TrackedUtxo {
    TrackedUtxo {
        outpoint: outpoint.to_owned(),
        amount_msat: 1_000,
        derivation_index: 0,
        branch: 0,
        deposit_height: 123,
        spent_by: None,
        spent_height: None,
        annotation: None,
    }
}

fn methods(calls: &Vec<RpcCall>) -> Vec<&str> {
    calls.iter().map(|call| call.method.as_str()).collect()
}

#[test]
fn a_plan_leads_to_the_expected_watches_and_stays_there() {
    let descriptor = ranged_descriptor(6);
    let mut kept = record("treasury", &descriptor, 2, 2);
    kept.utxos.insert("aa:0".to_owned(), output("aa:0"));
    let set = DescriptorSet::parse_checked(&descriptor, "regtest").unwrap();
    let expected = expected_watches(&kept, &set).unwrap();
    assert_eq!(expected.len(), 5);
    let stray = OwnedWatch::Blockdepth {
        owner: "plugin/tracker/treasury/depth".to_owned(),
        start_block: 9,
    };
    let current = vec![stray, expected[1].clone()];
    let plan = reconcile_watches(&kept, "regtest", &current, true).unwrap();
    assert_eq!(methods(&plan.removals), vec!["delblockdepthwatch"]);
    let additions = plan.additions.unwrap();
    assert_eq!(additions.method, "addscriptpubkeywatches");
    assert_eq!(additions.params.get_list("watches").unwrap().len(), 3);
    assert_eq!(additions.params.get_u64("start_block"), Some(100));
    let rescan = plan.rescan.unwrap();
    assert_eq!(rescan.method, "rescanwatchset");
    assert_eq!(rescan.params.get_list("owners").unwrap().len(), 3);
    assert_eq!(methods(&plan.outputs), vec!["addoutpointwatch"]);
    assert_eq!(plan.outputs[0].params.get_u64("start_block"), Some(123));
    assert_eq!(plan.outputs[0].params.get("rescan"), Some(&Json::Bool(true)));
    assert!(plan.fault.is_none());

    let quiet = reconcile_watches(&kept, "regtest", &expected, true).unwrap();
    assert!(quiet.removals.is_empty() && quiet.outputs.is_empty());
    assert!(quiet.additions.is_none() && quiet.rescan.is_none());
    kept.status = DescriptorStatus::Syncing;
    let again = reconcile_watches(&kept, "regtest", &expected, true).unwrap();
    assert_eq!(
        again.rescan.unwrap().params.get_str("owner_prefix"),
        Some(&owner_prefix("treasury"))
    );
    let installed = reconcile_watches(&kept, "regtest", &vec![], false).unwrap();
    assert!(installed.rescan.is_none());
    assert_eq!(
        installed.outputs[0].params.get("rescan"),
        Some(&Json::Bool(false))
    );
}

#[test]
fn an_output_that_is_not_kept_under_its_outpoint_stops_the_plan() {
    let mut kept = record("treasury", &ranged_descriptor(6), 2, 1);
    kept.utxos.insert("aa:0".to_owned(), output("aa:0"));
    kept.utxos.insert("bb:0".to_owned(), output("cc:0"));
    let plan = reconcile_watches(&kept, "regtest", &vec![], true).unwrap();
    assert_eq!(plan.outputs.len(), 1);
    assert_eq!(
        plan.fault.unwrap().message(),
        "missing tracked outpoint cc:0"
    );
}

#[test]
fn every_watch_can_be_removed() {
    let watches = vec![
        OwnedWatch::Script {
            owner: script_owner("a", 0, 0),
            scriptpubkey: "51".to_owned(),
        },
        OwnedWatch::Outpoint {
            owner: outpoint_owner("a", "aa:0"),
            outpoint: "aa:0".to_owned(),
        },
        OwnedWatch::Blockdepth { owner: "x".to_owned(), start_block: 4 },
    ];
    let calls = delete_owned_watches(&watches);
    assert_eq!(
        methods(&calls),
        vec!["delscriptpubkeywatch", "deloutpointwatch", "delblockdepthwatch"]
    );
    assert_eq!(calls[1].params.get_str("outpoint"), Some(&"aa:0".to_owned()));
    assert_eq!(calls[2].params.get_u64("start_block"), Some(4));
}

#[test]
fn only_watches_of_no_descriptor_are_orphans() {
    let watch = |name: &str| OwnedWatch::Outpoint {
        owner: outpoint_owner(name, "aa:0"),
        outpoint: "aa:0".to_owned(),
    };
    let watches = vec![watch("treasury"), watch("treasury2"), watch("cold")];
    let names = vec!["treasury".to_owned(), "cold".to_owned()];
    let calls = remove_orphaned_watches(&watches, &names);
    assert_eq!(calls.len(), 1);
    assert_eq!(
        calls[0].params.get_str("owner"),
        Some(&outpoint_owner("treasury2", "aa:0"))
    );
}
