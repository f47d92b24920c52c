use cln_tracker::addresses::new_address;
use cln_tracker::error::TrackerError;
use cln_tracker::model::{
    DescriptorConfig, DescriptorRecord, DescriptorStatus, IssuedAddress, NewAddressRequest,
    TrackedUtxo,
};
use cln_tracker::ordered::TextMap;
use cln_tracker::restore::{
    add_restored, finish_load, group_addresses, keep_known, orphaned_names, restore_record,
};
use cln_tracker::state::AppState;
use miniscript::bitcoin::bip32::{Xpriv, Xpub};
use miniscript::bitcoin::secp256k1::Secp256k1;
use miniscript::bitcoin::NetworkKind;
use miniscript::descriptor::{Descriptor, DescriptorPublicKey};
use std::collections::BTreeMap;
use std::str::FromStr;

fn with_checksum(body: &str) -> String {
    Descriptor::<DescriptorPublicKey>::from_str(body)
        .unwrap()
        .to_string()
}

fn ranged_descriptor(seed: u8) -> String {
    let secp = Secp256k1::new();
    let private = Xpriv::new_master(NetworkKind::Test, &[seed; 32]).unwrap();
    with_checksum(&format!(
        "wpkh({}/<0;1>/*)",
        Xpub::from_priv(&secp, &private)
    ))
}

fn record(name: &str, descriptor: &str, branches: u32, lookahead: u32) -> DescriptorRecord {
    DescriptorRecord {
        config: DescriptorConfig {
            name: name.to_owned(),
            descriptor: descriptor.to_owned(),
            birthheight: 100,
            lookahead,
            confirmations: 1,
        },
        utxos: TextMap::new(),
        pending_movements: TextMap::new(),
        external_outpoints: TextMap::new(),
        next_indexes: BTreeMap::new(),
        range_ends: (0..branches).map(|branch| (branch, lookahead)).collect(),
        last_used_indexes: BTreeMap::new(),
        range_end: lookahead,
        last_used_index: None,
        status: DescriptorStatus::Active,
        initial_scan_complete: true,
        pending_rescan: None,
        scan_operation_id: None,
        incident: None,
        last_success_at: None,
        generation: None,
    }
}

fn output(outpoint: &str, branch: u32, index: u32) -> TrackedUtxo {
    TrackedUtxo {
        outpoint: outpoint.to_owned(),
        amount_msat: 1,
        derivation_index: index,
        branch,
        deposit_height: 120,
        spent_by: None,
        spent_height: None,
        annotation: None,
    }
}

fn given_out(descriptor: &str, index: u32) -> IssuedAddress {
    let mut state = AppState::new("rpc".to_owned(), "regtest".to_owned());
    state.put_record(record("treasury", descriptor, 2, 3));
    let request = NewAddressRequest {
        name: "treasury".to_owned(),
        branch: 1,
        annotation: None,
        minimum_index: Some(index),
    };
    new_address(&state, &request, 5).unwrap()
}

#[test]
fn old_records_get_indexes_for_each_branch() {
    let descriptor = ranged_descriptor(4);
    let mut stored = record("treasury", &descriptor, 0, 3);
    stored.range_end = 5;
    stored.utxos.insert("aa:0".to_owned(), output("aa:0", 0, 2));
    stored.utxos.insert("bb:0".to_owned(), output("bb:0", 0, 4));
    let restored = restore_record(stored, &vec![], &TextMap::new(), "regtest").unwrap();
    assert!(restored.changed);
    assert_eq!(restored.record.last_used_indexes, BTreeMap::from([(0, 4)]));
    assert_eq!(restored.record.last_used_index, Some(4));
    assert_eq!(restored.record.range_ends, BTreeMap::from([(0, 8), (1, 5)]));
    assert_eq!(restored.record.range_end, 8);

    let again =
        restore_record(restored.record.clone(), &vec![], &TextMap::new(), "regtest").unwrap();
    assert!(!again.changed);
    assert_eq!(again.record, restored.record);
}

#[test]
fn the_last_used_index_of_an_old_record_is_kept() {
    let mut stored = record("treasury", &ranged_descriptor(4), 0, 3);
    stored.range_end = 0;
    stored.last_used_index = Some(6);
    let restored = restore_record(stored, &vec![], &TextMap::new(), "regtest").unwrap();
    assert_eq!(restored.record.last_used_indexes, BTreeMap::from([(0, 6)]));
    assert_eq!(restored.record.range_ends, BTreeMap::from([(0, 10), (1, 3)]));
}

#[test]
fn stored_addresses_move_the_cursor() {
    let descriptor = ranged_descriptor(4);
    let address = given_out(&descriptor, 6);
    let stored = record("treasury", &descriptor, 2, 3);
    let restored =
        restore_record(stored.clone(), &vec![address.clone()], &TextMap::new(), "regtest").unwrap();
    assert_eq!(restored.record.next_indexes, BTreeMap::from([(1, 7)]));
    assert_eq!(restored.record.range_ends, BTreeMap::from([(0, 3), (1, 10)]));
    let refused = |change: fn(&mut IssuedAddress)| {
        let mut wrong = address.clone();
        change(&mut wrong);
        restore_record(stored.clone(), &vec![wrong], &TextMap::new(), "regtest")
            .err()
            .unwrap()
    };
    assert_eq!(
        refused(|a| a.branch = 2).message(),
        "issued address for 'treasury' has invalid branch 2"
    );
    assert_eq!(refused(|a| a.index = 7).error, TrackerError::AddressMismatch);
    assert_eq!(
        refused(|a| a.address = "x".to_owned()).error,
        TrackerError::AddressMismatch
    );
}

#[test]
fn stored_descriptors_must_be_apart() {
    let descriptor = ranged_descriptor(4);
    let mut restored = TextMap::new();
    restored.insert("treasury".to_owned(), record("treasury", &descriptor, 2, 3));
    let twin = restore_record(record("twin", &descriptor, 2, 3), &vec![], &restored, "regtest");
    assert_eq!(
        twin.err().unwrap().message(),
        "descriptor script overlaps registered descriptor 'treasury'"
    );
    let same = restore_record(
        record("treasury", &descriptor, 2, 3),
        &vec![],
        &restored,
        "regtest",
    );
    assert_eq!(same.err().unwrap().error, TrackerError::DuplicateStored);
    let mut invalid = record("other", &descriptor, 2, 3);
    invalid.config.lookahead = 0;
    let refusal = restore_record(invalid, &vec![], &restored, "regtest").err().unwrap();
    assert_eq!(refusal.error, TrackerError::StoredInvalid);
    assert_eq!(
        refusal.message(),
        "validating stored descriptor 'other': lookahead must be greater than zero"
    );
}

#[test]
fn addresses_are_grouped_by_descriptor() {
    let address = |name: &str, index: u32, text: &str| IssuedAddress {
        name: name.to_owned(),
        branch: 0,
        index,
        address: text.to_owned(),
        scriptpubkey: String::new(),
        annotation: None,
        issued_at: 0,
        generation: None,
    };
    let books = group_addresses(&vec![
        address("b", 2, "first"),
        address("a", 0, "other"),
        address("b", 1, "before"),
        address("b", 2, "second"),
    ]);
    assert_eq!(books.len(), 2);
    let texts: Vec<String> = books
        .get("b")
        .unwrap()
        .list()
        .into_iter()
        .map(|address| address.address)
        .collect();
    assert_eq!(texts, vec!["before", "second"]);
    let mut records = TextMap::new();
    records.insert("a".to_owned(), record("a", &ranged_descriptor(4), 2, 3));
    assert_eq!(orphaned_names(&books, &records), vec!["b".to_owned()]);
}

fn address_of(name: &str, index: u32) -> IssuedAddress {
    IssuedAddress {
        name: name.to_owned(),
        branch: 0,
        index,
        address: format!("{name}{index}"),
        scriptpubkey: String::new(),
        annotation: None,
        issued_at: 1,
        generation: None,
    }
}

#[test]
fn loading_keeps_the_addresses_of_known_descriptors_alone() {
    let addresses = vec![address_of("a", 1), address_of("b", 0), address_of("a", 0)];
    let books = group_addresses(&addresses);
    let mut restored = TextMap::new();
    add_restored(&mut restored, record("a", "unused", 1, 3));
    add_restored(&mut restored, record("c", "unused", 1, 3));
    assert_eq!(restored.get("c").unwrap().config.name, "c");
    let known = keep_known(&books, &restored);
    assert_eq!(known.len(), 1);
    assert_eq!(known.get("a").unwrap().list(), books.get("a").unwrap().list());
    let copy = restored.clone();
    assert_eq!(copy, restored);

    let mut state = AppState::new("rpc".to_owned(), "regtest".to_owned());
    state.put_issued_address(address_of("old", 0));
    state.put_record(record("old", "unused", 1, 3));
    finish_load(&mut state, restored, &books);
    assert_eq!(state.record_names(), vec!["a", "c"]);
    assert_eq!(state.issued_addresses("a").len(), 2);
    assert!(state.issued_addresses("b").is_empty());
    assert!(state.issued_addresses("old").is_empty());
    assert_eq!(state.records_snapshot(), &copy);
}
