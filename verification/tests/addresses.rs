use cln_tracker::addresses::{
    address_view, extend_for_address, list_addresses, new_address, validate_annotation,
};
use cln_tracker::error::TrackerError;
use cln_tracker::json::Json;
use cln_tracker::model::{
    DescriptorConfig, DescriptorRecord, DescriptorStatus, IssuedAddress, ListAddressesRequest,
    NewAddressRequest, TrackedUtxo,
};
use cln_tracker::ordered::TextMap;
use cln_tracker::state::AppState;
use miniscript::bitcoin::bip32::{Xpriv, Xpub};
use miniscript::bitcoin::secp256k1::Secp256k1;
use miniscript::bitcoin::NetworkKind;
use miniscript::descriptor::{Descriptor, DescriptorPublicKey};
use std::collections::BTreeMap;
use std::str::FromStr;

fn with_checksum(body: &str) -> String {
    Descriptor::<DescriptorPublicKey>::from_str(body)
        .unwrap()
        .to_string()
}

fn ranged_descriptor(seed: u8) -> String {
    let secp = Secp256k1::new();
    let private = Xpriv::new_master(NetworkKind::Test, &[seed; 32]).unwrap();
    with_checksum(&format!(
        "wpkh({}/<0;1>/*)",
        Xpub::from_priv(&secp, &private)
    ))
}

fn record(name: &str, descriptor: &str, branches: u32, lookahead: u32) -> DescriptorRecord {
    DescriptorRecord {
        config: DescriptorConfig {
            name: name.to_owned(),
            descriptor: descriptor.to_owned(),
            birthheight: 100,
            lookahead,
            confirmations: 1,
        },
        utxos: TextMap::new(),
        pending_movements: TextMap::new(),
        external_outpoints: TextMap::new(),
        next_indexes: BTreeMap::new(),
        range_ends: (0..branches).map(|branch| (branch, lookahead)).collect(),
        last_used_indexes: BTreeMap::new(),
        range_end: lookahead,
        last_used_index: None,
        status: DescriptorStatus::Active,
        initial_scan_complete: true,
        pending_rescan: None,
        scan_operation_id: None,
        incident: None,
        last_success_at: None,
        generation: None,
    }
}

fn wallet() -> AppState {
    let mut state = AppState::new("rpc".to_owned(), "regtest".to_owned());
    state.put_record(record("treasury", &ranged_descriptor(8), 2, 3));
    state
}

fn request(branch: u32) -> NewAddressRequest {
    NewAddressRequest {
        name: "treasury".to_owned(),
        branch,
        annotation: None,
        minimum_index: None,
    }
}

fn given(branch: u32, index: u32) -> IssuedAddress {
    IssuedAddress {
        name: "treasury".to_owned(),
        branch,
        index,
        address: "x".to_owned(),
        scriptpubkey: "y".to_owned(),
        annotation: None,
        issued_at: 1,
        generation: None,
    }
}

#[test]
fn addresses_are_given_out_once() {
    let mut state = wallet();
    let mut asked = request(0);
    asked.annotation = Some("rent".to_owned());
    let first = new_address(&state, &asked, 77).unwrap();
    assert_eq!((first.branch, first.index), (0, 0));
    assert_eq!(first.annotation, Some("rent".to_owned()));
    assert_eq!(first.issued_at, 77);
    assert!(first.address.starts_with("bcrt1q"));
    assert!(first.scriptpubkey.starts_with("0014"));
    state.put_issued_address(first.clone());
    let after = extend_for_address(&state, &first).unwrap();
    assert_eq!(after.next_indexes, BTreeMap::from([(0, 1)]));
    assert_eq!(after.range_ends, BTreeMap::from([(0, 4), (1, 3)]));
    assert_eq!(after.range_end, 4);
    assert_eq!(after.status, DescriptorStatus::Syncing);
    let shown = address_view(&after, &first);
    assert_eq!(shown.get_u64("next_index"), Some(1));
    assert_eq!(shown.get_str("annotation"), Some(&"rent".to_owned()));
    assert_eq!(shown.get_u64("range_end"), Some(4));
    let mut active = after;
    active.status = DescriptorStatus::Active;
    state.put_record(active);
    let second = new_address(&state, &request(0), 78).unwrap();
    assert_eq!(second.index, 1);
    assert_ne!(second.address, first.address);
    assert_eq!(new_address(&state, &request(1), 78).unwrap().index, 0);
}

#[test]
fn an_address_is_beyond_what_was_seen_and_asked() {
    let mut state = wallet();
    let mut kept = state.record("treasury").unwrap().clone();
    kept.utxos.insert(
        "aa:0".to_owned(),
        TrackedUtxo {
            outpoint: "aa:0".to_owned(),
            amount_msat: 1,
            derivation_index: 6,
            branch: 1,
            deposit_height: 120,
            spent_by: None,
            spent_height: None,
            annotation: None,
        },
    );
    state.put_record(kept);
    assert_eq!(new_address(&state, &request(1), 0).unwrap().index, 7);
    state.put_issued_address(given(1, 9));
    assert_eq!(new_address(&state, &request(1), 0).unwrap().index, 10);
    let mut far = request(1);
    far.minimum_index = Some(40);
    assert_eq!(new_address(&state, &far, 0).unwrap().index, 40);
    far.minimum_index = Some(2);
    assert_eq!(new_address(&state, &far, 0).unwrap().index, 10);
    far.minimum_index = Some(0x7fff_ffff);
    assert_eq!(
        new_address(&state, &far, 0).err().unwrap().error,
        TrackerError::IndexTooLarge
    );
}

#[test]
fn an_address_is_refused_where_none_can_be_given_out() {
    let mut state = wallet();
    let mut asked = request(0);
    asked.annotation = Some(String::new());
    assert_eq!(
        new_address(&state, &asked, 0).err().unwrap().error,
        TrackerError::AnnotationEmpty
    );
    assert_eq!(
        new_address(&state, &request(2), 0).err().unwrap().message(),
        "descriptor branch 2 does not exist"
    );
    let mut kept = state.record("treasury").unwrap().clone();
    kept.status = DescriptorStatus::Syncing;
    state.put_record(kept);
    assert_eq!(
        new_address(&state, &request(0), 0).err().unwrap().error,
        TrackerError::NotReady
    );
    let fixed =
        with_checksum("wpkh(0279be667ef9dcbbac55a06295ce870b07029bfcdb2dce28d959f2815b16f81798)");
    state.put_record(record("treasury", &fixed, 1, 1));
    assert_eq!(
        new_address(&state, &request(0), 0).err().unwrap().error,
        TrackerError::StaticIssue
    );
    state.remove_record("treasury");
    assert_eq!(
        new_address(&state, &request(0), 0).err().unwrap().error,
        TrackerError::NotRegistered
    );
    let _scan = state.begin_scan("treasury", "1-2-3".to_owned()).unwrap();
    assert_eq!(
        new_address(&state, &request(0), 0).err().unwrap().error,
        TrackerError::ScanActive
    );
}

#[test]
fn annotations_are_bounded_in_bytes() {
    assert_eq!(validate_annotation(&"a".repeat(1_024)), Ok(()));
    assert_eq!(
        validate_annotation(&"a".repeat(1_025)),
        Err(TrackerError::AnnotationTooLong)
    );
    assert_eq!(
        validate_annotation(&"é".repeat(513)),
        Err(TrackerError::AnnotationTooLong)
    );
    assert_eq!(validate_annotation(&"é".repeat(512)), Ok(()));
}

#[test]
fn pages_follow_each_other() {
    let mut state = wallet();
    for index in [4, 1, 9, 6, 2] {
        state.put_issued_address(given(0, index));
    }
    state.put_issued_address(given(1, 3));
    let page = |start: Option<u32>, limit: u32| {
        list_addresses(
            &state,
            &ListAddressesRequest {
                name: "treasury".to_owned(),
                branch: 0,
                start,
                limit,
            },
        )
    };
    let indexes = |shown: &Json| -> Vec<u64> {
        shown
            .get_list("addresses")
            .unwrap()
            .iter()
            .map(|address| address.get_u64("index").unwrap())
            .collect()
    };
    let first = page(None, 2).unwrap();
    assert_eq!(indexes(&first), vec![1, 2]);
    assert_eq!(first.get_u64("next_start"), Some(3));
    let second = page(Some(3), 2).unwrap();
    assert_eq!(indexes(&second), vec![4, 6]);
    assert_eq!(second.get_u64("next_start"), Some(7));
    let third = page(Some(7), 2).unwrap();
    assert_eq!(indexes(&third), vec![9]);
    assert_eq!(third.get("next_start"), Some(&Json::Null));
    assert_eq!(page(None, 0).err().unwrap().error, TrackerError::LimitOutOfRange);
    assert_eq!(page(None, 1_001).err().unwrap().error, TrackerError::LimitOutOfRange);
    assert_eq!(indexes(&page(None, 1_000).unwrap()).len(), 5);
}
