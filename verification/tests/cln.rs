use cln_tracker::cln::{
    accept_address, accept_record, account_events, add_script_watches, block_timestamp,
    bookkeeper_account_events, bwatch_status, child_part, delete_issued_addresses, delete_record,
    entry_text, is_address_entry, is_record_entry, list_datastore_children, list_owned_watches,
    list_watches, load_issued_addresses, load_records, parse_transaction, raw_block,
    rescan_watch_owners, save_issued_address, save_record, scan_watch_set, DatastoreEntry,
    OwnedWatch,
};
use cln_tracker::error::TrackerError;
use cln_tracker::json::Json;
use cln_tracker::model::{DescriptorConfig, DescriptorRecord, DescriptorStatus, IssuedAddress};
use cln_tracker::ordered::TextMap;
use miniscript::bitcoin::consensus::encode::deserialize_hex;
use miniscript::bitcoin::Transaction;
use std::collections::BTreeMap;

fn record(name: &str, descriptor: &str, branches: u32, lookahead: u32) -> DescriptorRecord {
    DescriptorRecord {
        config: DescriptorConfig {
            name: name.to_owned(),
            descriptor: descriptor.to_owned(),
            birthheight: 100,
            lookahead,
            confirmations: 1,
        },
        utxos: TextMap::new(),
        pending_movements: TextMap::new(),
        external_outpoints: TextMap::new(),
        next_indexes: BTreeMap::new(),
        range_ends: (0..branches).map(|branch| (branch, lookahead)).collect(),
        last_used_indexes: BTreeMap::new(),
        range_end: lookahead,
        last_used_index: None,
        status: DescriptorStatus::Active,
        initial_scan_complete: true,
        pending_rescan: None,
        scan_operation_id: None,
        incident: None,
        last_success_at: None,
        generation: None,
    }
}

const COINBASE: &str = "01000000010000000000000000000000000000000000000000000000000000000000000000ffffffff4d04ffff001d0104455468652054696d65732030332f4a616e2f32303039204368616e63656c6c6f72206f6e206272696e6b206f66207365636f6e64206261696c6f757420666f722062616e6b73ffffffff0100f2052a01000000434104678afdb0fe5548271967f1a67130b7105cd6a828e03909a67962e0ea1f61deb649f6bc3f4cef38c4f35504e51ec112de5c384df7ba0b8d578a4c702b6bf11d5fac00000000";

const HEADER: &str = "0100000000000000000000000000000000000000000000000000000000000000000000003ba3edfd7a7b12b27ac72c3e67768f617fc81bc3888a51323a9fb8aa4b1e5e4a29ab5f49ffff001d1dac2b7c";

fn text(value: &str) -> Json {
    Json::Text(value.to_owned())
}

fn object(fields: Vec<(&str, Json)>) -> Json {
    Json::Object(
        fields
            .into_iter()
            .map(|(name, value)| (name.to_owned(), value))
            .collect(),
    )
}

fn texts(values: &[&str]) -> Vec<String> {
    values.iter().map(|value| value.to_string()).collect()
}

fn address(branch: u32, index: u32) -> IssuedAddress {
    IssuedAddress {
        name: "treasury".to_owned(),
        branch,
        index,
        address: "x".to_owned(),
        scriptpubkey: "y".to_owned(),
        annotation: None,
        issued_at: 1,
        generation: Some(4),
    }
}

#[test]
fn transactions_are_decoded() {
    let tx = parse_transaction(COINBASE).unwrap();
    assert_eq!(
        tx.txid,
        "4a5e1e4baab89f3a32518a88c31bc87f618f76673e2cc77ab2127b7afdeda33b"
    );
    assert_eq!(tx.outputs.len(), 1);
    assert_eq!(tx.outputs[0].value_sat, 5_000_000_000);
    assert_eq!(tx.outputs[0].script.len(), 67);
    assert_eq!(
        tx.inputs,
        vec!["0000000000000000000000000000000000000000000000000000000000000000:4294967295"]
    );
    let reason = parse_transaction("zz").err().unwrap();
    assert_eq!(reason.error, TrackerError::TransactionInvalid);
    let decoded: Result<Transaction, _> = deserialize_hex("zz");
    let cause = format!("{:#}", anyhow::Error::new(decoded.unwrap_err()));
    assert_eq!(
        reason.about("").message(),
        format!("decoding raw transaction from bwatch: {}", cause)
    );
}

#[test]
fn the_time_of_a_block_is_in_its_header() {
    let block = format!("{}01{}", HEADER, COINBASE);
    let reply = object(vec![("block", text(&block))]);
    assert_eq!(block_timestamp(&reply, 0), Ok(1_231_006_505));
    assert_eq!(
        block_timestamp(&object(vec![]), 3).map_err(|reason| reason.error),
        Err(TrackerError::BlockMissing { height: 3 })
    );
    assert_eq!(
        block_timestamp(&object(vec![("block", text("00"))]), 3).map_err(|reason| reason.error),
        Err(TrackerError::BlockInvalid { height: 3 })
    );
    let call = raw_block(7);
    assert_eq!(call.method, "getrawblockbyheight");
    assert_eq!(call.params.get_u64("height"), Some(7));
}

#[test]
fn owned_watches_are_read_from_a_listing() {
    let listing = |entries: Vec<Json>| object(vec![("watches", Json::List(entries))]);
    let owners = |names: &[&str]| {
        (
            "owners",
            Json::List(names.iter().map(|name| text(name)).collect()),
        )
    };
    let reply = listing(vec![
        object(vec![
            owners(&["wallet/1", "plugin/tracker/a/spk/0/0"]),
            ("type", text("scriptpubkey")),
            ("scriptpubkey", text("51")),
        ]),
        object(vec![
            owners(&["plugin/tracker/a/outpoint/aa:0", "plugin/tracker/b/outpoint/aa:0"]),
            ("type", text("outpoint")),
            ("outpoint", text("aa:0")),
        ]),
        object(vec![
            owners(&["plugin/tracker/a/depth"]),
            ("type", text("blockdepth")),
            ("start_block", Json::Number(9)),
        ]),
        object(vec![owners(&["plugin/tracker/a/scid"]), ("type", text("scid"))]),
    ]);
    assert_eq!(
        list_owned_watches(&reply, "plugin/tracker/a/").unwrap(),
        vec![
            OwnedWatch::Script {
                owner: "plugin/tracker/a/spk/0/0".to_owned(),
                scriptpubkey: "51".to_owned(),
            },
            OwnedWatch::Outpoint {
                owner: "plugin/tracker/a/outpoint/aa:0".to_owned(),
                outpoint: "aa:0".to_owned(),
            },
            OwnedWatch::Blockdepth {
                owner: "plugin/tracker/a/depth".to_owned(),
                start_block: 9,
            },
        ]
    );
    let refused = |reply: &Json| list_owned_watches(reply, "plugin/tracker/").err();
    assert_eq!(refused(&object(vec![])), Some(TrackerError::WatchesMissing));
    assert_eq!(
        refused(&listing(vec![object(vec![])])),
        Some(TrackerError::WatchOwnersMissing)
    );
    let broken = |kind: &str| {
        listing(vec![object(vec![
            owners(&["plugin/tracker/a/x"]),
            ("type", text(kind)),
        ])])
    };
    assert_eq!(
        refused(&broken("scriptpubkey")),
        Some(TrackerError::WatchScriptMissing)
    );
    assert_eq!(
        refused(&broken("outpoint")),
        Some(TrackerError::WatchOutpointMissing)
    );
    assert_eq!(
        refused(&broken("blockdepth")),
        Some(TrackerError::WatchStartMissing)
    );
    let high = listing(vec![object(vec![
        owners(&["plugin/tracker/a/x"]),
        ("type", text("blockdepth")),
        ("start_block", Json::Number(1 << 32)),
    ])]);
    assert_eq!(refused(&high), Some(TrackerError::WatchStartMissing));
}

#[test]
fn calls_name_their_methods() {
    assert_eq!(bwatch_status().method, "bwatch-status");
    assert_eq!(list_watches().method, "listwatch");
    assert_eq!(
        account_events("treasury").params.get_str("account"),
        Some(&"treasury".to_owned())
    );
    assert!(add_script_watches(&vec![], 5).is_none());
    assert!(rescan_watch_owners(&vec![], 5).is_none());
    let pairs = vec![("owner".to_owned(), "51".to_owned())];
    let added = add_script_watches(&pairs, 5).unwrap();
    assert_eq!(added.params.get("rescan"), Some(&Json::Bool(false)));
    assert_eq!(
        added.params.get_list("watches").unwrap()[0].get_str("scriptpubkey"),
        Some(&"51".to_owned())
    );
    let scan = scan_watch_set(&pairs, 6);
    assert_eq!(scan.method, "scanwatchset");
    assert_eq!(scan.params.get_u64("start_block"), Some(6));
    let events = object(vec![("events", Json::List(vec![Json::Null]))]);
    assert_eq!(bookkeeper_account_events(&events).unwrap().len(), 1);
    assert_eq!(
        bookkeeper_account_events(&object(vec![])).err(),
        Some(TrackerError::EventsMissing)
    );
}

#[test]
fn records_are_stored_under_their_generation() {
    let mut kept = record("treasury", "unused", 1, 1);
    let key = Json::List(vec![text("tracker"), text("descriptors"), text("treasury")]);
    let created = save_record(&kept, "data");
    assert_eq!(created.method, "datastore");
    assert_eq!(created.params.get("key"), Some(&key));
    assert_eq!(created.params.get_str("string"), Some(&"data".to_owned()));
    assert_eq!(created.params.get_str("mode"), Some(&"must-create".to_owned()));
    assert_eq!(created.params.get("generation"), None);
    kept.generation = Some(3);
    let replaced = save_record(&kept, "data");
    assert_eq!(replaced.params.get_str("mode"), Some(&"must-replace".to_owned()));
    assert_eq!(replaced.params.get_u64("generation"), Some(3));
    let deleted = delete_record(&kept);
    assert_eq!(deleted.method, "deldatastore");
    assert_eq!(deleted.params.get_u64("generation"), Some(3));
    let saved = save_issued_address(&address(1, 20), "data");
    assert_eq!(
        saved.params.get("key"),
        Some(&Json::List(vec![
            text("tracker"),
            text("addresses"),
            text("treasury"),
            text("1"),
            text("20"),
        ]))
    );
    let mut other = address(0, 0);
    other.name = "savings".to_owned();
    let deletions = delete_issued_addresses(&vec![address(0, 1), other, address(1, 0)], "treasury");
    assert_eq!(deletions.len(), 2);
    assert_eq!(deletions[1].method, "deldatastore");
}

#[test]
fn stored_entries_must_be_what_their_keys_say() {
    assert!(is_record_entry(&texts(&["tracker", "descriptors", "a"])));
    assert!(!is_record_entry(&texts(&["tracker", "addresses", "a"])));
    assert!(!is_record_entry(&texts(&["tracker", "descriptors"])));
    assert!(is_address_entry(&texts(&["tracker", "addresses", "a", "0", "1"])));
    assert!(!is_address_entry(&texts(&["tracker", "addresses", "a", "0"])));
    assert_eq!(child_part(&texts(&["a", "b"]), 1), Some(&"b".to_owned()));
    assert_eq!(child_part(&texts(&["a", "b"]), 0), None);
    assert_eq!(load_records().params.get_list("key").unwrap().len(), 2);
    assert_eq!(load_issued_addresses().params.get_list("key").unwrap().len(), 2);
    assert_eq!(
        list_datastore_children(&texts(&["x"])).params.get_list("key"),
        Some(&vec![text("x")])
    );
    let entry = DatastoreEntry {
        key: texts(&["tracker", "descriptors", "a"]),
        generation: Some(5),
        string: Some("data".to_owned()),
    };
    assert_eq!(entry_text(&entry), Ok(&"data".to_owned()));
    let binary = DatastoreEntry { string: None, ..entry };
    assert_eq!(entry_text(&binary), Err(TrackerError::EntryNotText));
    let accepted = accept_record("a", record("a", "unused", 1, 1), Some(5)).unwrap();
    assert_eq!(accepted.generation, Some(5));
    assert_eq!(
        accept_record("b", record("a", "unused", 1, 1), Some(5)).err().unwrap().message(),
        "tracker datastore key 'b' contains descriptor named 'a'"
    );
    let key = texts(&["tracker", "addresses", "treasury", "1", "20"]);
    let accepted = accept_address(&key, address(1, 20), Some(6)).unwrap();
    assert_eq!(accepted.generation, Some(6));
    assert_eq!(
        accept_address(&key, address(1, 2), Some(6)).err(),
        Some(TrackerError::AddressMisplaced)
    );
}
