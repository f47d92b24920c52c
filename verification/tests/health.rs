use cln_tracker::cln::{BwatchError, BwatchRescan, BwatchStatus};
use cln_tracker::health::{health_snapshot, metrics, metrics_from_health};
use cln_tracker::json::Json;
use cln_tracker::model::{DescriptorConfig, DescriptorRecord, DescriptorStatus};
use cln_tracker::ordered::TextMap;
use cln_tracker::state::AppState;
use cln_tracker::views::Shown;
use std::collections::BTreeMap;

fn record(name: &str, descriptor: &str, branches: u32, lookahead: u32) -> DescriptorRecord {
    DescriptorRecord {
        config: DescriptorConfig {
            name: name.to_owned(),
            descriptor: descriptor.to_owned(),
            birthheight: 100,
            lookahead,
            confirmations: 1,
        },
        utxos: TextMap::new(),
        pending_movements: TextMap::new(),
        external_outpoints: TextMap::new(),
        next_indexes: BTreeMap::new(),
        range_ends: (0..branches).map(|branch| (branch, lookahead)).collect(),
        last_used_indexes: BTreeMap::new(),
        range_end: lookahead,
        last_used_index: None,
        status: DescriptorStatus::Active,
        initial_scan_complete: true,
        pending_rescan: None,
        scan_operation_id: None,
        incident: None,
        last_success_at: None,
        generation: None,
    }
}

fn object(fields: Vec<(&str, Json)>) -> Json {
    Json::Object(
        fields
            .into_iter()
            .map(|(name, value)| (name.to_owned(), value))
            .collect(),
    )
}

fn text(value: &str) -> Json {
    Json::Text(value.to_owned())
}

fn status() -> BwatchStatus {
    BwatchStatus {
        enabled: true,
        current_height: 852_023,
        backend_height: Some(852_024),
        lag: Some(1),
        caught_up: Some(true),
        last_poll_error: None,
        last_rescan_error: None,
        active_rescans: vec![BwatchRescan {
            watch_type: "set".to_owned(),
            owners: vec!["plugin/tracker/treasury/spk/0/0".to_owned()],
            start_height: 825_000,
            current_height: 852_023,
            target_height: 964_806,
            blocks_processed: 27_023,
            blocks_total: 139_807,
            progress_percent: 19,
            script_matches_found: 12,
            outpoint_matches_found: 5,
            outpoints_followed: 11,
        }],
    }
}

#[test]
fn live_rescan_match_counters_are_relayed() {
    let status = status().show();
    let scan = &status.get_list("active_rescans").unwrap()[0];

    assert_eq!(scan.get_u64("script_matches_found"), Some(12));
    assert_eq!(scan.get_u64("outpoint_matches_found"), Some(5));
    assert_eq!(scan.get_u64("outpoints_followed"), Some(11));
}

#[test]
fn metrics_contract_is_versioned_and_bounded() {
    let health = object(vec![
        ("healthy", Json::Bool(true)),
        (
            "descriptors",
            object(vec![
                ("active", Json::Number(2)),
                ("syncing", Json::Number(1)),
                ("deleting", Json::Number(0)),
                ("pending_movements", Json::Number(3)),
            ]),
        ),
        (
            "incidents",
            Json::List(vec![object(vec![
                ("descriptor", text("treasury")),
                ("code", text("bookkeeper_delivery_failed")),
                ("operation", text("deliver")),
            ])]),
        ),
        (
            "bwatch",
            object(vec![
                ("current_height", Json::Number(42)),
                ("lag", Json::Number(1)),
                (
                    "active_rescans",
                    Json::List(vec![object(vec![
                        ("blocks_processed", Json::Number(25)),
                        ("blocks_total", Json::Number(100)),
                        ("script_matches_found", Json::Number(7)),
                        ("outpoint_matches_found", Json::Number(3)),
                        ("outpoints_followed", Json::Number(6)),
                    ])]),
                ),
            ]),
        ),
        (
            "counters",
            object(vec![
                ("reconciliation_failures", Json::Number(4)),
                ("bookkeeper_failures", Json::Number(5)),
                ("reorgs", Json::Number(6)),
            ]),
        ),
    ]);
    let metrics = metrics_from_health(&health);

    assert_eq!(metrics.get_u64("version"), Some(1));
    assert_eq!(metrics.get_str("namespace"), Some(&"tracker".to_owned()));
    let families = metrics.get_list("families").unwrap();
    let samples = |family: &Json| family.get_list("samples").unwrap().len();
    let value = |family: &Json, place: usize| {
        family.get_list("samples").unwrap()[place]
            .get("value")
            .unwrap()
            .duplicate()
    };
    assert_eq!(families.len(), 16);
    assert_eq!(families[0].get_str("name"), Some(&"healthy".to_owned()));
    assert_eq!(value(&families[0], 0), Json::Number(1));
    assert_eq!(value(&families[1], 0), Json::Number(2));
    assert_eq!(samples(&families[1]), 3);
    assert_eq!(
        families[3].get_list("samples").unwrap()[0]
            .get("labels")
            .unwrap()
            .get_str("descriptor"),
        Some(&"treasury".to_owned())
    );
    let family = |name: &str| {
        families
            .iter()
            .find(|family| family.get_str("name") == Some(&name.to_owned()))
            .unwrap()
    };
    assert_eq!(value(family("bwatch_active_rescans"), 0), Json::Number(1));
    assert_eq!(
        value(family("bwatch_rescan_blocks_processed"), 0),
        Json::Number(25)
    );
    let ratio = match value(family("bwatch_rescan_progress_ratio"), 0) {
        Json::Ratio(part, whole) => part as f64 / whole as f64,
        _ => panic!("not a ratio"),
    };
    assert_eq!(ratio, 0.25);
    assert_eq!(
        value(family("bwatch_rescan_script_matches_found"), 0),
        Json::Number(7)
    );
    assert_eq!(
        value(family("bwatch_rescan_outpoint_matches_found"), 0),
        Json::Number(3)
    );
    assert_eq!(
        value(family("bwatch_rescan_outpoints_followed"), 0),
        Json::Number(6)
    );
    assert_eq!(
        family("reorgs_total").get_str("name"),
        Some(&"reorgs_total".to_owned())
    );
    assert_eq!(value(family("reorgs_total"), 0), Json::Number(6));
    assert_eq!(
        family("reorgs_total").get_str("type"),
        Some(&"counter".to_owned())
    );
}

#[test]
fn metrics_of_an_empty_report_are_zero() {
    let shown = metrics(&object(vec![])).unwrap();
    let families = shown.get_list("families").unwrap();
    let first = |place: usize| {
        families[place].get_list("samples").unwrap()[0]
            .get("value")
            .unwrap()
            .duplicate()
    };
    assert_eq!(first(0), Json::Number(0));
    assert_eq!(first(2), Json::Number(0));
    assert_eq!(first(9), Json::Ratio(0, 1));
    assert!(families[3].get_list("samples").unwrap().is_empty());
}

#[test]
fn sums_that_cannot_be_shown_have_no_metrics() {
    let scan = || object(vec![("blocks_total", Json::Number(u64::MAX))]);
    let report = |scans: Vec<Json>| {
        object(vec![(
            "bwatch",
            object(vec![("active_rescans", Json::List(scans))]),
        )])
    };
    assert!(metrics(&report(vec![scan()])).is_some());
    assert!(metrics(&report(vec![scan(), scan()])).is_none());
}

#[test]
fn health_needs_active_descriptors_and_bwatch() {
    let mut state = AppState::new("rpc".to_owned(), "regtest".to_owned());
    state.put_record(record("a", "unused", 1, 1));
    let well = health_snapshot(&state, &Ok(status()));
    assert_eq!(well.get("healthy"), Some(&Json::Bool(true)));
    assert_eq!(well.get("descriptors").unwrap().get_u64("total"), Some(1));
    assert_eq!(well.get("descriptors").unwrap().get_u64("active"), Some(1));
    assert_eq!(
        well.get("bwatch").unwrap().get_u64("current_height"),
        Some(852_023)
    );

    let lost = health_snapshot(&state, &Err("no node".to_owned()));
    assert_eq!(lost.get("healthy"), Some(&Json::Bool(false)));
    assert_eq!(
        lost.get("bwatch").unwrap().get_str("error"),
        Some(&"no node".to_owned())
    );

    let mut behind = status();
    behind.caught_up = None;
    assert_eq!(
        health_snapshot(&state, &Ok(behind)).get("healthy"),
        Some(&Json::Bool(false))
    );
    let mut failed = status();
    failed.last_rescan_error = Some(BwatchError {
        height: 4,
        target_height: None,
        message: "lost".to_owned(),
    });
    let shown = health_snapshot(&state, &Ok(failed));
    assert_eq!(shown.get("healthy"), Some(&Json::Bool(false)));
    let error = shown.get("bwatch").unwrap().get("last_rescan_error").unwrap();
    assert_eq!(error.get("target_height"), Some(&Json::Null));
    assert_eq!(error.get_u64("height"), Some(4));

    let mut syncing = record("b", "unused", 1, 1);
    syncing.status = DescriptorStatus::Syncing;
    state.put_record(syncing);
    state.report_descriptor_failure("a", "update", "lost", false, 9);
    let ill = health_snapshot(&state, &Ok(status()));
    assert_eq!(ill.get("healthy"), Some(&Json::Bool(false)));
    assert_eq!(ill.get("descriptors").unwrap().get_u64("syncing"), Some(1));
    assert_eq!(
        ill.get("counters").unwrap().get_u64("reconciliation_failures"),
        Some(1)
    );
    let incidents = ill.get_list("incidents").unwrap();
    assert_eq!(incidents.len(), 1);
    assert_eq!(incidents[0].get_str("descriptor"), Some(&"a".to_owned()));
    assert_eq!(incidents[0].get_u64("first_seen"), Some(9));
}

#[test]
fn every_sample_is_a_number_with_known_labels() {
    let mut state = AppState::new("rpc".to_owned(), "regtest".to_owned());
    state.put_record(record("treasury", "unused", 1, 1));
    assert_eq!(
        state.report_descriptor_failure("treasury", "update", "no watch", false, 7),
        Some(true)
    );
    let mut bwatch = status();
    bwatch.lag = None;
    let health = health_snapshot(&state, &Ok(bwatch));
    assert_eq!(health.get("bwatch").unwrap().get("lag"), Some(&Json::Null));
    let metrics = metrics(&health).unwrap();
    let mut labels = Vec::new();
    for family in metrics.get_list("families").unwrap() {
        let kind = family.get_str("type").unwrap();
        assert!(kind == "gauge" || kind == "counter");
        for sample in family.get_list("samples").unwrap() {
            assert!(matches!(
                sample.get("value"),
                Some(Json::Number(_) | Json::Ratio(_, _))
            ));
            match sample.get("labels") {
                Some(Json::Object(fields)) => {
                    labels.extend(fields.iter().map(|(name, _)| name.clone()));
                }
                _ => panic!("a sample has labels"),
            }
        }
        if family.get_str("name").unwrap() == "bwatch_lag_blocks" {
            let samples = family.get_list("samples").unwrap();
            assert_eq!(samples[0].get("value"), Some(&Json::Number(0)));
        }
    }
    assert_eq!(
        labels,
        vec!["status", "status", "status", "descriptor", "code", "operation"]
    );
}
