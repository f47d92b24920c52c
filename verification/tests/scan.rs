use cln_tracker::cln::{BwatchRescan, BwatchStatus};
use cln_tracker::error::TrackerError;
use cln_tracker::model::{BwatchMatch, BwatchScanResult};
use cln_tracker::scan::{
    apply_historical_scan, find_scan, report_scan_progress, rpc_progress, scan_blocks,
};

fn event(owner: &str, watch_type: &str, blockheight: u32) -> BwatchMatch {
    BwatchMatch {
        owner: owner.to_owned(),
        watch_type: watch_type.to_owned(),
        blockheight,
        tx: None,
        index: None,
        timestamp: None,
        historical_scan: false,
    }
}

fn running(watch_type: &str, owner: &str, blocks_processed: u64) -> BwatchRescan {
    BwatchRescan {
        watch_type: watch_type.to_owned(),
        owners: vec!["wallet/1".to_owned(), owner.to_owned()],
        start_height: 1,
        current_height: 2,
        target_height: 3,
        blocks_processed,
        blocks_total: 100,
        progress_percent: 1,
        script_matches_found: 0,
        outpoint_matches_found: 0,
        outpoints_followed: 0,
    }
}

#[test]
fn block_counts_map_to_zero_indexed_rpc_progress() {
    assert_eq!(rpc_progress(0, 100), None);
    assert_eq!(rpc_progress(1, 100), Some((0, 100)));
    assert_eq!(rpc_progress(50, 100), Some((49, 100)));
    assert_eq!(rpc_progress(100, 100), Some((99, 100)));
    assert_eq!(rpc_progress(101, 100), Some((99, 100)));
    assert_eq!(rpc_progress(1, 1), None);
    assert_eq!(rpc_progress(1, u64::from(u32::MAX) + 1), None);
}

#[test]
fn progress_is_reported_when_it_changes() {
    assert_eq!(report_scan_progress(None, 5, 10), Some((4, 10)));
    assert_eq!(report_scan_progress(Some((4, 10)), 5, 10), None);
    assert_eq!(report_scan_progress(Some((4, 10)), 6, 10), Some((5, 10)));
    assert_eq!(report_scan_progress(Some((4, 10)), 0, 10), None);
}

#[test]
fn the_scan_of_a_descriptor_is_found() {
    let status = BwatchStatus {
        enabled: true,
        current_height: 9,
        backend_height: None,
        lag: None,
        caught_up: None,
        last_poll_error: None,
        last_rescan_error: None,
        active_rescans: vec![
            running("scriptpubkey", "plugin/tracker/treasury/spk/0/0", 1),
            running("set", "plugin/tracker/savings/spk/0/0", 2),
            running("set", "plugin/tracker/treasury/spk/0/0", 3),
        ],
    };
    assert_eq!(find_scan(&status, "plugin/tracker/treasury/"), Some((3, 100)));
    assert_eq!(find_scan(&status, "plugin/tracker/cold/"), None);
}

#[test]
fn matches_are_applied_by_height_and_outputs_first() {
    let scan = BwatchScanResult {
        start_block: 10,
        target_block: 20,
        blocks_processed: 11,
        matches: vec![
            event("a", "outpoint", 15),
            event("b", "scriptpubkey", 15),
            event("c", "scriptpubkey", 12),
            event("d", "outpoint", 12),
            event("e", "scriptpubkey", 15),
        ],
    };
    let accepted = apply_historical_scan(10, &scan).unwrap();
    let owners: Vec<&str> = accepted.matches.iter().map(|m| m.owner.as_str()).collect();
    assert_eq!(owners, vec!["c", "d", "b", "e", "a"]);
    assert!(accepted.matches.iter().all(|m| m.historical_scan));
    assert_eq!(accepted.summary.start_block, 10);
    assert_eq!(accepted.summary.target_block, 20);
    assert_eq!(accepted.summary.blocks_processed, 11);
    assert_eq!(accepted.summary.matches_found, 5);
    assert_eq!(accepted.summary.deposits_matched, 3);
    assert_eq!(accepted.summary.spends_matched, 2);
}

#[test]
fn incomplete_scans_are_refused() {
    let mut scan = BwatchScanResult {
        start_block: 10,
        target_block: 20,
        blocks_processed: 10,
        matches: vec![],
    };
    assert_eq!(
        apply_historical_scan(10, &scan).err(),
        Some(TrackerError::ScanIncomplete)
    );
    scan.blocks_processed = 11;
    assert_eq!(
        apply_historical_scan(11, &scan).err(),
        Some(TrackerError::ScanIncomplete)
    );
    assert!(apply_historical_scan(10, &scan).is_ok());
    assert_eq!(scan_blocks(21, 20), 0);
    assert_eq!(scan_blocks(0, u32::MAX), 1 << 32);
}
