use cln_tracker::error::TrackerError;
use cln_tracker::frontier::{
    branch_frontier, branch_range_end, desired_branch_range_end, desired_range_end,
};
use cln_tracker::model::{DescriptorConfig, DescriptorRecord, DescriptorStatus};
use cln_tracker::ordered::TextMap;
use std::collections::BTreeMap;

fn record(name: &str, descriptor: &str, branches: u32, lookahead: u32) -> DescriptorRecord {
    DescriptorRecord {
        config: DescriptorConfig {
            name: name.to_owned(),
            descriptor: descriptor.to_owned(),
            birthheight: 100,
            lookahead,
            confirmations: 1,
        },
        utxos: TextMap::new(),
        pending_movements: TextMap::new(),
        external_outpoints: TextMap::new(),
        next_indexes: BTreeMap::new(),
        range_ends: (0..branches).map(|branch| (branch, lookahead)).collect(),
        last_used_indexes: BTreeMap::new(),
        range_end: lookahead,
        last_used_index: None,
        status: DescriptorStatus::Active,
        initial_scan_complete: true,
        pending_rescan: None,
        scan_operation_id: None,
        incident: None,
        last_success_at: None,
        generation: None,
    }
}

#[test]
fn lookahead_is_a_gap_beyond_the_last_used_index() {
    assert_eq!(desired_range_end(None, 20).unwrap(), 20);
    assert_eq!(desired_range_end(Some(7), 20).unwrap(), 28);
}

#[test]
fn ranges_stay_unhardened() {
    assert_eq!(desired_range_end(Some(0x7fff_fffd), 1), Ok(0x7fff_ffff));
    assert_eq!(
        desired_range_end(Some(0x7fff_fffe), 1),
        Err(TrackerError::RangeTooLarge)
    );
    assert_eq!(
        desired_range_end(Some(u32::MAX), 1),
        Err(TrackerError::RangeOverflow)
    );
}

#[test]
fn the_frontier_is_the_last_used_or_given_out() {
    let mut kept = record("a", "unused", 2, 5);
    assert_eq!(branch_frontier(&kept, 0), None);
    kept.last_used_indexes = BTreeMap::from([(0, 4)]);
    kept.next_indexes = BTreeMap::from([(0, 3), (1, 9)]);
    assert_eq!(branch_frontier(&kept, 0), Some(4));
    assert_eq!(branch_frontier(&kept, 1), Some(8));
    kept.next_indexes.insert(2, 0);
    assert_eq!(branch_frontier(&kept, 2), None);
    assert_eq!(desired_branch_range_end(&kept, 1, 5), Ok(14));
    assert_eq!(branch_range_end(&kept, 1), 5);
    kept.range_end = 7;
    assert_eq!(branch_range_end(&kept, 6), 7);
}
