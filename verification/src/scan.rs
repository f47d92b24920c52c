//! Scans of history: their progress and what they found.

use crate::cln::{BwatchRescan, BwatchStatus, RescanModel};
use crate::error::TrackerError;
use crate::json::{named_field_at, no_fields, Fields, Json, JsonModel};
use crate::model::{
    copy_text, BwatchMatch, BwatchScanResult, DescriptorRecord, MatchModel, RecordModel,
};
use crate::ordered::{in_rank_order, models, rank_order, Duplicate, Ranked};
use crate::text::{begins_with, same_text, starts_with};
use crate::views::{record_field_at, record_fields, record_names_differ, show_record_fields};
use vstd::prelude::*;

verus! {

/// How far a scan is, counted from zero, and out of how many blocks: none
/// before the first block, for a scan of fewer than two blocks, and for one of
/// more blocks than can be shown.
pub open spec fn progress_of(blocks_processed: u64, blocks_total: u64) -> Option<(u32, u32)> {
    if blocks_processed == 0 || blocks_total < 2 || blocks_total > u32::MAX {
        None
    } else if blocks_processed < blocks_total {
        Some(((blocks_processed - 1) as u32, blocks_total as u32))
    } else {
        Some(((blocks_total - 1) as u32, blocks_total as u32))
    }
}

/// How far a scan is.
pub fn rpc_progress(blocks_processed: u64, blocks_total: u64) -> (r: Option<(u32, u32)>)
    ensures
        r == progress_of(blocks_processed, blocks_total),
{
    if blocks_processed == 0 || blocks_total < 2 || blocks_total > u32::MAX as u64 {
        return None;
    }
    let completed = if blocks_processed < blocks_total {
        blocks_processed
    } else {
        blocks_total
    };
    Some(((completed - 1) as u32, blocks_total as u32))
}

/// The progress to report: none where there is none or it was the last one
/// that was reported.
pub open spec fn progress_to_report(
    last_progress: Option<(u32, u32)>,
    blocks_processed: u64,
    blocks_total: u64,
) -> Option<(u32, u32)> {
    if progress_of(blocks_processed, blocks_total) == last_progress {
        None
    } else {
        progress_of(blocks_processed, blocks_total)
    }
}

/// The progress to report: none where there is none or it was the last one
/// that was reported.
pub fn report_scan_progress(
    last_progress: Option<(u32, u32)>,
    blocks_processed: u64,
    blocks_total: u64,
) -> (r: Option<(u32, u32)>)
    ensures
        r == progress_to_report(last_progress, blocks_processed, blocks_total),
{
    match (rpc_progress(blocks_processed, blocks_total), last_progress) {
        (None, _) => None,
        (Some(progress), None) => Some(progress),
        (Some(progress), Some(last)) => if progress.0 == last.0 && progress.1 == last.1 {
            None
        } else {
            Some(progress)
        },
    }
}

/// The number of blocks from a first to a last one.
pub open spec fn blocks_between(start_block: u32, target_block: u32) -> u64 {
    if start_block > target_block {
        0
    } else {
        (target_block - start_block + 1) as u64
    }
}

/// The number of blocks from a first to a last one.
pub fn scan_blocks(start_block: u32, target_block: u32) -> (r: u64)
    ensures
        r == blocks_between(start_block, target_block),
{
    if start_block > target_block {
        0
    } else {
        (target_block - start_block) as u64 + 1
    }
}

/// A scan that runs is one for owners that begin alike.
pub open spec fn scans_for(rescan: RescanModel, prefix: Seq<char>) -> bool {
    rescan.watch_type == "set"@ && exists|i: int|
        0 <= i < rescan.owners.len() && begins_with(#[trigger] rescan.owners[i], prefix)
}

/// The first of the scans of a row that is for owners that begin alike.
pub open spec fn first_scan_for(rescans: Seq<RescanModel>, prefix: Seq<char>) -> Option<RescanModel>
    decreases rescans.len(),
{
    if rescans.len() == 0 {
        None
    } else if scans_for(rescans[0], prefix) {
        Some(rescans[0])
    } else {
        first_scan_for(rescans.drop_first(), prefix)
    }
}

/// Whether a scan is one for owners that begin alike.
fn is_scan_for(rescan: &BwatchRescan, prefix: &str) -> (r: bool)
    ensures
        r == scans_for(rescan@, prefix@),
{
    if !same_text(rescan.watch_type.as_str(), "set") {
        return false;
    }
    let mut i: usize = 0;
    while i < rescan.owners.len()
        invariant
            i <= rescan.owners.len(),
            rescan@.watch_type == "set"@,
            forall|j: int| 0 <= j < i ==> !begins_with(#[trigger] rescan@.owners[j], prefix@),
        decreases rescan.owners.len() - i,
    {
        assert(rescan@.owners[i as int] == rescan.owners[i as int]@);
        if starts_with(rescan.owners[i].as_str(), prefix) {
            return true;
        }
        i = i + 1;
    }
    false
}

/// How many blocks the scan of a descriptor has processed, and out of how
/// many, where one runs.
pub open spec fn found_progress(rescans: Seq<RescanModel>, prefix: Seq<char>) -> Option<
    (u64, u64),
> {
    match first_scan_for(rescans, prefix) {
        Some(rescan) => Some((rescan.blocks_processed, rescan.blocks_total)),
        None => None,
    }
}

/// How many blocks the scan of a descriptor has processed, and out of how
/// many, where bwatch runs one.
pub fn find_scan(status: &BwatchStatus, owner_prefix: &str) -> (r: Option<(u64, u64)>)
    ensures
        r == found_progress(status@.active_rescans, owner_prefix@),
{
    let ghost all = status@.active_rescans;
    let mut i: usize = 0;
    assert(all.skip(0) =~= all);
    while i < status.active_rescans.len()
        invariant
            i <= status.active_rescans.len(),
            all == models(status.active_rescans@),
            first_scan_for(all, owner_prefix@) == first_scan_for(all.skip(i as int), owner_prefix@),
            all == status@.active_rescans,
        decreases status.active_rescans.len() - i,
    {
        let rescan = &status.active_rescans[i];
        assert(all.skip(i as int)[0] == rescan@);
        assert(all.skip(i as int).drop_first() =~= all.skip(i + 1));
        if is_scan_for(rescan, owner_prefix) {
            return Some((rescan.blocks_processed, rescan.blocks_total));
        }
        i = i + 1;
    }
    None
}

/// What a scan of history came to.
#[derive(Clone, Copy, Debug, PartialEq, Eq, Structural)]
pub struct HistoricalScanSummary {
    pub start_block: u32,
    pub target_block: u32,
    pub blocks_processed: u64,
    pub matches_found: u64,
    pub deposits_matched: u64,
    pub spends_matched: u64,
}

/// The number of matches of a type in a row.
pub open spec fn count_type(matches: Seq<MatchModel>, watch_type: Seq<char>) -> nat
    decreases matches.len(),
{
    if matches.len() == 0 {
        0
    } else {
        count_type(matches.drop_last(), watch_type) + (if matches.last().watch_type == watch_type {
            1nat
        } else {
            0nat
        })
    }
}

/// Whether a match is one of a script.
pub open spec fn is_deposit(event: MatchModel) -> bool {
    event.watch_type == "scriptpubkey"@
}

impl Duplicate for BwatchMatch {
    fn duplicate(&self) -> (r: Self) {
        BwatchMatch {
            owner: self.owner.clone(),
            watch_type: self.watch_type.clone(),
            blockheight: self.blockheight,
            tx: copy_text(&self.tx),
            index: self.index,
            timestamp: self.timestamp,
            historical_scan: self.historical_scan,
        }
    }
}

/// Matches rank by height, and within a block outputs come before spends, so
/// that an output of the descriptor is known when it is spent.
impl Ranked for BwatchMatch {
    open spec fn before(a: MatchModel, b: MatchModel) -> bool {
        a.blockheight < b.blockheight || (a.blockheight == b.blockheight && is_deposit(a)
            && !is_deposit(b))
    }

    proof fn before_one_way(a: MatchModel, b: MatchModel) {
    }

    proof fn not_before_chain(a: MatchModel, b: MatchModel, c: MatchModel) {
    }

    fn is_before(&self, other: &Self) -> (r: bool) {
        self.blockheight < other.blockheight || (self.blockheight == other.blockheight && same_text(
            self.watch_type.as_str(),
            "scriptpubkey",
        ) && !same_text(other.watch_type.as_str(), "scriptpubkey"))
    }
}

/// A match as one of a scan of history.
pub open spec fn as_historical(event: MatchModel) -> MatchModel {
    MatchModel { historical_scan: true, ..event }
}

/// `order` names each position of a row once, in the order in which its matches
/// are applied.
pub open spec fn is_match_order(matches: Seq<MatchModel>, order: Seq<usize>) -> bool {
    &&& order.len() == matches.len()
    &&& forall|x: usize| #[trigger] order.contains(x) <==> x < matches.len()
    &&& in_rank_order::<BwatchMatch>(matches, order)
}

/// `applied` are the matches of a scan in the order in which they are applied.
pub open spec fn in_match_order(matches: Seq<MatchModel>, applied: Seq<MatchModel>) -> bool {
    exists|order: Seq<usize>| #[trigger]
        is_match_order(matches, order) && applied == order.map_values(
            |i: usize| as_historical(matches[i as int]),
        )
}

/// A scan of history examined every block from the one that was asked for.
pub open spec fn is_complete(
    start_block: u32,
    target_block: u32,
    blocks_processed: u64,
    expected_start_block: u32,
) -> bool {
    start_block == expected_start_block && blocks_processed == blocks_between(
        start_block,
        target_block,
    )
}

/// A summary is that of a scan with these matches.
pub open spec fn is_summary(
    summary: HistoricalScanSummary,
    start_block: u32,
    target_block: u32,
    blocks_processed: u64,
    matches: Seq<MatchModel>,
) -> bool {
    &&& summary.start_block == start_block
    &&& summary.target_block == target_block
    &&& summary.blocks_processed == blocks_processed
    &&& summary.matches_found == matches.len()
    &&& summary.deposits_matched == count_type(matches, "scriptpubkey"@)
    &&& summary.spends_matched == count_type(matches, "outpoint"@)
}

/// What a scan of history came to, and its matches in the order in which they
/// are applied.
#[derive(Debug)]
pub struct HistoricalScan {
    pub summary: HistoricalScanSummary,
    pub matches: Vec<BwatchMatch>,
}

/// The number of matches of a type in a list.
fn count_matches(matches: &Vec<BwatchMatch>, watch_type: &str) -> (r: u64)
    ensures
        r == count_type(models(matches@), watch_type@),
        r <= matches.len(),
{
    let ghost all = models(matches@);
    let mut count: u64 = 0;
    let mut i: usize = 0;
    while i < matches.len()
        invariant
            i <= matches.len(),
            all == models(matches@),
            count == count_type(all.take(i as int), watch_type@),
            count <= i,
        decreases matches.len() - i,
    {
        assert(all[i as int] == matches[i as int]@);
        assert(all.take(i + 1).drop_last() =~= all.take(i as int));
        if same_text(matches[i].watch_type.as_str(), watch_type) {
            count = count + 1;
        }
        i = i + 1;
    }
    assert(all.take(i as int) =~= all);
    count
}

/// Accepts a scan of history that is complete, and puts its matches in the
/// order in which they are applied.
pub fn apply_historical_scan(expected_start_block: u32, scan: &BwatchScanResult) -> (r: Result<
    HistoricalScan,
    TrackerError,
>)
    ensures
        ({
            let matches = models(scan.matches@);
            match r {
                Ok(accepted) => {
                    &&& is_complete(
                        scan.start_block,
                        scan.target_block,
                        scan.blocks_processed,
                        expected_start_block,
                    )
                    &&& is_summary(
                        accepted.summary,
                        scan.start_block,
                        scan.target_block,
                        scan.blocks_processed,
                        matches,
                    )
                    &&& in_match_order(matches, models(accepted.matches@))
                },
                Err(e) => {
                    &&& !is_complete(
                        scan.start_block,
                        scan.target_block,
                        scan.blocks_processed,
                        expected_start_block,
                    )
                    &&& e == TrackerError::ScanIncomplete
                },
            }
        }),
{
    if scan.start_block != expected_start_block || scan.blocks_processed != scan_blocks(
        scan.start_block,
        scan.target_block,
    ) {
        return Err(TrackerError::ScanIncomplete);
    }
    let summary = HistoricalScanSummary {
        start_block: scan.start_block,
        target_block: scan.target_block,
        blocks_processed: scan.blocks_processed,
        matches_found: scan.matches.len() as u64,
        deposits_matched: count_matches(&scan.matches, "scriptpubkey"),
        spends_matched: count_matches(&scan.matches, "outpoint"),
    };
    let order = rank_order(&scan.matches);
    let ghost all = models(scan.matches@);
    let ghost applied = order@.map_values(|i: usize| as_historical(all[i as int]));
    let mut matches: Vec<BwatchMatch> = Vec::new();
    let mut n: usize = 0;
    while n < order.len()
        invariant
            n <= order.len(),
            all == models(scan.matches@),
            applied == order@.map_values(|i: usize| as_historical(all[i as int])),
            forall|x: usize| #[trigger] order@.contains(x) <==> x < scan.matches.len(),
            models(matches@) == applied.take(n as int),
        decreases order.len() - n,
    {
        let position = order[n];
        assert(order@.contains(position));
        let mut event = scan.matches[position].duplicate();
        assert(all[position as int] == scan.matches[position as int]@);
        event.historical_scan = true;
        let ghost before = models(matches@);
        matches.push(event);
        assert(models(matches@) =~= before.push(event@));
        assert(applied[n as int] == as_historical(all[position as int]));
        assert(applied.take(n + 1) =~= applied.take(n as int).push(applied[n as int]));
        n = n + 1;
    }
    assert(models(matches@) =~= applied);
    assert(is_match_order(all, order@));
    Ok(HistoricalScan { summary, matches })
}

/// How a scan of history is shown.
pub open spec fn summary_shown(summary: HistoricalScanSummary) -> JsonModel {
    JsonModel::Object(
        no_fields()
            .push(("start_block"@, JsonModel::Number(summary.start_block as u64)))
            .push(("target_block"@, JsonModel::Number(summary.target_block as u64)))
            .push(("blocks_processed"@, JsonModel::Number(summary.blocks_processed)))
            .push(("matches_found"@, JsonModel::Number(summary.matches_found)))
            .push(("deposits_matched"@, JsonModel::Number(summary.deposits_matched)))
            .push(("spends_matched"@, JsonModel::Number(summary.spends_matched))),
    )
}

/// The answer to a rescan.
pub open spec fn rescan_shown(
    record: RecordModel,
    branches: nat,
    summary: HistoricalScanSummary,
) -> JsonModel {
    JsonModel::Object(record_fields(record, branches).push(("rescan"@, summary_shown(summary))))
}

/// The answer to a rescan.
pub fn rescan_view(
    record: &DescriptorRecord,
    branches: usize,
    summary: &HistoricalScanSummary,
) -> (r: Json)
    ensures
        r@ == rescan_shown(record@, branches as nat, *summary),
{
    let mut shown = Fields::new();
    shown.put_number("start_block", summary.start_block as u64);
    shown.put_number("target_block", summary.target_block as u64);
    shown.put_number("blocks_processed", summary.blocks_processed);
    shown.put_number("matches_found", summary.matches_found);
    shown.put_number("deposits_matched", summary.deposits_matched);
    shown.put_number("spends_matched", summary.spends_matched);
    let mut fields = show_record_fields(record, branches);
    fields.put("rescan", shown.done());
    fields.done()
}

/// The answer to a reconciliation.
pub open spec fn reconciliation_shown(
    record: RecordModel,
    branches: nat,
    delivered: u64,
) -> JsonModel {
    JsonModel::Object(
        record_fields(record, branches).push(
            ("delivered_movements"@, JsonModel::Number(delivered)),
        ),
    )
}

/// The answer to a reconciliation.
pub fn reconciliation_view(record: &DescriptorRecord, branches: usize, delivered: u64) -> (r: Json)
    ensures
        r@ == reconciliation_shown(record@, branches as nat, delivered),
{
    let mut fields = show_record_fields(record, branches);
    fields.put_number("delivered_movements", delivered);
    fields.done()
}

/// The matches of a scan are applied by height, and within a block outputs of
/// the descriptor before spends.
pub proof fn outputs_are_applied_before_spends(
    matches: Seq<MatchModel>,
    applied: Seq<MatchModel>,
    i: int,
    j: int,
)
    requires
        in_match_order(matches, applied),
        0 <= i < j < applied.len(),
    ensures
        applied[i].blockheight <= applied[j].blockheight,
        applied[i].blockheight == applied[j].blockheight && is_deposit(applied[j]) ==> is_deposit(
            applied[i],
        ),
{
    let order = choose|order: Seq<usize>| #[trigger]
        is_match_order(matches, order) && applied == order.map_values(
            |i: usize| as_historical(matches[i as int]),
        );
    assert(crate::ordered::goes_first::<BwatchMatch>(matches, order[i] as int, order[j] as int));
}

/// No match of a scan is left out and none is made up.
pub proof fn every_match_is_applied(
    matches: Seq<MatchModel>,
    applied: Seq<MatchModel>,
    event: MatchModel,
)
    requires
        in_match_order(matches, applied),
        matches.len() <= usize::MAX,
    ensures
        applied.len() == matches.len(),
        applied.contains(event) <==> exists|i: int|
            0 <= i < matches.len() && event == as_historical(#[trigger] matches[i]),
{
    let order = choose|order: Seq<usize>| #[trigger]
        is_match_order(matches, order) && applied == order.map_values(
            |i: usize| as_historical(matches[i as int]),
        );
    if applied.contains(event) {
        let n = choose|n: int| 0 <= n < applied.len() && applied[n] == event;
        assert(order.contains(order[n]));
        assert(event == as_historical(matches[order[n] as int]));
    }
    if exists|i: int| 0 <= i < matches.len() && event == as_historical(#[trigger] matches[i]) {
        let i = choose|i: int| 0 <= i < matches.len() && event == as_historical(
            #[trigger] matches[i],
        );
        let position = i as usize;
        assert(order.contains(position));
        let n = choose|n: int| 0 <= n < order.len() && order[n] == position;
        assert(applied[n] == event);
    }
}

/// The progress of a scan is the number of blocks that it has processed, counted
/// from zero and never beyond its last block. There is none before the first
/// block, for a scan of one block, and for one of too many to show.
pub proof fn progress_counts_blocks(blocks_processed: u64, blocks_total: u64)
    ensures
        progress_of(blocks_processed, blocks_total) matches Some((done, total)) ==> {
            &&& total == blocks_total
            &&& done < total
            &&& blocks_processed <= blocks_total ==> done + 1 == blocks_processed
            &&& blocks_processed > blocks_total ==> done + 1 == blocks_total
        },
        progress_of(blocks_processed, blocks_total) is Some <==> blocks_processed >= 1 && 2
            <= blocks_total <= u32::MAX,
{
}

/// Progress is reported where there is some, and not twice in a row the same.
pub proof fn progress_is_reported_once(
    last_progress: Option<(u32, u32)>,
    blocks_processed: u64,
    blocks_total: u64,
)
    ensures
        ({
            let report = progress_to_report(last_progress, blocks_processed, blocks_total);
            let progress = progress_of(blocks_processed, blocks_total);
            &&& report is Some ==> report == progress && report != last_progress
            &&& report is None ==> progress is None || progress == last_progress
            &&& progress_to_report(progress, blocks_processed, blocks_total) is None
        }),
{
}

/// The blocks of a scan are counted from the first to the last, both included.
pub proof fn blocks_are_counted_with_both_ends(start_block: u32, target_block: u32)
    ensures
        start_block <= target_block ==> start_block + blocks_between(start_block, target_block)
            == target_block + 1,
        start_block > target_block ==> blocks_between(start_block, target_block) == 0,
{
}

/// A scan is accepted only where it began at the block that was asked for and
/// processed every block up to its target.
pub proof fn accepted_scan_has_every_block(
    start_block: u32,
    target_block: u32,
    blocks_processed: u64,
    expected_start_block: u32,
)
    ensures
        is_complete(start_block, target_block, blocks_processed, expected_start_block) <==> {
            &&& start_block == expected_start_block
            &&& start_block <= target_block ==> start_block + blocks_processed == target_block + 1
            &&& start_block > target_block ==> blocks_processed == 0
        },
{
}

/// The scan of a descriptor is one of the running scans of a set of watches, and
/// one of its owners carries the prefix. Where none is found, none is.
pub proof fn found_scan_is_for_the_prefix(rescans: Seq<RescanModel>, prefix: Seq<char>)
    ensures
        first_scan_for(rescans, prefix) matches Some(rescan) ==> {
            &&& rescans.contains(rescan)
            &&& rescan.watch_type == "set"@
            &&& exists|i: int|
                0 <= i < rescan.owners.len() && begins_with(#[trigger] rescan.owners[i], prefix)
        },
        first_scan_for(rescans, prefix) is None ==> forall|n: int, i: int|
            0 <= n < rescans.len() && 0 <= i < rescans[n].owners.len() && rescans[n].watch_type
                == "set"@ ==> !begins_with(#[trigger] rescans[n].owners[i], prefix),
    decreases rescans.len(),
{
    if rescans.len() > 0 {
        let rest = rescans.drop_first();
        found_scan_is_for_the_prefix(rest, prefix);
        match first_scan_for(rescans, prefix) {
            Some(rescan) => {
                if scans_for(rescans[0], prefix) {
                    assert(rescans.contains(rescans[0]));
                } else {
                    let n = choose|n: int| 0 <= n < rest.len() && rest[n] == rescan;
                    assert(rescans[n + 1] == rescan);
                }
            },
            None => {
                assert forall|n: int, i: int|
                    0 <= n < rescans.len() && 0 <= i < rescans[n].owners.len()
                        && rescans[n].watch_type == "set"@ implies !begins_with(
                    #[trigger] rescans[n].owners[i],
                    prefix,
                ) by {
                    if n > 0 {
                        assert(rest[n - 1] == rescans[n]);
                        assert(!begins_with(rest[n - 1].owners[i], prefix));
                    }
                }
            },
        }
    }
}

/// The matches of a type are counted one by one: those of two rows together are as
/// many as those of each.
pub proof fn matches_of_a_type_are_counted(
    matches: Seq<MatchModel>,
    more: Seq<MatchModel>,
    event: MatchModel,
    watch_type: Seq<char>,
)
    ensures
        count_type(matches + more, watch_type) == count_type(matches, watch_type) + count_type(
            more,
            watch_type,
        ),
        count_type(seq![event], watch_type) == (if event.watch_type == watch_type {
            1nat
        } else {
            0nat
        }),
        count_type(Seq::empty(), watch_type) == 0,
    decreases more.len(),
{
    reveal_with_fuel(count_type, 2);
    assert(seq![event].drop_last() =~= Seq::<MatchModel>::empty());
    if more.len() > 0 {
        matches_of_a_type_are_counted(matches, more.drop_last(), event, watch_type);
        assert((matches + more).drop_last() =~= matches + more.drop_last());
    } else {
        assert(matches + more =~= matches);
    }
}

/// The summary of a scan says where it began and ended, how many blocks it
/// processed and how many matches, outputs and spends it found.
pub proof fn summary_says_what_was_found(
    start_block: u32,
    target_block: u32,
    blocks_processed: u64,
    matches: Seq<MatchModel>,
    summary: HistoricalScanSummary,
)
    requires
        is_summary(summary, start_block, target_block, blocks_processed, matches),
    ensures
        summary.start_block == start_block,
        summary.target_block == target_block,
        summary.blocks_processed == blocks_processed,
        summary.matches_found == matches.len(),
        summary.deposits_matched == count_type(matches, "scriptpubkey"@),
        summary.spends_matched == count_type(matches, "outpoint"@),
{
}

/// A match of a scan of history is the match as it was found, marked as one of the
/// scan.
pub proof fn historical_match_is_the_match(event: MatchModel)
    ensures
        as_historical(event).historical_scan,
        as_historical(event).owner == event.owner,
        as_historical(event).watch_type == event.watch_type,
        as_historical(event).blockheight == event.blockheight,
        as_historical(event).tx == event.tx,
        as_historical(event).index == event.index,
        as_historical(event).timestamp == event.timestamp,
        is_deposit(event) <==> event.watch_type == "scriptpubkey"@,
{
}

/// The answers to a rescan and to a reconciliation show the record, and say what the
/// scan has done or how many movements were delivered.
pub proof fn answers_show_the_record(
    record: RecordModel,
    branches: nat,
    summary: HistoricalScanSummary,
    delivered: u64,
    i: int,
)
    ensures
        ({
            let rescan = rescan_shown(record, branches, summary);
            let reconciliation = reconciliation_shown(record, branches, delivered);
            let fields = record_fields(record, branches);
            let scan = rescan.field("rescan"@);
            &&& 0 <= i < fields.len() ==> rescan.field(fields[i].0) == JsonModel::Object(
                fields,
            ).field(fields[i].0)
            &&& 0 <= i < fields.len() ==> reconciliation.field(fields[i].0) == JsonModel::Object(
                fields,
            ).field(fields[i].0)
            &&& reconciliation.number_field("delivered_movements"@) == Some(delivered)
            &&& scan is Some
            &&& scan->Some_0.number_field("start_block"@) == Some(summary.start_block as u64)
            &&& scan->Some_0.number_field("target_block"@) == Some(summary.target_block as u64)
            &&& scan->Some_0.number_field("blocks_processed"@) == Some(summary.blocks_processed)
            &&& scan->Some_0.number_field("matches_found"@) == Some(summary.matches_found)
            &&& scan->Some_0.number_field("deposits_matched"@) == Some(summary.deposits_matched)
            &&& scan->Some_0.number_field("spends_matched"@) == Some(summary.spends_matched)
        }),
{
    record_names_are_others();
    let fields = record_fields(record, branches);
    let rescan = rescan_shown(record, branches, summary)->Object_0;
    let reconciliation = reconciliation_shown(record, branches, delivered)->Object_0;
    if 0 <= i < fields.len() {
        record_field_at(record, branches, i);
        record_names_differ();
        named_field_at(rescan, i);
        named_field_at(reconciliation, i);
    }
    named_field_at(rescan, 20);
    named_field_at(reconciliation, 20);
    reveal_strlit("start_block");
    reveal_strlit("target_block");
    reveal_strlit("blocks_processed");
    reveal_strlit("matches_found");
    reveal_strlit("deposits_matched");
    reveal_strlit("spends_matched");
    assert("start_block"@.len() == 11);
    assert("target_block"@.len() == 12);
    assert("blocks_processed"@.len() == 16);
    assert("matches_found"@.len() == 13);
    assert("deposits_matched"@.len() == 16);
    assert("spends_matched"@.len() == 14);
    assert("deposits_matched"@[0] == 'd');
    assert("blocks_processed"@[0] == 'b');
    let shown = summary_shown(summary)->Object_0;
    named_field_at(shown, 0);
    named_field_at(shown, 1);
    named_field_at(shown, 2);
    named_field_at(shown, 3);
    named_field_at(shown, 4);
    named_field_at(shown, 5);
}

/// No field of a record has the name of what a rescan or a reconciliation adds.
proof fn record_names_are_others()
    ensures
        forall|i: int, record: RecordModel, branches: nat|
            0 <= i < 20 ==> (#[trigger] record_fields(record, branches)[i]).0 != "rescan"@ && (
            #[trigger] record_fields(record, branches)[i]).0 != "delivered_movements"@,
{
    reveal_strlit("name");
    reveal_strlit("descriptor");
    reveal_strlit("birthheight");
    reveal_strlit("lookahead");
    reveal_strlit("confirmations");
    reveal_strlit("range_end");
    reveal_strlit("last_used_index");
    reveal_strlit("status");
    reveal_strlit("initial_scan_complete");
    reveal_strlit("pending_rescan");
    reveal_strlit("scan_operation_id");
    reveal_strlit("incident");
    reveal_strlit("last_success_at");
    reveal_strlit("branches");
    reveal_strlit("next_indexes");
    reveal_strlit("range_ends");
    reveal_strlit("last_used_indexes");
    reveal_strlit("tracked_utxos");
    reveal_strlit("external_outpoints");
    reveal_strlit("pending_movements");
    reveal_strlit("rescan");
    reveal_strlit("delivered_movements");
    assert("name"@.len() == 4);
    assert("descriptor"@.len() == 10);
    assert("birthheight"@.len() == 11);
    assert("lookahead"@.len() == 9);
    assert("confirmations"@.len() == 13);
    assert("range_end"@.len() == 9);
    assert("last_used_index"@.len() == 15);
    assert("status"@.len() == 6);
    assert("initial_scan_complete"@.len() == 21);
    assert("pending_rescan"@.len() == 14);
    assert("scan_operation_id"@.len() == 17);
    assert("incident"@.len() == 8);
    assert("last_success_at"@.len() == 15);
    assert("branches"@.len() == 8);
    assert("next_indexes"@.len() == 12);
    assert("range_ends"@.len() == 10);
    assert("last_used_indexes"@.len() == 17);
    assert("tracked_utxos"@.len() == 13);
    assert("external_outpoints"@.len() == 18);
    assert("pending_movements"@.len() == 17);
    assert("rescan"@.len() == 6);
    assert("delivered_movements"@.len() == 19);
    assert("range_ends"@[0] == 'r');
    assert("descriptor"@[0] == 'd');
    assert("range_end"@[0] == 'r');
    assert("lookahead"@[0] == 'l');
    assert("tracked_utxos"@[0] == 't');
    assert("confirmations"@[0] == 'c');
    assert("last_success_at"@[5] == 's');
    assert("last_used_index"@[5] == 'u');
    assert("rescan"@[0] == 'r');
    assert("status"@[0] == 's');
    assert("last_used_indexes"@[0] == 'l');
    assert("scan_operation_id"@[0] == 's');
    assert("pending_movements"@[0] == 'p');
    assert("branches"@[0] == 'b');
    assert("incident"@[0] == 'i');
}

/// The progress that is found is that of a running scan for the prefix.
pub proof fn found_progress_is_of_the_scan(rescans: Seq<RescanModel>, prefix: Seq<char>)
    ensures
        found_progress(rescans, prefix) matches Some((processed, total)) ==> exists|n: int|
            0 <= n < rescans.len() && scans_for(#[trigger] rescans[n], prefix)
                && rescans[n].blocks_processed == processed && rescans[n].blocks_total == total,
        found_progress(rescans, prefix) is None <==> first_scan_for(rescans, prefix) is None,
{
    found_scan_is_for_the_prefix(rescans, prefix);
    match first_scan_for(rescans, prefix) {
        Some(rescan) => {
            let n = choose|n: int| 0 <= n < rescans.len() && rescans[n] == rescan;
            assert(scans_for(rescans[n], prefix));
        },
        None => {},
    }
}

} // verus!
